use vstd::prelude::*;
use crate::model::Citation;
use crate::score::{is_duplicate, lemma_score_symmetric, score};

verus! {

/// Whether two records fall in one partition: always without partitioning, and by equal
/// years (an absent year being a partition of its own) with it.
pub open spec fn same_bucket(a: Citation, b: Citation, by_year: bool) -> bool {
    !by_year || a.year == b.year
}

/// Whether records `i` and `j` are compared and judged duplicates.
pub open spec fn linked(cs: Seq<Citation>, by_year: bool, i: int, j: int) -> bool {
    same_bucket(cs[i], cs[j], by_year) && is_duplicate(cs[i], cs[j])
}

/// A labelling that gives every linked pair one label.
pub open spec fn closed(cs: Seq<Citation>, by_year: bool, lab: Seq<int>) -> bool {
    &&& lab.len() == cs.len()
    &&& forall|i: int, j: int|
        0 <= i < cs.len() && 0 <= j < cs.len() && #[trigger] linked(cs, by_year, i, j) ==> lab[i]
            == lab[j]
}

/// Whether every pair that `l` puts together, `lab` puts together too.
pub open spec fn refines(l: Seq<usize>, lab: Seq<int>) -> bool {
    forall|i: int, j: int|
        0 <= i < l.len() && 0 <= j < l.len() && #[trigger] l[i] == #[trigger] l[j] ==> lab[i]
            == lab[j]
}

/// Labels read as integers.
pub open spec fn as_ints(l: Seq<usize>) -> Seq<int> {
    l.map_values(|x: usize| x as int)
}

/// Labels that name each cluster by its first member.
pub open spec fn canonical(l: Seq<usize>) -> bool {
    forall|k: int| 0 <= k < l.len() ==> #[trigger] l[k] <= k && l[l[k] as int] == l[k]
}

/// `l` labels the connected components of the duplicate relation within partitions: linked
/// records share a label, records share a label only where every labelling that keeps
/// linked records together does so too, and each cluster is named by its first member.
pub open spec fn is_clustering(cs: Seq<Citation>, by_year: bool, l: Seq<usize>) -> bool {
    &&& l.len() == cs.len()
    &&& canonical(l)
    &&& closed(cs, by_year, as_ints(l))
    &&& forall|lab: Seq<int>| #[trigger] closed(cs, by_year, lab) ==> refines(l, lab)
}

/// The cluster labels of a list of records.
pub open spec fn cluster_labels_of(cs: Seq<Citation>, by_year: bool) -> Seq<usize> {
    choose|l: Seq<usize>| is_clustering(cs, by_year, l)
}

/// Two labellings that both meet `is_clustering` are the same.
pub proof fn lemma_clustering_unique(
    cs: Seq<Citation>,
    by_year: bool,
    l1: Seq<usize>,
    l2: Seq<usize>,
)
    requires
        is_clustering(cs, by_year, l1),
        is_clustering(cs, by_year, l2),
    ensures
        l1 == l2,
{
    assert(closed(cs, by_year, as_ints(l2)));
    assert(closed(cs, by_year, as_ints(l1)));
    assert(refines(l1, as_ints(l2)));
    assert(refines(l2, as_ints(l1)));
    assert forall|k: int| 0 <= k < l1.len() implies l1[k] == l2[k] by {
        let a = l1[k] as int;
        let b = l2[k] as int;
        assert(l1[k] <= k && l1[a] == l1[k]);
        assert(l2[k] <= k && l2[b] == l2[k]);
        assert(as_ints(l2)[a] == as_ints(l2)[k]);
        assert(as_ints(l1)[b] == as_ints(l1)[k]);
        assert(l2[a] <= a);
        assert(l1[b] <= b);
    }
    assert(l1 =~= l2);
}

/// The labels after merging the cluster named `hi` into the one named `lo`.
pub open spec fn merged(l: Seq<usize>, hi: usize, lo: usize) -> Seq<usize> {
    Seq::new(
        l.len(),
        |k: int|
            if l[k] == hi {
                lo
            } else {
                l[k]
            },
    )
}

/// Whether pair `(p, q)` comes before pair `(i, j)` in the order of comparison.
pub open spec fn before(p: int, q: int, i: int, j: int) -> bool {
    p < q && (p < i || (p == i && q < j))
}

/// What holds of the labels once every pair before `(i, j)` has been compared.
pub open spec fn partial(cs: Seq<Citation>, by_year: bool, l: Seq<usize>, i: int, j: int) -> bool {
    &&& l.len() == cs.len()
    &&& canonical(l)
    &&& forall|p: int, q: int|
        0 <= p < cs.len() && 0 <= q < cs.len() && before(p, q, i, j) && #[trigger] linked(
            cs,
            by_year,
            p,
            q,
        ) ==> l[p] == l[q]
    &&& forall|lab: Seq<int>| #[trigger] closed(cs, by_year, lab) ==> refines(l, lab)
}

proof fn lemma_merge(cs: Seq<Citation>, by_year: bool, l: Seq<usize>, i: int, j: int)
    requires
        partial(cs, by_year, l, i, j),
        0 <= i < j < cs.len(),
        linked(cs, by_year, i, j),
    ensures
        ({
            let lo = if l[i] <= l[j] { l[i] } else { l[j] };
            let hi = if l[i] <= l[j] { l[j] } else { l[i] };
            partial(cs, by_year, merged(l, hi, lo), i, j + 1)
        }),
{
    let lo = if l[i] <= l[j] { l[i] } else { l[j] };
    let hi = if l[i] <= l[j] { l[j] } else { l[i] };
    let m = merged(l, hi, lo);
    assert(l[lo as int] == lo) by {
        if l[i] <= l[j] {
            assert(l[i] <= i);
        } else {
            assert(l[j] <= j);
        }
    }
    assert(l[hi as int] == hi) by {
        if l[i] <= l[j] {
            assert(l[j] <= j);
        } else {
            assert(l[i] <= i);
        }
    }
    assert forall|k: int| 0 <= k < m.len() implies #[trigger] m[k] <= k && m[m[k] as int]
        == m[k] by {
        assert(l[k] <= k && l[l[k] as int] == l[k]);
        if l[k] == hi {
            assert(lo <= hi);
        }
    }
    assert forall|p: int, q: int|
        0 <= p < cs.len() && 0 <= q < cs.len() && before(p, q, i, j + 1) && #[trigger] linked(
            cs,
            by_year,
            p,
            q,
        ) implies m[p] == m[q] by {
        if !(p == i && q == j) {
            assert(before(p, q, i, j));
        }
    }
    assert forall|lab: Seq<int>| #[trigger] closed(cs, by_year, lab) implies refines(m, lab) by {
        assert(refines(l, lab));
        assert(lab[i] == lab[j]);
        assert forall|p: int, q: int|
            0 <= p < m.len() && 0 <= q < m.len() && #[trigger] m[p] == #[trigger] m[q] implies lab[p]
                == lab[q] by {
            if l[p] == l[q] {
            } else if l[p] == hi || l[p] == lo {
                if l[p] == l[i] {
                    assert(lab[p] == lab[i]);
                } else {
                    assert(lab[p] == lab[j]);
                }
                if l[q] == l[i] {
                    assert(lab[q] == lab[i]);
                } else {
                    assert(lab[q] == lab[j]);
                }
            }
        }
    }
}

/// The cluster label of every record: the index of the first record of its cluster.
pub fn cluster_labels(cs: &[Citation], by_year: bool) -> (r: Vec<usize>)
    ensures
        is_clustering(cs@, by_year, r@),
{
    let n = cs.len();
    let mut l: Vec<usize> = Vec::new();
    let mut k: usize = 0;
    while k < n
        invariant
            n == cs@.len(),
            k <= n,
            l@.len() == k,
            forall|t: int| 0 <= t < k ==> l@[t] == t,
        decreases n - k,
    {
        l.push(k);
        k = k + 1;
    }
    assert(canonical(l@));
    assert forall|lab: Seq<int>| #[trigger] closed(cs@, by_year, lab) implies refines(l@, lab) by {
    }
    let mut i: usize = 0;
    while i < n
        invariant
            n == cs@.len(),
            i <= n,
            partial(cs@, by_year, l@, i as int, i + 1),
        decreases n - i,
    {
        let mut j: usize = i + 1;
        assert(partial(cs@, by_year, l@, i as int, j as int));
        while j < n
            invariant
                n == cs@.len(),
                i < n,
                i < j <= n,
                partial(cs@, by_year, l@, i as int, j as int),
            decreases n - j,
        {
            let same = !by_year || cs[i].year == cs[j].year;
            if same && score(&cs[i], &cs[j]).is_duplicate {
                proof {
                    lemma_merge(cs@, by_year, l@, i as int, j as int);
                }
                let li = l[i];
                let lj = l[j];
                let lo = if li <= lj { li } else { lj };
                let hi = if li <= lj { lj } else { li };
                let ghost old_l = l@;
                let mut k: usize = 0;
                while k < n
                    invariant
                        n == cs@.len(),
                        k <= n,
                        old_l.len() == n,
                        l@.len() == n,
                        forall|t: int| 0 <= t < k ==> l@[t] == merged(old_l, hi, lo)[t],
                        forall|t: int| k <= t < n ==> l@[t] == old_l[t],
                    decreases n - k,
                {
                    if l[k] == hi {
                        l.set(k, lo);
                    }
                    k = k + 1;
                }
                assert(l@ =~= merged(old_l, hi, lo));
            } else {
                assert forall|p: int, q: int|
                    0 <= p < cs@.len() && 0 <= q < cs@.len() && before(p, q, i as int, j + 1)
                        && #[trigger] linked(cs@, by_year, p, q) implies l@[p] == l@[q] by {
                    if !(p == i && q == j) {
                        assert(before(p, q, i as int, j as int));
                    }
                }
            }
            j = j + 1;
        }
        assert forall|p: int, q: int|
            0 <= p < cs@.len() && 0 <= q < cs@.len() && before(p, q, i + 1, i + 2)
                && #[trigger] linked(cs@, by_year, p, q) implies l@[p] == l@[q] by {
            assert(before(p, q, i as int, n as int));
        }
        i = i + 1;
    }
    proof {
        assert forall|p: int, q: int|
            0 <= p < cs@.len() && 0 <= q < cs@.len() && #[trigger] linked(
                cs@,
                by_year,
                p,
                q,
            ) implies as_ints(l@)[p] == as_ints(l@)[q] by {
            if p < q {
                assert(before(p, q, n as int, n + 1));
            } else if q < p {
                lemma_score_symmetric(cs@[p], cs@[q]);
                assert(linked(cs@, by_year, q, p));
                assert(before(q, p, n as int, n + 1));
            }
        }
    }
    l
}


/// Two records with the same non-empty DOI or PubMed identifier end up in one cluster,
/// whatever their titles, authors and years, provided they share a partition.
pub proof fn lemma_identifier_match_clusters(
    cs: Seq<Citation>,
    by_year: bool,
    l: Seq<usize>,
    i: int,
    j: int,
)
    requires
        is_clustering(cs, by_year, l),
        0 <= i < cs.len(),
        0 <= j < cs.len(),
        crate::score::identifier_match(cs[i], cs[j]),
        same_bucket(cs[i], cs[j], by_year),
    ensures
        l[i] == l[j],
{
    assert(linked(cs, by_year, i, j));
    assert(as_ints(l)[i] == as_ints(l)[j]);
}

/// A label per record that names its year, with one more for records without a year.
pub open spec fn year_buckets(cs: Seq<Citation>) -> Seq<int> {
    Seq::new(
        cs.len(),
        |k: int|
            match cs[k].year {
                Some(y) => y as int,
                None => -0x1_0000_0000,
            },
    )
}

/// With partitioning by year, every cluster holds records of one year only (or records
/// that all lack a year).
pub proof fn lemma_partition_sound(cs: Seq<Citation>, l: Seq<usize>, i: int, j: int)
    requires
        is_clustering(cs, true, l),
        0 <= i < cs.len(),
        0 <= j < cs.len(),
        l[i] == l[j],
    ensures
        cs[i].year == cs[j].year,
{
    let b = year_buckets(cs);
    assert(closed(cs, true, b));
    assert(refines(l, b));
    assert(b[i] == b[j]);
}

} // verus!
