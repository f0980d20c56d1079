use vstd::prelude::*;
use crate::cluster::{cluster_labels, same_bucket, cluster_labels_of, is_clustering, lemma_clustering_unique};
use crate::error::Result;
use crate::model::{copy_citation, same_record, Citation, DuplicateGroup};
use crate::select::{best_position, select_best, string_views};

verus! {

/// The options of a deduplication run.
#[derive(Clone, Debug)]
pub struct DeduplicatorConfig {
    /// Compare only records of the same year (records without a year form one partition).
    pub group_by_year: bool,
    /// Cluster the partitions concurrently; the outcome is the same either way.
    pub run_in_parallel: bool,
    /// Source tags by priority, highest first, used to pick each cluster's representative.
    pub source_preferences: Vec<String>,
}

impl Default for DeduplicatorConfig {
    fn default() -> (r: DeduplicatorConfig)
        ensures
            r.group_by_year,
            !r.run_in_parallel,
            r.source_preferences@.len() == 0,
    {
        DeduplicatorConfig {
            group_by_year: true,
            run_in_parallel: false,
            source_preferences: Vec::new(),
        }
    }
}

/// A duplicate group given by positions in the input: the representative and the others.
#[derive(Clone, Debug)]
pub struct IndexGroup {
    pub unique: usize,
    pub duplicates: Vec<usize>,
}

/// The positions of the records labelled `x` among the first `n`, in order.
pub open spec fn class(l: Seq<usize>, x: usize, n: int) -> Seq<usize>
    decreases n,
{
    if n <= 0 {
        Seq::empty()
    } else if l[n - 1] == x {
        class(l, x, n - 1).push((n - 1) as usize)
    } else {
        class(l, x, n - 1)
    }
}

/// The representative of a cluster and the other members in input order.
pub open spec fn group_of(
    cs: Seq<Citation>,
    prefs: Seq<Seq<char>>,
    members: Seq<usize>,
) -> (usize, Seq<usize>) {
    let w = best_position(cs, prefs, members);
    (members[w], members.remove(w))
}

/// Whether record `x` is the first of its partition.
pub open spec fn is_leader(cs: Seq<Citation>, by_year: bool, x: int) -> bool {
    forall|k: int| 0 <= k < x ==> !same_bucket(#[trigger] cs[k], cs[x], by_year)
}

/// The groups of the partition of record `x` whose clusters are named by `0..m`, by name.
pub open spec fn partition_groups(
    cs: Seq<Citation>,
    prefs: Seq<Seq<char>>,
    l: Seq<usize>,
    by_year: bool,
    x: int,
    m: int,
) -> Seq<(usize, Seq<usize>)>
    decreases m,
{
    if m <= 0 {
        Seq::empty()
    } else {
        let prev = partition_groups(cs, prefs, l, by_year, x, m - 1);
        let members = class(l, (m - 1) as usize, l.len() as int);
        if same_bucket(cs[m - 1], cs[x], by_year) && members.len() >= 2 {
            prev.push(group_of(cs, prefs, members))
        } else {
            prev
        }
    }
}

/// The groups of the partitions whose first record is among `0..m`, partition after
/// partition in the order of their first records.
pub open spec fn groups_upto(
    cs: Seq<Citation>,
    prefs: Seq<Seq<char>>,
    l: Seq<usize>,
    by_year: bool,
    m: int,
) -> Seq<(usize, Seq<usize>)>
    decreases m,
{
    if m <= 0 {
        Seq::empty()
    } else {
        let prev = groups_upto(cs, prefs, l, by_year, m - 1);
        if is_leader(cs, by_year, m - 1) {
            prev + partition_groups(cs, prefs, l, by_year, m - 1, cs.len() as int)
        } else {
            prev
        }
    }
}

/// The duplicate groups of a list of records: partition by partition, in the order of each
/// partition's first record, and within a partition in the order of each cluster's first
/// record.
pub open spec fn duplicate_groups(
    cs: Seq<Citation>,
    group_by_year: bool,
    prefs: Seq<Seq<char>>,
) -> Seq<(usize, Seq<usize>)> {
    let l = cluster_labels_of(cs, group_by_year);
    groups_upto(cs, prefs, l, group_by_year, cs.len() as int)
}

/// A group by position, as the pair of its representative and the others.
pub open spec fn group_view(g: IndexGroup) -> (usize, Seq<usize>) {
    (g.unique, g.duplicates@)
}

/// A list of groups by position, as pairs.
pub open spec fn group_views(v: Seq<IndexGroup>) -> Seq<(usize, Seq<usize>)> {
    v.map_values(|g: IndexGroup| group_view(g))
}

proof fn lemma_class_bounded(l: Seq<usize>, x: usize, n: int)
    requires
        n <= l.len(),
        l.len() <= usize::MAX,
    ensures
        forall|p: int| 0 <= p < class(l, x, n).len() ==> class(l, x, n)[p] < n,
        forall|p: int| 0 <= p < class(l, x, n).len() ==> l[class(l, x, n)[p] as int] == x,
    decreases n,
{
    if n > 0 {
        lemma_class_bounded(l, x, n - 1);
        let prev = class(l, x, n - 1);
        assert forall|p: int| 0 <= p < class(l, x, n).len() implies class(l, x, n)[p] < n
            && l[class(l, x, n)[p] as int] == x by {
            if p < prev.len() {
                assert(class(l, x, n)[p] == prev[p]);
            } else {
                assert(class(l, x, n)[p] == (n - 1) as usize);
                assert(((n - 1) as usize) as int == n - 1);
            }
        }
    }
}

fn members_of(l: &Vec<usize>, x: usize) -> (r: Vec<usize>)
    ensures
        r@ == class(l@, x, l@.len() as int),
{
    let mut out: Vec<usize> = Vec::new();
    let mut k: usize = 0;
    while k < l.len()
        invariant
            k <= l@.len(),
            out@ == class(l@, x, k as int),
        decreases l@.len() - k,
    {
        if l[k] == x {
            out.push(k);
        }
        k = k + 1;
    }
    out
}

fn without(members: &Vec<usize>, w: usize) -> (r: Vec<usize>)
    requires
        w < members@.len(),
    ensures
        r@ == members@.remove(w as int),
{
    let mut out: Vec<usize> = Vec::new();
    let mut k: usize = 0;
    while k < members.len()
        invariant
            w < members@.len(),
            k <= members@.len(),
            out@ == (if k <= w {
                members@.take(k as int)
            } else {
                members@.remove(w as int).take(k - 1)
            }),
        decreases members@.len() - k,
    {
        if k != w {
            out.push(members[k]);
        }
        proof {
            if k < w {
                assert(members@.take(k + 1) =~= members@.take(k as int).push(members@[k as int]));
            } else if k == w {
                assert(members@.remove(w as int).take(k as int) =~= members@.take(k as int));
            } else {
                assert(members@.remove(w as int).take(k as int) =~= members@.remove(w as int).take(
                    k - 1,
                ).push(members@[k as int]));
            }
        }
        k = k + 1;
    }
    assert(members@.remove(w as int).take(members@.len() - 1) =~= members@.remove(w as int));
    out
}

fn leads(cs: &[Citation], by_year: bool, x: usize) -> (r: bool)
    requires
        x < cs@.len(),
    ensures
        r == is_leader(cs@, by_year, x as int),
{
    let mut k: usize = 0;
    while k < x
        invariant
            x < cs@.len(),
            k <= x,
            forall|t: int| 0 <= t < k ==> !same_bucket(#[trigger] cs@[t], cs@[x as int], by_year),
        decreases x - k,
    {
        if !by_year || cs[k].year == cs[x].year {
            assert(same_bucket(cs@[k as int], cs@[x as int], by_year));
            return false;
        }
        k = k + 1;
    }
    true
}

/// The duplicate groups of `cs` by position: connected components of the duplicate relation
/// (within years when `group_by_year`), clusters of one record left out, each with its
/// representative chosen by `prefs`; partition by partition in the order of their first
/// records, and within one in the order of each cluster's first record.
pub fn find_duplicate_indices(cs: &[Citation], group_by_year: bool, prefs: &Vec<String>) -> (r:
    Vec<IndexGroup>)
    ensures
        group_views(r@) == duplicate_groups(cs@, group_by_year, string_views(prefs@)),
        forall|g: int| 0 <= g < r@.len() ==> #[trigger] r@[g].unique < cs@.len(),
        forall|g: int| 0 <= g < r@.len() ==> #[trigger] r@[g].duplicates@.len() >= 1,
        group_by_year ==> forall|g: int, k: int|
            0 <= g < r@.len() && 0 <= k < r@[g].duplicates@.len() ==> cs@[#[trigger] r@[g].duplicates@[k] as int].year
                == cs@[r@[g].unique as int].year,
        forall|g: int, k: int|
            0 <= g < r@.len() && 0 <= k < r@[g].duplicates@.len() ==> #[trigger] r@[g].duplicates@[k]
                < cs@.len(),
{
    let l = cluster_labels(cs, group_by_year);
    let ghost sv = string_views(prefs@);
    proof {
        lemma_clustering_unique(cs@, group_by_year, l@, cluster_labels_of(cs@, group_by_year));
    }
    let mut out: Vec<IndexGroup> = Vec::new();
    let mut x: usize = 0;
    while x < cs.len()
        invariant
            sv == string_views(prefs@),
            l@.len() == cs@.len(),
            is_clustering(cs@, group_by_year, l@),
            x <= cs@.len(),
            group_views(out@) == groups_upto(cs@, sv, l@, group_by_year, x as int),
            forall|g: int| 0 <= g < out@.len() ==> #[trigger] out@[g].unique < cs@.len(),
            forall|g: int| 0 <= g < out@.len() ==> #[trigger] out@[g].duplicates@.len() >= 1,
            group_by_year ==> forall|g: int, k: int|
            0 <= g < out@.len() && 0 <= k < out@[g].duplicates@.len() ==> cs@[#[trigger] out@[g].duplicates@[k] as int].year
                == cs@[out@[g].unique as int].year,
            forall|g: int, k: int|
                0 <= g < out@.len() && 0 <= k < out@[g].duplicates@.len() ==> #[trigger] out@[g].duplicates@[k]
                    < cs@.len(),
        decreases cs@.len() - x,
    {
        let ghost before = group_views(out@);
        if leads(cs, group_by_year, x) {
            let mut y: usize = 0;
            while y < cs.len()
                invariant
                    sv == string_views(prefs@),
                    l@.len() == cs@.len(),
                    is_clustering(cs@, group_by_year, l@),
                    x < cs@.len(),
                    y <= cs@.len(),
                    group_views(out@) == before + partition_groups(
                        cs@,
                        sv,
                        l@,
                        group_by_year,
                        x as int,
                        y as int,
                    ),
                    forall|g: int| 0 <= g < out@.len() ==> #[trigger] out@[g].unique < cs@.len(),
                    forall|g: int| 0 <= g < out@.len() ==> #[trigger] out@[g].duplicates@.len() >= 1,
                    group_by_year ==> forall|g: int, k: int|
                0 <= g < out@.len() && 0 <= k < out@[g].duplicates@.len() ==> cs@[#[trigger] out@[g].duplicates@[k] as int].year
                == cs@[out@[g].unique as int].year,
            group_by_year ==> forall|g: int, k: int|
            0 <= g < out@.len() && 0 <= k < out@[g].duplicates@.len() ==> cs@[#[trigger] out@[g].duplicates@[k] as int].year
                == cs@[out@[g].unique as int].year,
                    forall|g: int, k: int|
                        0 <= g < out@.len() && 0 <= k < out@[g].duplicates@.len()
                            ==> #[trigger] out@[g].duplicates@[k] < cs@.len(),
                decreases cs@.len() - y,
            {
                let same = !group_by_year || cs[y].year == cs[x].year;
                if same {
                    let members = members_of(&l, y);
                    if members.len() >= 2 {
                        proof {
                            lemma_class_bounded(l@, y, l@.len() as int);
                        }
                        let w = select_best(cs, prefs, &members);
                        let g = IndexGroup { unique: members[w], duplicates: without(&members, w) };
                        proof {
                            assert forall|k: int| 0 <= k < g.duplicates@.len() implies g.duplicates@[k]
                                < cs@.len() by {
                                if k < w {
                                    assert(g.duplicates@[k] == members@[k]);
                                } else {
                                    assert(g.duplicates@[k] == members@[k + 1]);
                                }
                            }
                            assert(group_views(out@.push(g)) =~= group_views(out@).push(group_view(g)));
                            if group_by_year {
                                assert forall|k: int| 0 <= k < g.duplicates@.len() implies cs@[g.duplicates@[k] as int].year
                                    == cs@[g.unique as int].year by {
                                    let kk = if k < w { k } else { k + 1 };
                                    assert(g.duplicates@[k] == members@[kk]);
                                    crate::cluster::lemma_partition_sound(cs@, l@, members@[kk] as int, members@[w as int] as int);
                                }
                            }
                            assert(before + partition_groups(cs@, sv, l@, group_by_year, x as int, y + 1)
                                =~= before + partition_groups(cs@, sv, l@, group_by_year, x as int, y as int).push(group_view(g)));
                        }
                        out.push(g);
                    }
                }
                y = y + 1;
            }
        } else {
            assert(groups_upto(cs@, sv, l@, group_by_year, x + 1) == before);
        }
        x = x + 1;
    }
    out
}

/// The groups found do not depend on whether the partitions are clustered concurrently:
/// two configurations that agree on partitioning and source preferences give the same
/// groups, in the same order.
pub proof fn lemma_parallelism_unobservable(
    cs: Seq<Citation>,
    c1: DeduplicatorConfig,
    c2: DeduplicatorConfig,
)
    requires
        c1.group_by_year == c2.group_by_year,
        string_views(c1.source_preferences@) == string_views(c2.source_preferences@),
    ensures
        duplicate_groups(cs, c1.group_by_year, string_views(c1.source_preferences@))
            == duplicate_groups(cs, c2.group_by_year, string_views(c2.source_preferences@)),
{
}

/// Whether every group holds records of one year only (or records that all lack a year).
pub open spec fn one_year_each(groups: Seq<DuplicateGroup>) -> bool {
    forall|g: int, k: int|
        0 <= g < groups.len() && 0 <= k < groups[g].duplicates@.len() ==> (
        #[trigger] groups[g].duplicates@[k]).year == groups[g].unique.year
}

/// Whether `g` holds copies of the records at the positions of `expected`.
pub open spec fn group_matches(cs: Seq<Citation>, g: DuplicateGroup, expected: (usize, Seq<usize>)) -> bool {
    &&& same_record(g.unique, cs[expected.0 as int])
    &&& g.duplicates@.len() == expected.1.len()
    &&& forall|k: int|
        0 <= k < expected.1.len() ==> same_record(
            #[trigger] g.duplicates@[k],
            cs[expected.1[k] as int],
        )
}

pub open spec fn groups_match(
    cs: Seq<Citation>,
    groups: Seq<DuplicateGroup>,
    expected: Seq<(usize, Seq<usize>)>,
) -> bool {
    &&& groups.len() == expected.len()
    &&& forall|i: int| 0 <= i < groups.len() ==> group_matches(cs, #[trigger] groups[i], expected[i])
}

/// Finds duplicate records and groups them.
pub struct Deduplicator {
    pub config: DeduplicatorConfig,
}

impl Deduplicator {
    /// A deduplicator with the default options.
    pub fn new() -> (r: Deduplicator)
        ensures
            r.config.group_by_year,
            !r.config.run_in_parallel,
            r.config.source_preferences@.len() == 0,
    {
        Deduplicator { config: DeduplicatorConfig::default() }
    }

    /// The same deduplicator with the given options.
    pub fn with_config(self, config: DeduplicatorConfig) -> (r: Deduplicator)
        ensures
            r.config == config,
    {
        Deduplicator { config }
    }

    /// The duplicate groups of `citations`, as `find_duplicate_indices` gives them, with
    /// copies of the records in place of their positions. It never fails.
    pub fn find_duplicates(&self, citations: &[Citation]) -> (r: Result<Vec<DuplicateGroup>>)
        ensures
            r matches Ok(groups) && groups_match(
                citations@,
                groups@,
                duplicate_groups(
                    citations@,
                    self.config.group_by_year,
                    string_views(self.config.source_preferences@),
                ),
            ) && (self.config.group_by_year ==> one_year_each(groups@)),
    {
        let idx = find_duplicate_indices(
            citations,
            self.config.group_by_year,
            &self.config.source_preferences,
        );
        let mut out: Vec<DuplicateGroup> = Vec::new();
        let mut i: usize = 0;
        while i < idx.len()
            invariant
                i <= idx@.len(),
                forall|g: int| 0 <= g < idx@.len() ==> #[trigger] idx@[g].unique < citations@.len(),
                forall|g: int, k: int|
                    0 <= g < idx@.len() && 0 <= k < idx@[g].duplicates@.len()
                        ==> #[trigger] idx@[g].duplicates@[k] < citations@.len(),
                groups_match(citations@, out@, group_views(idx@).take(i as int)),
                self.config.group_by_year ==> forall|g: int, k: int|
                    0 <= g < idx@.len() && 0 <= k < idx@[g].duplicates@.len()
                        ==> citations@[#[trigger] idx@[g].duplicates@[k] as int].year
                        == citations@[idx@[g].unique as int].year,
                self.config.group_by_year ==> one_year_each(out@),
            decreases idx@.len() - i,
        {
            let g = &idx[i];
            let mut dups: Vec<Citation> = Vec::new();
            let mut k: usize = 0;
            while k < g.duplicates.len()
                invariant
                    *g == idx@[i as int],
                    i < idx@.len(),
                    k <= g.duplicates@.len(),
                    dups@.len() == k,
                    forall|g: int, k: int|
                        0 <= g < idx@.len() && 0 <= k < idx@[g].duplicates@.len()
                            ==> #[trigger] idx@[g].duplicates@[k] < citations@.len(),
                    forall|t: int|
                        0 <= t < k ==> same_record(
                            #[trigger] dups@[t],
                            citations@[g.duplicates@[t] as int],
                        ),
                decreases g.duplicates@.len() - k,
            {
                dups.push(copy_citation(&citations[g.duplicates[k]]));
                k = k + 1;
            }
            let dg = DuplicateGroup { unique: copy_citation(&citations[g.unique]), duplicates: dups };
            proof {
                let gv = group_views(idx@);
                assert(gv.take(i + 1) =~= gv.take(i as int).push(group_view(idx@[i as int])));
                assert(group_matches(citations@, dg, group_view(idx@[i as int])));
                if self.config.group_by_year {
                    assert forall|k: int| 0 <= k < dg.duplicates@.len() implies (#[trigger] dg.duplicates@[k]).year
                        == dg.unique.year by {
                        assert(same_record(dg.duplicates@[k], citations@[g.duplicates@[k] as int]));
                    }
                    assert forall|h: int, k: int|
                        0 <= h < out@.push(dg).len() && 0 <= k < out@.push(dg)[h].duplicates@.len() implies
                        (#[trigger] out@.push(dg)[h].duplicates@[k]).year == out@.push(dg)[h].unique.year by {
                        if h < out@.len() {
                            assert(out@.push(dg)[h] == out@[h]);
                        }
                    }
                }
            }
            out.push(dg);
            i = i + 1;
        }
        assert(group_views(idx@).take(idx@.len() as int) =~= group_views(idx@));
        Ok(out)
    }
}

} // verus!
