use vstd::prelude::*;

verus! {

/// The texts that a list of character vectors holds.
pub open spec fn views(v: Seq<Vec<char>>) -> Seq<Seq<char>> {
    v.map_values(|w: Vec<char>| w@)
}

/// Splitting read from left to right: the words completed so far and the word under way.
pub open spec fn split_state(t: Seq<char>) -> (Seq<Seq<char>>, Seq<char>)
    decreases t.len(),
{
    if t.len() == 0 {
        (Seq::empty(), Seq::empty())
    } else {
        let (done, cur) = split_state(t.drop_last());
        if t.last() == ' ' {
            if cur.len() > 0 {
                (done.push(cur), Seq::empty())
            } else {
                (done, cur)
            }
        } else {
            (done, cur.push(t.last()))
        }
    }
}

/// The non-empty space-separated words of `t`, in order.
pub open spec fn words(t: Seq<char>) -> Seq<Seq<char>> {
    let (done, cur) = split_state(t);
    if cur.len() > 0 {
        done.push(cur)
    } else {
        done
    }
}

/// How many different words `a` holds.
pub open spec fn distinct_count(a: Seq<Seq<char>>) -> nat
    decreases a.len(),
{
    if a.len() == 0 {
        0
    } else {
        distinct_count(a.drop_last()) + if a.drop_last().contains(a.last()) {
            0nat
        } else {
            1nat
        }
    }
}

/// How many different words of `a` also occur in `b`.
pub open spec fn shared_count(a: Seq<Seq<char>>, b: Seq<Seq<char>>) -> nat
    decreases a.len(),
{
    if a.len() == 0 {
        0
    } else {
        shared_count(a.drop_last(), b) + if !a.drop_last().contains(a.last()) && b.contains(
            a.last(),
        ) {
            1nat
        } else {
            0nat
        }
    }
}

/// The size of the intersection of the two word sets, counted from both sides.
pub open spec fn overlap(a: Seq<Seq<char>>, b: Seq<Seq<char>>) -> nat {
    if shared_count(a, b) <= shared_count(b, a) {
        shared_count(a, b)
    } else {
        shared_count(b, a)
    }
}

/// The size of the union of the two word sets.
pub open spec fn union_count(a: Seq<Seq<char>>, b: Seq<Seq<char>>) -> nat {
    (distinct_count(a) + distinct_count(b) - overlap(a, b)) as nat
}

/// The Jaccard index of the two word sets, in thousandths (rounded down); zero when both
/// are empty.
pub open spec fn jaccard(a: Seq<Seq<char>>, b: Seq<Seq<char>>) -> nat {
    if union_count(a, b) == 0 {
        0
    } else {
        overlap(a, b) * 1000 / union_count(a, b)
    }
}

pub proof fn lemma_shared_le_distinct(a: Seq<Seq<char>>, b: Seq<Seq<char>>)
    ensures
        shared_count(a, b) <= distinct_count(a),
        distinct_count(a) <= a.len(),
    decreases a.len(),
{
    if a.len() > 0 {
        lemma_shared_le_distinct(a.drop_last(), b);
    }
}

/// The Jaccard index is symmetric and at most one thousand.
pub proof fn lemma_jaccard(a: Seq<Seq<char>>, b: Seq<Seq<char>>)
    ensures
        jaccard(a, b) == jaccard(b, a),
        jaccard(a, b) <= 1000,
        overlap(a, b) <= union_count(a, b),
{
    lemma_shared_le_distinct(a, b);
    lemma_shared_le_distinct(b, a);
    if union_count(a, b) > 0 {
        let o = overlap(a, b);
        let u = union_count(a, b);
        assert(o * 1000 <= u * 1000) by (nonlinear_arith)
            requires
                o <= u,
        ;
        assert(o * 1000 / u <= 1000) by (nonlinear_arith)
            requires
                o * 1000 <= u * 1000,
                u > 0,
        ;
    }
}

/// Whether two character vectors hold the same text.
pub fn chars_equal(a: &Vec<char>, b: &Vec<char>) -> (r: bool)
    ensures
        r == (a@ == b@),
{
    if a.len() != b.len() {
        return false;
    }
    let mut i: usize = 0;
    while i < a.len()
        invariant
            a@.len() == b@.len(),
            i <= a@.len(),
            a@.take(i as int) == b@.take(i as int),
        decreases a@.len() - i,
    {
        if a[i] != b[i] {
            assert(a@[i as int] != b@[i as int]);
            return false;
        }
        assert(a@.take(i + 1) =~= a@.take(i as int).push(a@[i as int]));
        assert(b@.take(i + 1) =~= b@.take(i as int).push(b@[i as int]));
        i = i + 1;
    }
    assert(a@ =~= a@.take(a@.len() as int));
    assert(b@ =~= b@.take(b@.len() as int));
    true
}

/// Whether one of the first `n` words of `v` is `w`.
fn contains_word(v: &Vec<Vec<char>>, n: usize, w: &Vec<char>) -> (r: bool)
    requires
        n <= v@.len(),
    ensures
        r == views(v@).take(n as int).contains(w@),
{
    let mut i: usize = 0;
    while i < n
        invariant
            n <= v@.len(),
            i <= n,
            !views(v@).take(i as int).contains(w@),
        decreases n - i,
    {
        if chars_equal(&v[i], w) {
            assert(views(v@).take(n as int)[i as int] == w@);
            return true;
        }
        assert(views(v@).take(i + 1) =~= views(v@).take(i as int).push(v@[i as int]@));
        i = i + 1;
    }
    false
}

/// The words of a text, split at spaces.
pub fn split_words(t: &Vec<char>) -> (r: Vec<Vec<char>>)
    ensures
        views(r@) == words(t@),
{
    let mut done: Vec<Vec<char>> = Vec::new();
    let mut cur: Vec<char> = Vec::new();
    let mut i: usize = 0;
    while i < t.len()
        invariant
            i <= t@.len(),
            (views(done@), cur@) == split_state(t@.take(i as int)),
        decreases t@.len() - i,
    {
        proof {
            assert(t@.take(i + 1).drop_last() =~= t@.take(i as int));
        }
        let c = t[i];
        if c == ' ' {
            if cur.len() > 0 {
                let w = cur;
                proof {
                    assert(views(done@.push(w)) =~= views(done@).push(w@));
                }
                done.push(w);
                cur = Vec::new();
            }
        } else {
            cur.push(c);
        }
        i = i + 1;
    }
    assert(t@.take(t@.len() as int) =~= t@);
    if cur.len() > 0 {
        proof {
            assert(views(done@.push(cur)) =~= views(done@).push(cur@));
        }
        done.push(cur);
    }
    done
}

/// How many different words of `a` occur in `b`, and how many different words `a` holds.
pub fn count_shared(a: &Vec<Vec<char>>, b: &Vec<Vec<char>>) -> (r: (u64, u64))
    ensures
        r.0 == shared_count(views(a@), views(b@)),
        r.1 == distinct_count(views(a@)),
        r.0 <= r.1,
{
    let mut shared: u64 = 0;
    let mut distinct: u64 = 0;
    let mut i: usize = 0;
    while i < a.len()
        invariant
            i <= a@.len(),
            shared == shared_count(views(a@).take(i as int), views(b@)),
            distinct == distinct_count(views(a@).take(i as int)),
            distinct <= i,
            shared <= distinct,
        decreases a@.len() - i,
    {
        proof {
            let p = views(a@).take(i + 1);
            assert(p.drop_last() =~= views(a@).take(i as int));
            assert(p.last() == a@[i as int]@);
            assert(views(b@).take(b@.len() as int) =~= views(b@));
        }
        let seen = contains_word(a, i, &a[i]);
        if !seen {
            distinct = distinct + 1;
            if contains_word(b, b.len(), &a[i]) {
                shared = shared + 1;
            }
        }
        i = i + 1;
    }
    assert(views(a@).take(a@.len() as int) =~= views(a@));
    (shared, distinct)
}

/// The Jaccard index of two word lists, in thousandths.
pub fn jaccard_index(a: &Vec<Vec<char>>, b: &Vec<Vec<char>>) -> (r: u64)
    ensures
        r == jaccard(views(a@), views(b@)),
        r <= 1000,
{
    let (sab, da) = count_shared(a, b);
    let (sba, db) = count_shared(b, a);
    proof {
        lemma_jaccard(views(a@), views(b@));
        lemma_shared_le_distinct(views(a@), views(b@));
        lemma_shared_le_distinct(views(b@), views(a@));
    }
    let o: u128 = if sab <= sba { sab as u128 } else { sba as u128 };
    let u: u128 = da as u128 + db as u128 - o;
    if u == 0 {
        0
    } else {
        let q: u128 = o * 1000 / u;
        q as u64
    }
}

} // verus!
