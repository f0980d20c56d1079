use vstd::prelude::*;

verus! {

/// The least of three numbers.
pub open spec fn min3(x: nat, y: nat, z: nat) -> nat {
    if x <= y && x <= z {
        x
    } else if y <= z {
        y
    } else {
        z
    }
}

/// The Levenshtein distance: the fewest insertions, deletions and substitutions of single
/// characters that turn `s` into `t`.
pub open spec fn lev(s: Seq<char>, t: Seq<char>) -> nat
    decreases s.len() + t.len(),
{
    if s.len() == 0 {
        t.len()
    } else if t.len() == 0 {
        s.len()
    } else {
        min3(
            lev(s.drop_last(), t) + 1,
            lev(s, t.drop_last()) + 1,
            lev(s.drop_last(), t.drop_last()) + if s.last() == t.last() {
                0nat
            } else {
                1nat
            },
        )
    }
}

/// The similarity of two texts by edit distance, in thousandths: one thousand less the
/// distance per length of the longer text, and zero when both are empty.
pub open spec fn edit_ratio(s: Seq<char>, t: Seq<char>) -> nat {
    let m = if s.len() >= t.len() {
        s.len()
    } else {
        t.len()
    };
    if m == 0 || lev(s, t) >= m {
        0
    } else {
        ((m - lev(s, t)) as nat) * 1000 / m
    }
}

/// The edit distance does not depend on the order of its arguments.
pub proof fn lemma_lev_symmetric(s: Seq<char>, t: Seq<char>)
    ensures
        lev(s, t) == lev(t, s),
    decreases s.len() + t.len(),
{
    if s.len() > 0 && t.len() > 0 {
        lemma_lev_symmetric(s.drop_last(), t);
        lemma_lev_symmetric(s, t.drop_last());
        lemma_lev_symmetric(s.drop_last(), t.drop_last());
    }
}

proof fn lemma_lev_bound(s: Seq<char>, t: Seq<char>)
    ensures
        lev(s, t) <= s.len() + t.len(),
    decreases s.len() + t.len(),
{
    if s.len() > 0 && t.len() > 0 {
        lemma_lev_bound(s.drop_last(), t);
    }
}

/// The edit similarity is symmetric and at most one thousand.
pub proof fn lemma_edit_ratio(s: Seq<char>, t: Seq<char>)
    ensures
        edit_ratio(s, t) == edit_ratio(t, s),
        edit_ratio(s, t) <= 1000,
{
    lemma_lev_symmetric(s, t);
    let m = if s.len() >= t.len() {
        s.len()
    } else {
        t.len()
    };
    if m > 0 && lev(s, t) < m {
        let d = (m - lev(s, t)) as nat;
        assert(d * 1000 / m <= 1000) by (nonlinear_arith)
            requires
                d <= m,
                m > 0,
        ;
    }
}

/// The edit distance of two texts, computed row by row.
pub fn edit_distance(s: &Vec<char>, t: &Vec<char>) -> (r: u128)
    ensures
        r == lev(s@, t@),
{
    let n = s.len();
    let m = t.len();
    assert(s@.len() + t@.len() < u128::MAX);
    let mut prev: Vec<u128> = Vec::new();
    prev.push(0);
    let mut j: usize = 0;
    while j < m
        invariant
            m == t@.len(),
            j <= m,
            prev@.len() == j + 1,
            forall|k: int| 0 <= k <= j ==> prev@[k] == lev(s@.take(0), t@.take(k)),
            s@.len() + t@.len() < u128::MAX,
        decreases m - j,
    {
        prev.push((j + 1) as u128);
        j = j + 1;
    }
    let mut i: usize = 0;
    while i < n
        invariant
            n == s@.len(),
            m == t@.len(),
            i <= n,
            prev@.len() == m + 1,
            forall|k: int| 0 <= k <= m ==> prev@[k] == lev(s@.take(i as int), t@.take(k)),
            s@.len() + t@.len() < u128::MAX,
        decreases n - i,
    {
        let mut cur: Vec<u128> = Vec::new();
        cur.push((i + 1) as u128);
        proof {
            assert(t@.take(0).len() == 0);
        }
        let mut j: usize = 0;
        while j < m
            invariant
                n == s@.len(),
                m == t@.len(),
                i < n,
                j <= m,
                prev@.len() == m + 1,
                cur@.len() == j + 1,
                forall|k: int| 0 <= k <= m ==> prev@[k] == lev(s@.take(i as int), t@.take(k)),
                forall|k: int| 0 <= k <= j ==> cur@[k] == lev(s@.take(i + 1), t@.take(k)),
                s@.len() + t@.len() < u128::MAX,
            decreases m - j,
        {
            proof {
                let a = s@.take(i + 1);
                let b = t@.take(j + 1);
                assert(a.drop_last() =~= s@.take(i as int));
                assert(b.drop_last() =~= t@.take(j as int));
                lemma_lev_bound(s@.take(i as int), t@.take(j + 1));
                lemma_lev_bound(a, t@.take(j as int));
                lemma_lev_bound(s@.take(i as int), t@.take(j as int));
            }
            let del = prev[j + 1] + 1;
            let ins = cur[j] + 1;
            let sub = prev[j] + if s[i] == t[j] { 0 } else { 1 };
            let best = if del <= ins && del <= sub {
                del
            } else if ins <= sub {
                ins
            } else {
                sub
            };
            cur.push(best);
            j = j + 1;
        }
        prev = cur;
        i = i + 1;
    }
    proof {
        assert(s@.take(n as int) =~= s@);
        assert(t@.take(m as int) =~= t@);
    }
    prev[m]
}

} // verus!
