use vstd::prelude::*;
use crate::model::{opt_view, Citation};

verus! {

/// The texts of a list of strings.
pub open spec fn string_views(v: Seq<String>) -> Seq<Seq<char>> {
    v.map_values(|s: String| s@)
}

/// The position of the first preference equal to `source`, or the number of preferences
/// where none is (or the record has no source).
pub open spec fn rank_in(prefs: Seq<Seq<char>>, source: Option<Seq<char>>) -> nat
    decreases prefs.len(),
{
    if prefs.len() == 0 {
        0
    } else {
        let r = rank_in(prefs.drop_last(), source);
        if r < prefs.len() - 1 {
            r
        } else if source == Some(prefs.last()) {
            (prefs.len() - 1) as nat
        } else {
            prefs.len()
        }
    }
}

/// The rank of a record's source among the preferences.
pub open spec fn source_rank(c: Citation, prefs: Seq<Seq<char>>) -> nat {
    rank_in(prefs, opt_view(c.source))
}

/// One for a present, non-empty text.
pub open spec fn present(o: Option<String>) -> nat {
    match o {
        Some(s) => if s@.len() > 0 { 1 } else { 0 },
        None => 0,
    }
}

/// One for a non-empty list.
pub open spec fn filled<T>(v: Vec<T>) -> nat {
    if v@.len() > 0 { 1 } else { 0 }
}

/// How many of the fields of a record are filled in.
pub open spec fn completeness(c: Citation) -> nat {
    (if c.id@.len() > 0 { 1nat } else { 0nat }) + (if c.extra_fields.len() > 0 { 1nat } else {
        0nat
    }) + present(c.source) + (if c.title@.len() > 0 { 1nat } else { 0nat }) + filled(c.citation_type) + filled(c.authors)
        + present(c.journal) + present(c.journal_abbr) + (if c.year is Some { 1nat } else { 0nat })
        + present(c.volume) + present(c.issue) + present(c.pages) + filled(c.issn) + present(c.doi)
        + present(c.pmid) + present(c.pmc_id) + present(c.abstract_text) + filled(c.keywords)
        + filled(c.urls) + present(c.language) + filled(c.mesh_terms) + present(c.publisher)
}

/// Whether `a` ranks strictly above `b`: a preferred source first, then more fields filled.
pub open spec fn better(a: Citation, b: Citation, prefs: Seq<Seq<char>>) -> bool {
    source_rank(a, prefs) < source_rank(b, prefs) || (source_rank(a, prefs) == source_rank(
        b,
        prefs,
    ) && completeness(a) > completeness(b))
}

/// Whether position `w` of `members` holds the representative: it ranks strictly above
/// every earlier member, and no later member ranks strictly above it.
pub open spec fn is_best(
    cs: Seq<Citation>,
    prefs: Seq<Seq<char>>,
    members: Seq<usize>,
    w: int,
) -> bool {
    &&& 0 <= w < members.len()
    &&& forall|p: int|
        0 <= p < w ==> #[trigger] better(cs[members[w] as int], cs[members[p] as int], prefs)
    &&& forall|p: int|
        w < p < members.len() ==> !#[trigger] better(
            cs[members[p] as int],
            cs[members[w] as int],
            prefs,
        )
}

/// The position of the representative among `members`.
pub open spec fn best_position(cs: Seq<Citation>, prefs: Seq<Seq<char>>, members: Seq<usize>) -> int {
    choose|w: int| is_best(cs, prefs, members, w)
}

/// Selection is deterministic: one position at most is the representative.
pub proof fn lemma_best_unique(
    cs: Seq<Citation>,
    prefs: Seq<Seq<char>>,
    members: Seq<usize>,
    w1: int,
    w2: int,
)
    requires
        is_best(cs, prefs, members, w1),
        is_best(cs, prefs, members, w2),
    ensures
        w1 == w2,
{
    if w1 < w2 {
        assert(better(cs[members[w2] as int], cs[members[w1] as int], prefs));
    } else if w2 < w1 {
        assert(better(cs[members[w1] as int], cs[members[w2] as int], prefs));
    }
}

fn source_rank_of(c: &Citation, prefs: &Vec<String>) -> (r: usize)
    ensures
        r == source_rank(*c, string_views(prefs@)),
{
    let ghost sv = string_views(prefs@);
    let mut i: usize = 0;
    while i < prefs.len()
        invariant
            sv == string_views(prefs@),
            i <= prefs@.len(),
            rank_in(sv.take(i as int), opt_view(c.source)) == i,
        decreases prefs@.len() - i,
    {
        proof {
            assert(sv.take(i + 1).drop_last() =~= sv.take(i as int));
        }
        let hit = match &c.source {
            Some(s) => s.eq(&prefs[i]),
            None => false,
        };
        if hit {
            proof {
                lemma_rank_prefix(sv, opt_view(c.source), i as int);
            }
            return i;
        }
        i = i + 1;
    }
    assert(sv.take(prefs@.len() as int) =~= sv);
    i
}

proof fn lemma_rank_prefix(prefs: Seq<Seq<char>>, source: Option<Seq<char>>, i: int)
    requires
        0 <= i < prefs.len(),
        rank_in(prefs.take(i + 1), source) == i,
    ensures
        rank_in(prefs, source) == i,
    decreases prefs.len(),
{
    if prefs.len() > i + 1 {
        assert(prefs.drop_last().take(i + 1) =~= prefs.take(i + 1));
        lemma_rank_prefix(prefs.drop_last(), source, i);
    } else {
        assert(prefs.take(i + 1) =~= prefs);
    }
}

fn present_of(o: &Option<String>) -> (r: usize)
    ensures
        r == present(*o),
{
    match o {
        Some(s) => if s.as_str().unicode_len() > 0 { 1 } else { 0 },
        None => 0,
    }
}

/// How many of the fields of a record are filled in.
pub fn completeness_of(c: &Citation) -> (r: usize)
    ensures
        r == completeness(*c),
{
    let mut n: usize = 0;
    if c.id.as_str().unicode_len() > 0 { n = n + 1; }
    if c.extra_fields.len() > 0 { n = n + 1; }
    n = n + present_of(&c.source);
    if c.title.as_str().unicode_len() > 0 { n = n + 1; }
    if c.citation_type.len() > 0 { n = n + 1; }
    if c.authors.len() > 0 { n = n + 1; }
    n = n + present_of(&c.journal);
    n = n + present_of(&c.journal_abbr);
    if c.year.is_some() { n = n + 1; }
    n = n + present_of(&c.volume);
    n = n + present_of(&c.issue);
    n = n + present_of(&c.pages);
    if c.issn.len() > 0 { n = n + 1; }
    n = n + present_of(&c.doi);
    n = n + present_of(&c.pmid);
    n = n + present_of(&c.pmc_id);
    n = n + present_of(&c.abstract_text);
    if c.keywords.len() > 0 { n = n + 1; }
    if c.urls.len() > 0 { n = n + 1; }
    n = n + present_of(&c.language);
    if c.mesh_terms.len() > 0 { n = n + 1; }
    n = n + present_of(&c.publisher);
    n
}

/// The position of the representative among the records at `members`: a preferred source
/// first, then the most fields filled in, then the earliest.
pub fn select_best(cs: &[Citation], prefs: &Vec<String>, members: &Vec<usize>) -> (r: usize)
    requires
        members@.len() > 0,
        forall|p: int| 0 <= p < members@.len() ==> members@[p] < cs@.len(),
    ensures
        is_best(cs@, string_views(prefs@), members@, r as int),
        r == best_position(cs@, string_views(prefs@), members@),
{
    let ghost sv = string_views(prefs@);
    let mut best: usize = 0;
    let mut best_rank = source_rank_of(&cs[members[0]], prefs);
    let mut best_comp = completeness_of(&cs[members[0]]);
    let mut p: usize = 1;
    while p < members.len()
        invariant
            sv == string_views(prefs@),
            forall|q: int| 0 <= q < members@.len() ==> members@[q] < cs@.len(),
            1 <= p <= members@.len(),
            best < p,
            best_rank == source_rank(cs@[members@[best as int] as int], sv),
            best_comp == completeness(cs@[members@[best as int] as int]),
            is_best(cs@, sv, members@.take(p as int), best as int),
        decreases members@.len() - p,
    {
        let c = &cs[members[p]];
        let rk = source_rank_of(c, prefs);
        let cp = completeness_of(c);
        let ghost m = members@.take(p + 1);
        assert(m.take(p as int) =~= members@.take(p as int));
        if rk < best_rank || (rk == best_rank && cp > best_comp) {
            assert forall|q: int| 0 <= q < p implies #[trigger] better(
                cs@[m[p as int] as int],
                cs@[m[q] as int],
                sv,
            ) by {
                assert(m[q] == members@.take(p as int)[q]);
                if q < best {
                    assert(better(cs@[m[best as int] as int], cs@[m[q] as int], sv));
                } else if q > best {
                    assert(!better(cs@[m[q] as int], cs@[m[best as int] as int], sv));
                }
            }
            best = p;
            best_rank = rk;
            best_comp = cp;
        } else {
            assert forall|q: int| 0 <= q < best implies #[trigger] better(
                cs@[m[best as int] as int],
                cs@[m[q] as int],
                sv,
            ) by {
                assert(m[q] == members@.take(p as int)[q]);
            }
            assert forall|q: int| best < q < m.len() implies !#[trigger] better(
                cs@[m[q] as int],
                cs@[m[best as int] as int],
                sv,
            ) by {
                if q < p {
                    assert(m[q] == members@.take(p as int)[q]);
                }
            }
        }
        p = p + 1;
    }
    assert(members@.take(members@.len() as int) =~= members@);
    proof {
        lemma_best_unique(cs@, sv, members@, best as int, best_position(cs@, sv, members@));
    }
    best
}

} // verus!
