use vstd::prelude::*;
use crate::edit::{edit_distance, edit_ratio, lemma_edit_ratio, lev};
use crate::model::{Author, Citation};
use crate::normalize::{
    chars_of, fold, fold_char, is_space, normalize_chars, normalize_year, normalized,
};
use crate::tokens::{
    jaccard, jaccard_index, lemma_jaccard, shared_count, split_words, views, words,
};

verus! {

/// The weight of the title in the composite score.
pub const TITLE_WEIGHT: u64 = 50;

/// The weight of the authors in the composite score.
pub const AUTHOR_WEIGHT: u64 = 25;

/// The weight of the year in the composite score.
pub const YEAR_WEIGHT: u64 = 15;

/// The weight of the journal in the composite score.
pub const JOURNAL_WEIGHT: u64 = 10;

/// The composite score, in thousandths, from which two records count as duplicates.
pub const DUPLICATE_THRESHOLD: u64 = 800;

/// The outcome of comparing two records.
pub struct ScoreResult {
    /// The weighted similarity, in thousandths.
    pub composite: u64,
    /// Whether the two records are judged to describe one work.
    pub is_duplicate: bool,
}

/// An identifier compared as written, but for case and white space.
pub open spec fn id_key(s: Seq<char>) -> Seq<char>
    decreases s.len(),
{
    if s.len() == 0 {
        Seq::empty()
    } else if is_space(s.last()) {
        id_key(s.drop_last())
    } else {
        id_key(s.drop_last()).push(fold_char(s.last()))
    }
}

/// The identifier key of an optional identifier; empty when it is absent.
pub open spec fn opt_id_key(o: Option<String>) -> Seq<char> {
    match o {
        Some(s) => id_key(s@),
        None => Seq::empty(),
    }
}

/// Whether an optional identifier is present and not the empty text.
pub open spec fn given(o: Option<String>) -> bool {
    o matches Some(s) && s@.len() > 0
}

/// Whether the two records both carry a non-empty identifier of one kind, DOI or PubMed
/// identifier, and the two agree but for case and white space.
pub open spec fn identifier_match(a: Citation, b: Citation) -> bool {
    (given(a.doi) && given(b.doi) && opt_id_key(a.doi) == opt_id_key(b.doi)) || (given(a.pmid)
        && given(b.pmid) && opt_id_key(a.pmid) == opt_id_key(b.pmid))
}

/// The key of an author: the normalised family name, then the first letter of the
/// normalised given name, if any.
pub open spec fn author_key(a: Author) -> Seq<char> {
    let f = normalized(a.family_name@);
    let g = normalized(a.given_name@);
    if g.len() > 0 {
        f.push(' ').push(g[0])
    } else {
        f
    }
}

/// The keys of the authors of a record, in order.
pub open spec fn author_keys(c: Citation) -> Seq<Seq<char>> {
    c.authors@.map_values(|a: Author| author_key(a))
}

/// The normal form of an optional text; empty when it is absent.
pub open spec fn opt_normalized(o: Option<String>) -> Seq<char> {
    match o {
        Some(s) => normalized(s@),
        None => Seq::empty(),
    }
}

/// The non-empty normalised journal name and abbreviation of a record.
pub open spec fn journal_names(c: Citation) -> Seq<Seq<char>> {
    let j = opt_normalized(c.journal);
    let a = opt_normalized(c.journal_abbr);
    let s1 = if j.len() > 0 {
        seq![j]
    } else {
        Seq::empty()
    };
    if a.len() > 0 {
        s1.push(a)
    } else {
        s1
    }
}

/// The similarity of two normalised titles: the better of word-set overlap and edit
/// similarity.
pub open spec fn title_similarity(ta: Seq<char>, tb: Seq<char>) -> nat {
    let j = jaccard(words(ta), words(tb));
    let e = edit_ratio(ta, tb);
    if j >= e {
        j
    } else {
        e
    }
}

/// The year similarity: full for the same year, half for adjacent years, none otherwise.
pub open spec fn year_similarity(ya: i32, yb: i32) -> nat {
    let d = if ya >= yb {
        ya - yb
    } else {
        yb - ya
    };
    if d == 0 {
        1000
    } else if d == 1 {
        500
    } else {
        0
    }
}

/// A field's share of the composite score: the weight counted, and the weighted similarity.
pub open spec fn title_part(a: Citation, b: Citation) -> (nat, nat) {
    let ta = normalized(a.title@);
    let tb = normalized(b.title@);
    if ta.len() > 0 && tb.len() > 0 {
        (TITLE_WEIGHT as nat, (TITLE_WEIGHT * title_similarity(ta, tb)) as nat)
    } else if ta.len() == 0 && tb.len() == 0 {
        (TITLE_WEIGHT as nat, 0)
    } else {
        (0, 0)
    }
}

/// The share of the authors: counted where both records name authors.
pub open spec fn author_part(a: Citation, b: Citation) -> (nat, nat) {
    if a.authors@.len() > 0 && b.authors@.len() > 0 {
        (AUTHOR_WEIGHT as nat, (AUTHOR_WEIGHT * jaccard(author_keys(a), author_keys(b))) as nat)
    } else {
        (0, 0)
    }
}

/// The share of the year: counted where both records have one.
pub open spec fn year_part(a: Citation, b: Citation) -> (nat, nat) {
    match (a.year, b.year) {
        (Some(ya), Some(yb)) => (YEAR_WEIGHT as nat, (YEAR_WEIGHT * year_similarity(ya, yb)) as nat),
        _ => (0, 0),
    }
}

/// Whether `a` begins `b`.
pub open spec fn starts(a: Seq<char>, b: Seq<char>) -> bool {
    a.len() <= b.len() && b.take(a.len() as int) == a
}

/// Whether each word of `ab` begins a word of `full`, in order, where words of `full` may
/// be passed over.
pub open spec fn abbreviates_words(ab: Seq<Seq<char>>, full: Seq<Seq<char>>) -> bool
    decreases ab.len() + full.len(),
{
    if ab.len() == 0 {
        true
    } else if full.len() == 0 {
        false
    } else if starts(ab.last(), full.last()) {
        abbreviates_words(ab.drop_last(), full.drop_last())
    } else {
        abbreviates_words(ab, full.drop_last())
    }
}

/// Whether the normalised name `x` abbreviates the normalised name `y`: the first word of
/// `x` begins the first word of `y`, and its other words begin later words of `y`, in order
/// ("j biol chem" and "journal of biological chemistry").
pub open spec fn abbreviates(x: Seq<char>, y: Seq<char>) -> bool {
    let ab = words(x);
    let full = words(y);
    ab.len() > 0 && full.len() > 0 && starts(ab[0], full[0]) && abbreviates_words(
        ab.subrange(1, ab.len() as int),
        full.subrange(1, full.len() as int),
    )
}

/// Whether two normalised journal names are equal, or one abbreviates the other.
pub open spec fn names_match(x: Seq<char>, y: Seq<char>) -> bool {
    x == y || abbreviates(x, y) || abbreviates(y, x)
}

/// Whether a name of one record matches a name of the other.
pub open spec fn journal_match(ja: Seq<Seq<char>>, jb: Seq<Seq<char>>) -> bool {
    exists|i: int, j: int| 0 <= i < ja.len() && 0 <= j < jb.len() && #[trigger] names_match(ja[i], jb[j])
}

/// The share of the journal: counted where both records name one; full where a name or
/// abbreviation of one equals or abbreviates a name or abbreviation of the other.
pub open spec fn journal_part(a: Citation, b: Citation) -> (nat, nat) {
    let ja = journal_names(a);
    let jb = journal_names(b);
    if ja.len() > 0 && jb.len() > 0 {
        if journal_match(ja, jb) {
            (JOURNAL_WEIGHT as nat, (JOURNAL_WEIGHT * 1000) as nat)
        } else {
            (JOURNAL_WEIGHT as nat, 0)
        }
    } else {
        (0, 0)
    }
}

/// The composite score of two records, in thousandths: one thousand on an identifier
/// match, else the weighted mean of the similarities of the fields present on both sides
/// (two blank titles count as a title with no similarity), and zero where nothing compares.
pub open spec fn composite(a: Citation, b: Citation) -> nat {
    if identifier_match(a, b) {
        1000
    } else {
        let w = title_part(a, b).0 + author_part(a, b).0 + year_part(a, b).0 + journal_part(
            a,
            b,
        ).0;
        let s = title_part(a, b).1 + author_part(a, b).1 + year_part(a, b).1 + journal_part(
            a,
            b,
        ).1;
        if w == 0 {
            0
        } else {
            s / w
        }
    }
}

/// Whether two records are judged to describe one work.
pub open spec fn is_duplicate(a: Citation, b: Citation) -> bool {
    identifier_match(a, b) || composite(a, b) >= DUPLICATE_THRESHOLD
}


fn id_key_of(s: &str) -> (r: Vec<char>)
    ensures
        r@ == id_key(s@),
{
    let v = chars_of(s);
    let mut out: Vec<char> = Vec::new();
    let mut i: usize = 0;
    while i < v.len()
        invariant
            v@ == s@,
            i <= v@.len(),
            out@ == id_key(v@.take(i as int)),
        decreases v@.len() - i,
    {
        proof {
            assert(v@.take(i + 1).drop_last() =~= v@.take(i as int));
        }
        let c = v[i];
        if !(c == ' ' || c == '\t' || c == '\n' || c == '\r') {
            out.push(fold(c));
        }
        i = i + 1;
    }
    assert(v@.take(v@.len() as int) =~= v@);
    out
}

fn opt_id_key_of(o: &Option<String>) -> (r: Vec<char>)
    ensures
        r@ == opt_id_key(*o),
{
    match o {
        Some(s) => id_key_of(s.as_str()),
        None => Vec::new(),
    }
}

fn normalized_of(s: &String) -> (r: Vec<char>)
    ensures
        r@ == normalized(s@),
{
    normalize_chars(&chars_of(s.as_str()))
}

fn opt_normalized_of(o: &Option<String>) -> (r: Vec<char>)
    ensures
        r@ == opt_normalized(*o),
{
    match o {
        Some(s) => normalized_of(s),
        None => Vec::new(),
    }
}

fn given_of(o: &Option<String>) -> (r: bool)
    ensures
        r == given(*o),
{
    match o {
        Some(s) => s.as_str().unicode_len() > 0,
        None => false,
    }
}

/// Whether the two records share a non-empty DOI or PubMed identifier.
pub fn identifiers_match(a: &Citation, b: &Citation) -> (r: bool)
    ensures
        r == identifier_match(*a, *b),
{
    let da = opt_id_key_of(&a.doi);
    let db = opt_id_key_of(&b.doi);
    if given_of(&a.doi) && given_of(&b.doi) && crate::tokens::chars_equal(&da, &db) {
        return true;
    }
    let pa = opt_id_key_of(&a.pmid);
    let pb = opt_id_key_of(&b.pmid);
    given_of(&a.pmid) && given_of(&b.pmid) && crate::tokens::chars_equal(&pa, &pb)
}

/// The matching key of an author.
pub fn author_key_of(a: &Author) -> (r: Vec<char>)
    ensures
        r@ == author_key(*a),
{
    let mut f = normalized_of(&a.family_name);
    let g = normalized_of(&a.given_name);
    if g.len() > 0 {
        f.push(' ');
        f.push(g[0]);
    }
    f
}

fn author_keys_of(c: &Citation) -> (r: Vec<Vec<char>>)
    ensures
        views(r@) == author_keys(*c),
{
    let mut out: Vec<Vec<char>> = Vec::new();
    let mut i: usize = 0;
    while i < c.authors.len()
        invariant
            i <= c.authors@.len(),
            views(out@) == author_keys(*c).take(i as int),
        decreases c.authors@.len() - i,
    {
        let k = author_key_of(&c.authors[i]);
        proof {
            assert(views(out@.push(k)) =~= views(out@).push(k@));
            assert(author_keys(*c).take(i + 1) =~= author_keys(*c).take(i as int).push(k@));
        }
        out.push(k);
        i = i + 1;
    }
    assert(author_keys(*c).take(c.authors@.len() as int) =~= author_keys(*c));
    out
}

fn journal_names_of(c: &Citation) -> (r: Vec<Vec<char>>)
    ensures
        views(r@) == journal_names(*c),
{
    let j = opt_normalized_of(&c.journal);
    let a = opt_normalized_of(&c.journal_abbr);
    let mut out: Vec<Vec<char>> = Vec::new();
    if j.len() > 0 {
        proof {
            assert(views(out@.push(j)) =~= seq![j@]);
        }
        out.push(j);
    }
    let ghost before = out@;
    if a.len() > 0 {
        proof {
            assert(views(out@.push(a)) =~= views(out@).push(a@));
        }
        out.push(a);
    }
    proof {
        if j@.len() == 0 {
            assert(views(before) =~= Seq::<Seq<char>>::empty());
        }
    }
    out
}

fn title_similarity_of(ta: &Vec<char>, tb: &Vec<char>) -> (r: u64)
    ensures
        r == title_similarity(ta@, tb@),
        r <= 1000,
{
    let wa = split_words(ta);
    let wb = split_words(tb);
    let j = jaccard_index(&wa, &wb);
    let d = edit_distance(ta, tb);
    let m: u128 = if ta.len() >= tb.len() { ta.len() as u128 } else { tb.len() as u128 };
    proof {
        lemma_edit_ratio(ta@, tb@);
    }
    let e: u64 = if m == 0 || d >= m {
        0
    } else {
        let q: u128 = (m - d) * 1000 / m;
        proof {
            assert(q == edit_ratio(ta@, tb@));
        }
        q as u64
    };
    if j >= e {
        j
    } else {
        e
    }
}

fn year_similarity_of(ya: i32, yb: i32) -> (r: u64)
    ensures
        r == year_similarity(ya, yb),
{
    let d: i64 = if ya >= yb { ya as i64 - yb as i64 } else { yb as i64 - ya as i64 };
    if d == 0 {
        1000
    } else if d == 1 {
        500
    } else {
        0
    }
}

fn starts_with(a: &Vec<char>, b: &Vec<char>) -> (r: bool)
    ensures
        r == starts(a@, b@),
{
    if a.len() > b.len() {
        return false;
    }
    let mut i: usize = 0;
    while i < a.len()
        invariant
            a@.len() <= b@.len(),
            i <= a@.len(),
            a@.take(i as int) == b@.take(i as int),
        decreases a@.len() - i,
    {
        if a[i] != b[i] {
            assert(b@.take(a@.len() as int)[i as int] != a@[i as int]);
            return false;
        }
        assert(a@.take(i + 1) =~= a@.take(i as int).push(a@[i as int]));
        assert(b@.take(i + 1) =~= b@.take(i as int).push(b@[i as int]));
        i = i + 1;
    }
    assert(a@.take(a@.len() as int) =~= a@);
    true
}

fn abbreviates_rest(ab: &Vec<Vec<char>>, full: &Vec<Vec<char>>, i: usize, j: usize) -> (r: bool)
    requires
        1 <= i <= ab@.len(),
        1 <= j <= full@.len(),
    ensures
        r == abbreviates_words(views(ab@).subrange(1, i as int), views(full@).subrange(1, j as int)),
    decreases i + j,
{
    let ghost sa = views(ab@).subrange(1, i as int);
    let ghost sf = views(full@).subrange(1, j as int);
    if i == 1 {
        return true;
    }
    if j == 1 {
        return false;
    }
    proof {
        assert(sa.last() == ab@[i - 1]@);
        assert(sf.last() == full@[j - 1]@);
        assert(sa.drop_last() =~= views(ab@).subrange(1, i - 1));
        assert(sf.drop_last() =~= views(full@).subrange(1, j - 1));
    }
    if starts_with(&ab[i - 1], &full[j - 1]) {
        abbreviates_rest(ab, full, i - 1, j - 1)
    } else {
        abbreviates_rest(ab, full, i, j - 1)
    }
}

fn abbreviates_of(x: &Vec<char>, y: &Vec<char>) -> (r: bool)
    ensures
        r == abbreviates(x@, y@),
{
    let ab = split_words(x);
    let full = split_words(y);
    if ab.len() == 0 || full.len() == 0 {
        return false;
    }
    if !starts_with(&ab[0], &full[0]) {
        return false;
    }
    abbreviates_rest(&ab, &full, ab.len(), full.len())
}

fn journals_match(ja: &Vec<Vec<char>>, jb: &Vec<Vec<char>>) -> (r: bool)
    ensures
        r == journal_match(views(ja@), views(jb@)),
{
    let mut i: usize = 0;
    while i < ja.len()
        invariant
            i <= ja@.len(),
            forall|p: int, q: int|
                0 <= p < i && 0 <= q < jb@.len() ==> !#[trigger] names_match(
                    views(ja@)[p],
                    views(jb@)[q],
                ),
        decreases ja@.len() - i,
    {
        let mut j: usize = 0;
        while j < jb.len()
            invariant
                i < ja@.len(),
                j <= jb@.len(),
                forall|p: int, q: int|
                    0 <= p < i && 0 <= q < jb@.len() ==> !#[trigger] names_match(
                        views(ja@)[p],
                        views(jb@)[q],
                    ),
                forall|q: int| 0 <= q < j ==> !#[trigger] names_match(views(ja@)[i as int], views(jb@)[q]),
            decreases jb@.len() - j,
        {
            let x = &ja[i];
            let y = &jb[j];
            if crate::tokens::chars_equal(x, y) || abbreviates_of(x, y) || abbreviates_of(y, x) {
                assert(names_match(views(ja@)[i as int], views(jb@)[j as int]));
                return true;
            }
            j = j + 1;
        }
        i = i + 1;
    }
    false
}

/// Compares two records: the composite score and whether they count as duplicates.
pub fn score(a: &Citation, b: &Citation) -> (r: ScoreResult)
    ensures
        r.composite == composite(*a, *b),
        r.is_duplicate == is_duplicate(*a, *b),
        r.composite <= 1000,
{
    if identifiers_match(a, b) {
        return ScoreResult { composite: 1000, is_duplicate: true };
    }
    let mut w: u64 = 0;
    let mut s: u64 = 0;
    let ta = normalized_of(&a.title);
    let tb = normalized_of(&b.title);
    if ta.len() > 0 && tb.len() > 0 {
        w = TITLE_WEIGHT;
        s = TITLE_WEIGHT * title_similarity_of(&ta, &tb);
    } else if ta.len() == 0 && tb.len() == 0 {
        w = TITLE_WEIGHT;
    }
    assert(w == title_part(*a, *b).0 && s == title_part(*a, *b).1);
    if a.authors.len() > 0 && b.authors.len() > 0 {
        let ka = author_keys_of(a);
        let kb = author_keys_of(b);
        let j = jaccard_index(&ka, &kb);
        w = w + AUTHOR_WEIGHT;
        s = s + AUTHOR_WEIGHT * j;
    }
    match (normalize_year(a.year), normalize_year(b.year)) {
        (Some(ya), Some(yb)) => {
            w = w + YEAR_WEIGHT;
            s = s + YEAR_WEIGHT * year_similarity_of(ya, yb);
        },
        _ => {},
    }
    let ja = journal_names_of(a);
    let jb = journal_names_of(b);
    if ja.len() > 0 && jb.len() > 0 {
        w = w + JOURNAL_WEIGHT;
        if journals_match(&ja, &jb) {
            s = s + JOURNAL_WEIGHT * 1000;
        }
    }
    let c = if w == 0 {
        0
    } else {
        s / w
    };
    assert(c <= 1000) by (nonlinear_arith)
        requires
            s <= w * 1000,
            w == 0 ==> c == 0,
            w > 0 ==> c == s / w,
    ;
    ScoreResult { composite: c, is_duplicate: c >= DUPLICATE_THRESHOLD }
}

proof fn lemma_journal_match_symmetric(ja: Seq<Seq<char>>, jb: Seq<Seq<char>>)
    ensures
        journal_match(ja, jb) == journal_match(jb, ja),
{
    if journal_match(ja, jb) {
        let (i, j) = choose|i: int, j: int| 0 <= i < ja.len() && 0 <= j < jb.len() && #[trigger] names_match(ja[i], jb[j]);
        assert(names_match(jb[j], ja[i]));
    }
    if journal_match(jb, ja) {
        let (j, i) = choose|j: int, i: int| 0 <= j < jb.len() && 0 <= i < ja.len() && #[trigger] names_match(jb[j], ja[i]);
        assert(names_match(ja[i], jb[j]));
    }
}

/// Comparing two records gives the same outcome in either order.
pub proof fn lemma_score_symmetric(a: Citation, b: Citation)
    ensures
        composite(a, b) == composite(b, a),
        is_duplicate(a, b) == is_duplicate(b, a),
{
    let ta = normalized(a.title@);
    let tb = normalized(b.title@);
    lemma_jaccard(words(ta), words(tb));
    lemma_edit_ratio(ta, tb);
    lemma_jaccard(author_keys(a), author_keys(b));
    lemma_jaccard(journal_names(a), journal_names(b));
    lemma_journal_match_symmetric(journal_names(a), journal_names(b));
    assert(title_part(a, b) == title_part(b, a));
    assert(author_part(a, b) == author_part(b, a));
    assert(year_part(a, b) == year_part(b, a));
    assert(journal_part(a, b) == journal_part(b, a));
}


/// Two records with blank titles, no author in common, no year and no shared identifier
/// are never judged duplicates.
pub proof fn lemma_blank_records_differ(a: Citation, b: Citation)
    requires
        a.title@.len() == 0,
        b.title@.len() == 0,
        shared_count(author_keys(a), author_keys(b)) == 0,
        a.year is None,
        b.year is None,
        !identifier_match(a, b),
    ensures
        !is_duplicate(a, b),
{
    assert(a.title@ =~= Seq::<char>::empty());
    assert(b.title@ =~= Seq::<char>::empty());
    assert(title_part(a, b) == (50nat, 0nat));
    assert(jaccard(author_keys(a), author_keys(b)) == 0);
    let w = title_part(a, b).0 + author_part(a, b).0 + year_part(a, b).0 + journal_part(a, b).0;
    let s = title_part(a, b).1 + author_part(a, b).1 + year_part(a, b).1 + journal_part(a, b).1;
    assert(w >= 50 && s <= 10000);
    assert(s / w < 800) by (nonlinear_arith)
        requires
            w >= 50,
            s <= 10000,
    ;
}

} // verus!
