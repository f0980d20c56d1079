use vstd::prelude::*;
use vstd::string::StrSliceExecFns;

verus! {

/// Whether `c` is one of the Latin-1 letters `lo..=hi`.
pub open spec fn in_range(c: char, lo: u32, hi: u32) -> bool {
    lo <= (c as u32) && (c as u32) <= hi
}

/// Lower-cases ASCII letters and folds the accented Latin-1 letters to their base letter;
/// every other character is left as it is.
pub open spec fn fold_char(c: char) -> char {
    if in_range(c, 0x41, 0x5a) {
        (((c as u32) + 32) as u8) as char
    } else if in_range(c, 0xc0, 0xc5) || in_range(c, 0xe0, 0xe5) {
        'a'
    } else if c as u32 == 0xc7 || c as u32 == 0xe7 {
        'c'
    } else if in_range(c, 0xc8, 0xcb) || in_range(c, 0xe8, 0xeb) {
        'e'
    } else if in_range(c, 0xcc, 0xcf) || in_range(c, 0xec, 0xef) {
        'i'
    } else if c as u32 == 0xd1 || c as u32 == 0xf1 {
        'n'
    } else if in_range(c, 0xd2, 0xd6) || c as u32 == 0xd8 || in_range(c, 0xf2, 0xf6)
        || c as u32 == 0xf8 {
        'o'
    } else if in_range(c, 0xd9, 0xdc) || in_range(c, 0xf9, 0xfc) {
        'u'
    } else if c as u32 == 0xdd || c as u32 == 0xfd || c as u32 == 0xff {
        'y'
    } else {
        c
    }
}

/// A character that survives normalisation: a lower-case ASCII letter, a digit or a hyphen.
pub open spec fn is_word_char(c: char) -> bool {
    in_range(c, 0x61, 0x7a) || in_range(c, 0x30, 0x39) || c == '-'
}

/// A character that separates words.
pub open spec fn is_space(c: char) -> bool {
    c == ' ' || c == '\t' || c == '\n' || c == '\r'
}

/// Normalisation read from left to right: the text produced so far, and whether a
/// separator is pending before the next word character.
pub open spec fn norm_state(s: Seq<char>) -> (Seq<char>, bool)
    decreases s.len(),
{
    if s.len() == 0 {
        (Seq::empty(), false)
    } else {
        let (out, pending) = norm_state(s.drop_last());
        let c = fold_char(s.last());
        if is_word_char(c) {
            if pending && out.len() > 0 {
                (out.push(' ').push(c), false)
            } else {
                (out.push(c), false)
            }
        } else if is_space(c) {
            (out, true)
        } else {
            (out, pending)
        }
    }
}

/// The normal form of a text: folded to lower-case base letters, punctuation other than
/// hyphens removed, and words separated by exactly one space with none at either end.
pub open spec fn normalized(s: Seq<char>) -> Seq<char> {
    norm_state(s).0
}

pub fn fold(c: char) -> (r: char)
    ensures
        r == fold_char(c),
{
    let u = c as u32;
    if 0x41 <= u && u <= 0x5a {
        ((u + 32) as u8) as char
    } else if (0xc0 <= u && u <= 0xc5) || (0xe0 <= u && u <= 0xe5) {
        'a'
    } else if u == 0xc7 || u == 0xe7 {
        'c'
    } else if (0xc8 <= u && u <= 0xcb) || (0xe8 <= u && u <= 0xeb) {
        'e'
    } else if (0xcc <= u && u <= 0xcf) || (0xec <= u && u <= 0xef) {
        'i'
    } else if u == 0xd1 || u == 0xf1 {
        'n'
    } else if (0xd2 <= u && u <= 0xd6) || u == 0xd8 || (0xf2 <= u && u <= 0xf6) || u == 0xf8 {
        'o'
    } else if (0xd9 <= u && u <= 0xdc) || (0xf9 <= u && u <= 0xfc) {
        'u'
    } else if u == 0xdd || u == 0xfd || u == 0xff {
        'y'
    } else {
        c
    }
}

fn word_char(c: char) -> (r: bool)
    ensures
        r == is_word_char(c),
{
    let u = c as u32;
    (0x61 <= u && u <= 0x7a) || (0x30 <= u && u <= 0x39) || c == '-'
}

fn space_char(c: char) -> (r: bool)
    ensures
        r == is_space(c),
{
    c == ' ' || c == '\t' || c == '\n' || c == '\r'
}

/// The characters of `s`, in order.
pub fn chars_of(s: &str) -> (r: Vec<char>)
    ensures
        r@ == s@,
{
    let n = s.unicode_len();
    let mut v: Vec<char> = Vec::new();
    let mut i: usize = 0;
    while i < n
        invariant
            n == s@.len(),
            i <= n,
            v@ == s@.take(i as int),
        decreases n - i,
    {
        v.push(s.get_char(i));
        i = i + 1;
        assert(v@ =~= s@.take(i as int));
    }
    assert(v@ =~= s@);
    v
}

/// Relies on `FromIterator<char>` for `String`: the string holds the characters in order.
#[verifier::external_body]
pub(crate) fn string_from_chars(v: &Vec<char>) -> (r: String)
    ensures
        r@ == v@,
{
    v.iter().collect()
}

/// The normal form of a sequence of characters.
pub fn normalize_chars(s: &Vec<char>) -> (r: Vec<char>)
    ensures
        r@ == normalized(s@),
{
    let mut out: Vec<char> = Vec::new();
    let mut pending = false;
    let mut i: usize = 0;
    while i < s.len()
        invariant
            i <= s@.len(),
            (out@, pending) == norm_state(s@.take(i as int)),
        decreases s@.len() - i,
    {
        let c = fold(s[i]);
        proof {
            assert(s@.take(i + 1).drop_last() =~= s@.take(i as int));
        }
        if word_char(c) {
            if pending && out.len() > 0 {
                out.push(' ');
            }
            out.push(c);
            pending = false;
        } else if space_char(c) {
            pending = true;
        }
        i = i + 1;
    }
    assert(s@.take(s@.len() as int) =~= s@);
    out
}

/// The normal form of a title or a name.
pub fn normalize(s: &str) -> (r: String)
    ensures
        r@ == normalized(s@),
{
    let v = chars_of(s);
    string_from_chars(&normalize_chars(&v))
}

/// The year used for comparison: the record's own, unchanged.
pub fn normalize_year(year: Option<i32>) -> (r: Option<i32>)
    ensures
        r == year,
{
    year
}

proof fn lemma_fold_word(c: char)
    requires
        is_word_char(c) || is_space(c),
    ensures
        fold_char(c) == c,
{
}

/// Every character of a normal form is a word character or a single separating space, and
/// reading the normal form again gives it back with no separator pending.
proof fn lemma_norm_state_fixed(s: Seq<char>)
    ensures
        norm_state(normalized(s)) == (normalized(s), false),
        normalized(s).len() > 0 ==> is_word_char(normalized(s).last()),
    decreases s.len(),
{
    if s.len() > 0 {
        let p = s.drop_last();
        lemma_norm_state_fixed(p);
        let (out, pending) = norm_state(p);
        let c = fold_char(s.last());
        if is_word_char(c) {
            lemma_fold_word(c);
            if pending && out.len() > 0 {
                let t = out.push(' ');
                let u = t.push(c);
                assert(u.drop_last() =~= t);
                assert(t.drop_last() =~= out);
                lemma_fold_word(' ');
                assert(t.last() == ' ');
                assert(norm_state(t) == (out, true));
                assert(u.last() == c);
                assert(norm_state(u) == (u, false));
            } else {
                let u = out.push(c);
                assert(u.drop_last() =~= out);
                assert(u.last() == c);
                assert(norm_state(u) == (u, false));
            }
        }
    }
}

/// Normalising a text twice gives the same result as normalising it once.
pub proof fn lemma_normalize_idempotent(s: Seq<char>)
    ensures
        normalized(normalized(s)) == normalized(s),
{
    lemma_norm_state_fixed(s);
}

} // verus!
