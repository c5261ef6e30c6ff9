//! String operations that the index relies on, with what std documents of them.
use vstd::prelude::*;

verus! {

/// What `str::to_lowercase` makes of a string (full Unicode lowercase mapping).
pub uninterp spec fn lower_of(s: Seq<char>) -> Seq<char>;

/// A character with the Unicode `White_Space` property.
pub open spec fn is_white_space(c: char) -> bool {
    let u = c as u32;
    ||| 0x09 <= u <= 0x0D
    ||| u == 0x20
    ||| u == 0x85
    ||| u == 0xA0
    ||| u == 0x1680
    ||| 0x2000 <= u <= 0x200A
    ||| u == 0x2028
    ||| u == 0x2029
    ||| u == 0x202F
    ||| u == 0x205F
    ||| u == 0x3000
}

/// A string without its trailing white space.
pub open spec fn trimmed_end(s: Seq<char>) -> Seq<char>
    decreases s.len(),
{
    if s.len() > 0 && is_white_space(s.last()) {
        trimmed_end(s.drop_last())
    } else {
        s
    }
}

/// `key` occurs in `s` as a contiguous run of characters.
pub open spec fn contains_seq(s: Seq<char>, key: Seq<char>) -> bool {
    exists|i: int| 0 <= i && i + key.len() <= s.len() && #[trigger] s.subrange(i, i + key.len()) == key
}

/// The search key of a raw query: trailing white space removed, then lowercase.
pub open spec fn query_key(q: Seq<char>) -> Seq<char> {
    lower_of(trimmed_end(q))
}

/// Lexicographic order of two strings by code point (the order of `char`).
pub open spec fn lex_cmp(a: Seq<char>, b: Seq<char>) -> core::cmp::Ordering
    decreases a.len(),
{
    if a.len() == 0 {
        if b.len() == 0 {
            core::cmp::Ordering::Equal
        } else {
            core::cmp::Ordering::Less
        }
    } else if b.len() == 0 {
        core::cmp::Ordering::Greater
    } else if a[0] < b[0] {
        core::cmp::Ordering::Less
    } else if a[0] > b[0] {
        core::cmp::Ordering::Greater
    } else {
        lex_cmp(a.drop_first(), b.drop_first())
    }
}

/// The opposite of an ordering.
pub open spec fn flip(o: core::cmp::Ordering) -> core::cmp::Ordering {
    match o {
        core::cmp::Ordering::Less => core::cmp::Ordering::Greater,
        core::cmp::Ordering::Greater => core::cmp::Ordering::Less,
        core::cmp::Ordering::Equal => core::cmp::Ordering::Equal,
    }
}

/// Swapping the operands of `lex_cmp` flips the result.
pub proof fn lemma_lex_flip(a: Seq<char>, b: Seq<char>)
    ensures
        lex_cmp(a, b) == flip(lex_cmp(b, a)),
    decreases a.len(),
{
    if a.len() > 0 && b.len() > 0 && a[0] == b[0] {
        lemma_lex_flip(a.drop_first(), b.drop_first());
    }
}

/// Strings that `lex_cmp` finds equal are equal.
pub proof fn lemma_lex_equal(a: Seq<char>, b: Seq<char>)
    ensures
        lex_cmp(a, b) == core::cmp::Ordering::Equal ==> a == b,
    decreases a.len(),
{
    if a.len() > 0 && b.len() > 0 && a[0] == b[0] {
        lemma_lex_equal(a.drop_first(), b.drop_first());
        if lex_cmp(a, b) == core::cmp::Ordering::Equal {
            assert(a =~= seq![a[0]] + a.drop_first());
            assert(b =~= seq![b[0]] + b.drop_first());
        }
    }
}

/// `lex_cmp` is transitive for each outcome.
pub proof fn lemma_lex_trans(a: Seq<char>, b: Seq<char>, c: Seq<char>)
    requires
        lex_cmp(a, b) == lex_cmp(b, c),
    ensures
        lex_cmp(a, c) == lex_cmp(a, b),
    decreases a.len(),
{
    if a.len() > 0 && b.len() > 0 && c.len() > 0 && a[0] == b[0] && b[0] == c[0] {
        lemma_lex_trans(a.drop_first(), b.drop_first(), c.drop_first());
    }
}

/// Relies on `str::to_lowercase`: the result depends on the characters alone,
/// and the empty string stays empty.
#[verifier::external_body]
pub(crate) fn to_lowercase(s: &str) -> (r: String)
    ensures
        r@ == lower_of(s@),
        s@.len() == 0 ==> r@.len() == 0,
{
    s.to_lowercase()
}

/// Relies on `str::trim_end`: the trailing characters with the Unicode
/// `White_Space` property (`char::is_whitespace`) are removed.
#[verifier::external_body]
pub(crate) fn trim_end(s: &str) -> (r: &str)
    ensures
        r@ == trimmed_end(s@),
{
    s.trim_end()
}

/// Relies on `str::contains` with a string pattern: whether `key` occurs in `s`.
/// A match of UTF-8 bytes starts and ends on character boundaries, so it is a
/// match of characters.
#[verifier::external_body]
pub(crate) fn contains(s: &str, key: &str) -> (r: bool)
    ensures
        r == contains_seq(s@, key@),
{
    s.contains(key)
}

/// Relies on `Ord for str`: strings compare by their UTF-8 bytes, which orders
/// them as their code points do.
#[verifier::external_body]
pub(crate) fn compare_str(a: &str, b: &str) -> (r: core::cmp::Ordering)
    ensures
        r == lex_cmp(a@, b@),
{
    a.cmp(b)
}

} // verus!
