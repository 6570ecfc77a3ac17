//! Character-level text helpers: reading a string's characters, building a
//! string from characters, and collapsing whitespace.
use vstd::prelude::*;
use vstd::std_specs::iter::IteratorSpec;

verus! {

/// Whitespace in the sense of the renderer: space, newline or tab.
pub open spec fn is_ws(c: char) -> bool {
    c == ' ' || c == '\n' || c == '\t'
}

/// Text with every run of whitespace replaced by a single space.
pub open spec fn collapse_whitespace(s: Seq<char>) -> Seq<char>
    decreases s.len(),
{
    if s.len() == 0 {
        Seq::empty()
    } else {
        let prefix = s.drop_last();
        let c = s.last();
        if !is_ws(c) {
            collapse_whitespace(prefix).push(c)
        } else if prefix.len() > 0 && is_ws(prefix.last()) {
            collapse_whitespace(prefix)
        } else {
            collapse_whitespace(prefix).push(' ')
        }
    }
}

/// The characters of `s`, in order.
pub fn chars_of(s: &str) -> (r: Vec<char>)
    ensures
        r@ == s@,
{
    let mut out: Vec<char> = Vec::new();
    for c in it: s.chars()
        invariant
            it.seq() == s@,
            out@ == it.seq().take(it.index() as int),
    {
        out.push(c);
    }
    out
}

/// Relies on std's `FromIterator<char>` for `String`: the string holds the
/// characters in the order given.
#[verifier::external_body]
pub(crate) fn string_from_chars(cs: &Vec<char>) -> (r: String)
    ensures
        r@ == cs@,
{
    cs.iter().collect()
}

/// `cs` with every run of whitespace replaced by a single space.
pub fn collapse_chars(cs: &Vec<char>) -> (r: Vec<char>)
    ensures
        r@ == collapse_whitespace(cs@),
{
    let mut out: Vec<char> = Vec::new();
    let mut i: usize = 0;
    while i < cs.len()
        invariant
            i <= cs.len(),
            out@ == collapse_whitespace(cs@.take(i as int)),
        decreases cs.len() - i,
    {
        let c = cs[i];
        assert(cs@.take(i as int + 1).drop_last() == cs@.take(i as int));
        if !(c == ' ' || c == '\n' || c == '\t') {
            out.push(c);
        } else if i > 0 && (cs[i - 1] == ' ' || cs[i - 1] == '\n' || cs[i - 1] == '\t') {
        } else {
            out.push(' ');
        }
        i = i + 1;
    }
    assert(cs@.take(cs.len() as int) == cs@);
    out
}

/// The display text of a raw text run: unchanged where whitespace is
/// preserved, and with each whitespace run collapsed to one space elsewhere.
pub fn normalize_whitespace(text: &str, preserve: bool) -> (r: String)
    ensures
        preserve ==> r@ == text@,
        !preserve ==> r@ == collapse_whitespace(text@),
{
    if preserve {
        text.to_owned()
    } else {
        let cs = chars_of(text);
        let collapsed = collapse_chars(&cs);
        string_from_chars(&collapsed)
    }
}

} // verus!
