//! The list of feeds to fetch: one URL per line, surrounding whitespace
//! ignored, blank lines skipped.
use vstd::prelude::*;
use crate::render::{lemma_pieces_len, pieces};
use crate::text::{chars_of, string_from_chars};

verus! {

/// `s` without its leading and trailing whitespace, as `str::trim` gives it.
pub uninterp spec fn trimmed(s: Seq<char>) -> Seq<char>;

/// Relies on `str::trim`: the text without leading and trailing Unicode
/// whitespace, a function of the text alone.
#[verifier::external_body]
fn trim_text(s: &str) -> (r: String)
    ensures
        r@ == trimmed(s@),
{
    s.trim().to_string()
}

/// The non-empty texts of `ls`, in order.
pub open spec fn non_empty(ls: Seq<Seq<char>>) -> Seq<Seq<char>>
    decreases ls.len(),
{
    if ls.len() == 0 {
        Seq::empty()
    } else if ls.last().len() > 0 {
        non_empty(ls.drop_last()).push(ls.last())
    } else {
        non_empty(ls.drop_last())
    }
}

pub open spec fn strings_view(v: Seq<String>) -> Seq<Seq<char>> {
    v.map_values(|s: String| s@)
}

/// The lines of a feed list, each trimmed, in order.
pub open spec fn trimmed_lines(content: Seq<char>) -> Seq<Seq<char>> {
    pieces(content).map_values(|l: Seq<char>| trimmed(l))
}

/// The non-empty strings of `lines`, in order.
pub fn non_empty_lines(lines: Vec<String>) -> (r: Vec<String>)
    ensures
        strings_view(r@) == non_empty(strings_view(lines@)),
{
    let ghost src = lines@;
    let mut out: Vec<String> = Vec::new();
    for line in it: lines.into_iter()
        invariant
            it.seq() == src,
            strings_view(out@) == non_empty(strings_view(src.take(it.index() as int))),
    {
        let ghost j = it.index() as int;
        proof {
            assert(strings_view(src.take(j + 1)).drop_last() =~= strings_view(src.take(j)));
            assert(line == src[j]);
        }
        if !line.as_str().is_empty() {
            out.push(line);
            assert(strings_view(out@) =~= non_empty(strings_view(src.take(j))).push(src[j]@));
        }
    }
    assert(src.take(src.len() as int) =~= src);
    out
}

/// The lines of `content` (split at each newline), each trimmed.
fn lines_trimmed(content: &str) -> (r: Vec<String>)
    ensures
        strings_view(r@) == trimmed_lines(content@),
{
    let cs = chars_of(content);
    let mut out: Vec<String> = Vec::new();
    let mut cur: Vec<char> = Vec::new();
    let mut i: usize = 0;
    proof {
        assert(pieces(cs@.take(0)).drop_last() =~= Seq::<Seq<char>>::empty());
        assert(strings_view(out@) =~= Seq::<Seq<char>>::empty());
    }
    while i < cs.len()
        invariant
            cs@ == content@,
            i <= cs.len(),
            pieces(cs@.take(i as int)).len() >= 1,
            strings_view(out@) == pieces(cs@.take(i as int)).drop_last().map_values(
                |l: Seq<char>| trimmed(l),
            ),
            cur@ == pieces(cs@.take(i as int)).last(),
        decreases cs.len() - i,
    {
        let c = cs[i];
        let ghost prev = cs@.take(i as int);
        let ghost next = cs@.take(i as int + 1);
        proof {
            assert(next.drop_last() =~= prev);
            lemma_pieces_len(next);
        }
        if c == '\n' {
            let line = trim_text(string_from_chars(&cur).as_str());
            let ghost before = out@;
            out.push(line);
            cur = Vec::new();
            proof {
                let p = pieces(prev);
                assert(strings_view(out@) =~= strings_view(before).push(line@));
                assert(p =~= p.drop_last().push(p.last()));
                assert(pieces(next).drop_last() =~= pieces(prev));
                assert(strings_view(out@) =~= pieces(prev).map_values(|l: Seq<char>| trimmed(l)));
                assert(cur@ =~= pieces(next).last());
            }
        } else {
            cur.push(c);
            proof {
                assert(pieces(next).drop_last() =~= pieces(prev).drop_last());
            }
        }
        i = i + 1;
    }
    let line = trim_text(string_from_chars(&cur).as_str());
    let ghost before = out@;
    out.push(line);
    proof {
        assert(cs@.take(cs.len() as int) =~= content@);
        let ps = pieces(content@);
        assert(strings_view(out@) =~= strings_view(before).push(line@));
        assert(ps.drop_last().push(ps.last()) =~= ps);
        assert(strings_view(out@) =~= ps.map_values(|l: Seq<char>| trimmed(l)));
    }
    out
}

/// The feed URLs listed in `content`: its lines, trimmed, blank ones skipped.
pub fn urls_from_list(content: &str) -> (r: Vec<String>)
    ensures
        strings_view(r@) == non_empty(trimmed_lines(content@)),
{
    let lines = lines_trimmed(content);
    non_empty_lines(lines)
}

} // verus!
