//! File names: characters that no common file system accepts are removed or
//! replaced, runs of them and of whitespace collapse, and the ends are
//! trimmed.

use vstd::prelude::*;
use crate::slug::append_chars;
use crate::text::{char_is_whitespace, is_whitespace};

verus! {

/// One of the nine characters `/ \ : * ? " < > |`.
pub open spec fn is_illegal(c: char) -> bool {
    c == '/' || c == '\\' || c == ':' || c == '*' || c == '?' || c == '"' || c == '<' || c == '>'
        || c == '|'
}

/// A character that is not kept: an illegal one, or whitespace.
pub open spec fn is_boundary(c: char) -> bool {
    is_illegal(c) || is_whitespace(c)
}

/// The text with every run of boundary characters replaced by what its first
/// character stands for: a single space for whitespace, `replacement` for
/// an illegal character. All other characters stay.
pub open spec fn collapsed(text: Seq<char>, replacement: Seq<char>) -> Seq<char>
    decreases text.len(),
{
    if text.len() == 0 {
        Seq::empty()
    } else {
        let head = text.drop_last();
        let c = text.last();
        let out = collapsed(head, replacement);
        if !is_boundary(c) {
            out.push(c)
        } else if head.len() > 0 && is_boundary(head.last()) {
            out
        } else if is_whitespace(c) {
            out.push(' ')
        } else {
            out + replacement
        }
    }
}

/// `s` without its leading whitespace.
pub open spec fn trimmed_start(s: Seq<char>) -> Seq<char>
    decreases s.len(),
{
    if s.len() > 0 && is_whitespace(s.first()) {
        trimmed_start(s.drop_first())
    } else {
        s
    }
}

/// `s` without its trailing whitespace.
pub open spec fn trimmed_end(s: Seq<char>) -> Seq<char>
    decreases s.len(),
{
    if s.len() > 0 && is_whitespace(s.last()) {
        trimmed_end(s.drop_last())
    } else {
        s
    }
}

/// `s` without its leading and trailing whitespace.
pub open spec fn trimmed(s: Seq<char>) -> Seq<char> {
    trimmed_end(trimmed_start(s))
}

/// The file name made from `text`: collapsed, then trimmed.
pub open spec fn sanitized(text: Seq<char>, replacement: Seq<char>) -> Seq<char> {
    trimmed(collapsed(text, replacement))
}

/// Whether a character is one of the nine illegal ones.
pub fn char_is_illegal(c: char) -> (r: bool)
    ensures
        r == is_illegal(c),
{
    c == '/' || c == '\\' || c == ':' || c == '*' || c == '?' || c == '"' || c == '<' || c == '>'
        || c == '|'
}

/// Collapses the boundary runs of `text`.
pub fn collapse(text: &Vec<char>, replacement: &Vec<char>) -> (out: Vec<char>)
    ensures
        out@ == collapsed(text@, replacement@),
{
    let mut out: Vec<char> = Vec::new();
    let mut at_boundary = false;
    let mut i: usize = 0;
    while i < text.len()
        invariant
            i <= text.len(),
            out@ == collapsed(text@.subrange(0, i as int), replacement@),
            at_boundary == (i > 0 && is_boundary(text@[i - 1])),
        decreases text.len() - i,
    {
        let c = text[i];
        proof {
            let next = text@.subrange(0, i + 1);
            assert(next.drop_last() =~= text@.subrange(0, i as int));
            assert(next.last() == c);
        }
        let space = char_is_whitespace(c);
        if char_is_illegal(c) || space {
            if !at_boundary {
                if space {
                    out.push(' ');
                } else {
                    append_chars(&mut out, replacement);
                }
                at_boundary = true;
            }
        } else {
            out.push(c);
            at_boundary = false;
        }
        i += 1;
    }
    assert(text@.subrange(0, i as int) =~= text@);
    out
}

/// Removes the leading and trailing whitespace of `s`.
pub fn trim(s: &Vec<char>) -> (out: Vec<char>)
    ensures
        out@ == trimmed(s@),
{
    let mut lo: usize = 0;
    assert(s@.subrange(0, s.len() as int) =~= s@);
    while lo < s.len() && char_is_whitespace(s[lo])
        invariant
            lo <= s.len(),
            trimmed_start(s@) == trimmed_start(s@.subrange(lo as int, s.len() as int)),
        decreases s.len() - lo,
    {
        assert(s@.subrange(lo as int, s.len() as int).drop_first() =~= s@.subrange(
            lo + 1,
            s.len() as int,
        ));
        lo += 1;
    }
    let mut hi: usize = s.len();
    while hi > lo && char_is_whitespace(s[hi - 1])
        invariant
            lo <= hi <= s.len(),
            trimmed(s@) == trimmed_end(s@.subrange(lo as int, hi as int)),
        decreases hi,
    {
        assert(s@.subrange(lo as int, hi as int).drop_last() =~= s@.subrange(lo as int, hi - 1));
        hi -= 1;
    }
    let mut out: Vec<char> = Vec::new();
    let mut i: usize = lo;
    while i < hi
        invariant
            lo <= i <= hi <= s.len(),
            out@ == s@.subrange(lo as int, i as int),
        decreases hi - i,
    {
        out.push(s[i]);
        i += 1;
        assert(s@.subrange(lo as int, i as int) =~= s@.subrange(lo as int, i - 1).push(s@[i - 1]));
    }
    out
}

/// The file name made from `text`.
pub fn sanitize(text: &Vec<char>, replacement: &Vec<char>) -> (out: Vec<char>)
    ensures
        out@ == sanitized(text@, replacement@),
{
    let raw = collapse(text, replacement);
    trim(&raw)
}

} // verus!
