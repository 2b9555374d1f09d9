//! The slug of a byte sequence: its alphanumeric runs, joined by a separator,
//! and the truncation of a slug to a length limit.

use vstd::prelude::*;

verus! {

/// An ASCII letter or digit.
pub open spec fn is_alnum(b: u8) -> bool {
    (0x30 <= b <= 0x39) || (0x41 <= b <= 0x5a) || (0x61 <= b <= 0x7a)
}

/// An ASCII capital letter becomes its small letter; every other byte stays.
pub open spec fn lowered(b: u8) -> u8 {
    if 0x41 <= b <= 0x5a {
        (b + 0x20) as u8
    } else {
        b
    }
}

/// The character that a retained byte contributes to a slug.
pub open spec fn emitted(b: u8, lowercase: bool) -> char {
    if lowercase {
        lowered(b) as char
    } else {
        b as char
    }
}

/// The slug of `bytes` before truncation. Every alphanumeric byte contributes
/// its character; it is preceded by one copy of `sep` when the byte before it
/// is not alphanumeric and something has been emitted already. All other
/// bytes contribute nothing.
pub open spec fn slug_of(bytes: Seq<u8>, sep: Seq<char>, lowercase: bool) -> Seq<char>
    decreases bytes.len(),
{
    if bytes.len() == 0 {
        Seq::empty()
    } else {
        let head = bytes.drop_last();
        let b = bytes.last();
        let out = slug_of(head, sep, lowercase);
        if !is_alnum(b) {
            out
        } else if out.len() > 0 && !is_alnum(head.last()) {
            out + sep + seq![emitted(b, lowercase)]
        } else {
            out.push(emitted(b, lowercase))
        }
    }
}

/// `pat` stands in `s` at position `i`.
pub open spec fn occurs_at(s: Seq<char>, pat: Seq<char>, i: int) -> bool {
    0 <= i && i + pat.len() <= s.len() && s.subrange(i, i + pat.len()) == pat
}

/// The greatest position at most `start` at which `pat` stands in `s`.
pub open spec fn last_occurrence(s: Seq<char>, pat: Seq<char>, start: int) -> Option<int>
    decreases start + 1,
{
    if start < 0 {
        None
    } else if occurs_at(s, pat, start) {
        Some(start)
    } else {
        last_occurrence(s, pat, start - 1)
    }
}

/// Where a slug longer than `limit` is cut: before the last copy of `sep`
/// that lies wholly within the first `limit` characters, or, where there is
/// none or `sep` is empty, at `limit` itself.
pub open spec fn cut_point(slug: Seq<char>, sep: Seq<char>, limit: int) -> int {
    if sep.len() > 0 && sep.len() <= limit {
        match last_occurrence(slug, sep, limit - sep.len()) {
            Some(i) => i,
            None => limit,
        }
    } else {
        limit
    }
}

/// A slug under a length limit: unchanged without a limit or within it,
/// else its prefix up to the cut point.
pub open spec fn truncated(slug: Seq<char>, sep: Seq<char>, limit: Option<usize>) -> Seq<char> {
    match limit {
        Some(n) if slug.len() > n => slug.subrange(0, cut_point(slug, sep, n as int)),
        _ => slug,
    }
}

/// The result of `last_occurrence` is a position where `pat` stands, with
/// none after it up to `start`; it is `None` only where there is none at all.
pub proof fn lemma_last_occurrence(s: Seq<char>, pat: Seq<char>, start: int)
    ensures
        match last_occurrence(s, pat, start) {
            Some(i) => 0 <= i <= start && occurs_at(s, pat, i) && forall|j: int|
                i < j <= start ==> !occurs_at(s, pat, j),
            None => forall|j: int| 0 <= j <= start ==> !occurs_at(s, pat, j),
        },
    decreases start + 1,
{
    if start >= 0 && !occurs_at(s, pat, start) {
        lemma_last_occurrence(s, pat, start - 1);
    }
}

/// Whether a byte is an ASCII letter or digit.
pub fn byte_is_alnum(b: u8) -> (r: bool)
    ensures
        r == is_alnum(b),
{
    (0x30 <= b && b <= 0x39) || (0x41 <= b && b <= 0x5a) || (0x61 <= b && b <= 0x7a)
}

/// The character that a retained byte contributes to a slug.
pub fn emit(b: u8, lowercase: bool) -> (c: char)
    ensures
        c == emitted(b, lowercase),
{
    if lowercase && 0x41 <= b && b <= 0x5a {
        (b + 0x20) as char
    } else {
        b as char
    }
}

/// Appends the characters of `src` to `out`.
pub fn append_chars(out: &mut Vec<char>, src: &Vec<char>)
    ensures
        final(out)@ == old(out)@ + src@,
{
    let mut i: usize = 0;
    while i < src.len()
        invariant
            i <= src.len(),
            out@ == old(out)@ + src@.subrange(0, i as int),
        decreases src.len() - i,
    {
        out.push(src[i]);
        i += 1;
        assert(src@.subrange(0, i as int) =~= src@.subrange(0, i - 1).push(src@[i - 1]));
        assert(out@ =~= old(out)@ + src@.subrange(0, i as int));
    }
    assert(src@.subrange(0, i as int) =~= src@);
}

/// Scans `bytes` once and builds their slug, without truncation.
pub fn scan(bytes: &[u8], sep: &Vec<char>, lowercase: bool) -> (out: Vec<char>)
    ensures
        out@ == slug_of(bytes@, sep@, lowercase),
{
    let mut out: Vec<char> = Vec::new();
    let mut pending = false;
    let mut i: usize = 0;
    while i < bytes.len()
        invariant
            i <= bytes.len(),
            out@ == slug_of(bytes@.subrange(0, i as int), sep@, lowercase),
            pending == (i > 0 && !is_alnum(bytes@[i - 1])),
        decreases bytes.len() - i,
    {
        let b = bytes[i];
        proof {
            let next = bytes@.subrange(0, i + 1);
            assert(next.drop_last() =~= bytes@.subrange(0, i as int));
            assert(next.last() == b);
        }
        if byte_is_alnum(b) {
            if pending && out.len() > 0 {
                append_chars(&mut out, sep);
            }
            out.push(emit(b, lowercase));
            pending = false;
        } else {
            pending = true;
        }
        i += 1;
    }
    assert(bytes@.subrange(0, i as int) =~= bytes@);
    out
}

/// Whether `pat` stands in `s` at position `i`.
pub fn stands_at(s: &Vec<char>, pat: &Vec<char>, i: usize) -> (r: bool)
    ensures
        r == occurs_at(s@, pat@, i as int),
{
    if pat.len() > s.len() || i > s.len() - pat.len() {
        return false;
    }
    let mut k: usize = 0;
    while k < pat.len()
        invariant
            k <= pat.len(),
            i + pat.len() <= s.len(),
            forall|j: int| 0 <= j < k ==> s@[i + j] == pat@[j],
        decreases pat.len() - k,
    {
        if s[i + k] != pat[k] {
            assert(s@.subrange(i as int, i + pat.len())[k as int] != pat@[k as int]);
            return false;
        }
        k += 1;
    }
    assert(s@.subrange(i as int, i + pat.len()) =~= pat@);
    true
}

/// The greatest position at most `start` at which `pat` stands in `s`.
pub fn find_last(s: &Vec<char>, pat: &Vec<char>, start: usize) -> (r: Option<usize>)
    ensures
        match r {
            Some(i) => last_occurrence(s@, pat@, start as int) == Some(i as int),
            None => last_occurrence(s@, pat@, start as int) == None::<int>,
        },
{
    let mut i: usize = start;
    loop
        invariant
            i <= start,
            last_occurrence(s@, pat@, start as int) == last_occurrence(s@, pat@, i as int),
        decreases i,
    {
        if stands_at(s, pat, i) {
            return Some(i);
        }
        if i == 0 {
            assert(last_occurrence(s@, pat@, -1) == None::<int>);
            return None;
        }
        i -= 1;
    }
}

/// Shortens `slug` to at most `limit` characters, at the cut point.
pub fn truncate_chars(slug: &mut Vec<char>, sep: &Vec<char>, limit: Option<usize>)
    ensures
        final(slug)@ == truncated(old(slug)@, sep@, limit),
{
    if let Some(n) = limit {
        if slug.len() > n {
            if sep.len() > 0 && sep.len() <= n {
                if let Some(i) = find_last(slug, sep, n - sep.len()) {
                    proof {
                        lemma_last_occurrence(slug@, sep@, n - sep.len());
                    }
                    slug.truncate(i);
                    return;
                }
            }
            slug.truncate(n);
        }
    }
}

} // verus!
