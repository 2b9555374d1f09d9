//! Conversions between strings and character vectors, and the few calls into
//! code that is not verified here.

use vstd::prelude::*;
use vstd::utf8::{encode_utf8, is_ascii_chars, is_ascii_chars_encode_utf8};

verus! {

/// What `any_ascii::any_ascii` returns for a text: its transliteration into
/// ASCII, by that crate's table.
pub uninterp spec fn transliterated(text: Seq<char>) -> Seq<char>;

/// Whether `char::is_whitespace` holds of a character (the Unicode property
/// `White_Space`).
pub uninterp spec fn is_whitespace(c: char) -> bool;

/// The bytes of an ASCII text: one for each character.
pub open spec fn ascii_bytes(s: Seq<char>) -> Seq<u8> {
    Seq::new(s.len(), |i: int| s[i] as u8)
}

/// The ASCII form of a text: the text itself where it is ASCII already,
/// else its transliteration.
pub open spec fn ascii_form(text: Seq<char>) -> Seq<char> {
    if is_ascii_chars(text) {
        text
    } else {
        transliterated(text)
    }
}

/// Calls `any_ascii::any_ascii`. Trusted: the result is the crate's
/// transliteration of `text`; it holds ASCII characters only; and a text that
/// is ASCII already comes back unchanged (the crate copies each ASCII
/// character and replaces every other one by an ASCII string of its table),
/// so that the result is the ASCII form of `text`.
#[verifier::external_body]
pub(crate) fn transliterate(text: &str) -> (r: String)
    ensures
        r@ == transliterated(text@),
        r@ == ascii_form(text@),
        is_ascii_chars(r@),
{
    any_ascii::any_ascii(text)
}

/// Calls `char::is_whitespace`. Trusted: the result is the Unicode
/// `White_Space` property of `c`, which `is_whitespace` names.
#[verifier::external_body]
pub(crate) fn char_is_whitespace(c: char) -> (r: bool)
    ensures
        r == is_whitespace(c),
{
    c.is_whitespace()
}

/// Calls `String::push`. Trusted: the string afterwards is the string before
/// with `c` appended.
#[verifier::external_body]
pub(crate) fn push_char(s: &mut String, c: char)
    ensures
        final(s)@ == old(s)@.push(c),
{
    s.push(c)
}

/// The bytes of a string: its UTF-8 encoding, which for an ASCII string is
/// its characters, one for one.
pub fn bytes_of(s: &str) -> (b: &[u8])
    ensures
        b@ == encode_utf8(s@),
        is_ascii_chars(s@) ==> b@ == ascii_bytes(s@),
{
    let b = s.as_bytes();
    proof {
        if is_ascii_chars(s@) {
            is_ascii_chars_encode_utf8(s@);
            assert(b@ =~= ascii_bytes(s@));
        }
    }
    b
}

/// The characters of a string, in order.
#[verifier::loop_isolation(false)]
pub fn chars_of(s: &str) -> (v: Vec<char>)
    ensures
        v@ == s@,
{
    let mut v: Vec<char> = Vec::new();
    let chars = s.chars();
    for c in it: chars
        invariant
            v@ == it.seq().subrange(0, it.index() as int),
            it.seq() == s@,
    {
        v.push(c);
    }
    v
}

/// The string made of the characters of `v`, in order.
pub fn string_of(v: &Vec<char>) -> (s: String)
    ensures
        s@ == v@,
{
    let mut s = String::new();
    let mut i: usize = 0;
    while i < v.len()
        invariant
            i <= v.len(),
            s@ == v@.subrange(0, i as int),
        decreases v.len() - i,
    {
        push_char(&mut s, v[i]);
        i += 1;
        assert(v@.subrange(0, i as int) =~= v@.subrange(0, i - 1).push(v@[i - 1]));
    }
    assert(v@.subrange(0, i as int) =~= v@);
    s
}

} // verus!
