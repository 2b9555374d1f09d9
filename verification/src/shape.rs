//! The shape of a slug: words of letters and digits with one separator
//! between each two, and what follows from it.

use vstd::prelude::*;
use vstd::utf8::is_ascii_chars;
use crate::slug::{emitted, is_alnum, occurs_at, slug_of};
use crate::text::ascii_bytes;

verus! {

/// An ASCII letter or digit, as a character.
pub open spec fn is_alnum_char(c: char) -> bool {
    ('0' <= c <= '9') || ('A' <= c <= 'Z') || ('a' <= c <= 'z')
}

/// A character that a slug keeps as it is: a letter or digit, and no
/// capital letter where the slug is in lower case.
pub open spec fn is_kept(c: char, lowercase: bool) -> bool {
    is_alnum_char(c) && (lowercase ==> !('A' <= c <= 'Z'))
}

/// A separator that holds no letter and no digit.
pub open spec fn plain_separator(sep: Seq<char>) -> bool {
    forall|i: int| 0 <= i < sep.len() ==> !is_alnum_char(#[trigger] sep[i])
}

/// A separator that holds no character that a slug keeps: no letter or
/// digit, but for capital letters where the slug is in lower case.
pub open spec fn foreign_separator(sep: Seq<char>, lowercase: bool) -> bool {
    forall|i: int| 0 <= i < sep.len() ==> !is_kept(#[trigger] sep[i], lowercase)
}

/// `s` is empty, or it is made of non-empty words of kept characters with
/// exactly one copy of `sep` between each two of them.
pub open spec fn shaped(s: Seq<char>, sep: Seq<char>, lowercase: bool) -> bool
    decreases s.len(),
{
    if s.len() == 0 {
        true
    } else if !is_kept(s.last(), lowercase) {
        false
    } else {
        let h = s.drop_last();
        if h.len() == 0 {
            true
        } else if is_kept(h.last(), lowercase) {
            shaped(h, sep, lowercase)
        } else {
            0 < sep.len() < h.len() && h.subrange(h.len() - sep.len(), h.len() as int) == sep
                && shaped(h.subrange(0, h.len() - sep.len()), sep, lowercase)
        }
    }
}

/// A retained byte contributes a kept character.
pub proof fn lemma_emitted_is_kept(b: u8, lowercase: bool)
    requires
        is_alnum(b),
    ensures
        is_kept(emitted(b, lowercase), lowercase),
{
}

/// The byte of an ASCII character is a letter or digit just when the
/// character is, and a kept character is what its own byte contributes.
pub proof fn lemma_byte_of_char(c: char, lowercase: bool)
    ensures
        c <= '\u{7f}' ==> (is_alnum(c as u8) <==> is_alnum_char(c)),
        is_kept(c, lowercase) ==> emitted(c as u8, lowercase) == c,
{
}

/// Every slug, before truncation, is shaped.
pub proof fn lemma_slug_is_shaped(bytes: Seq<u8>, sep: Seq<char>, lowercase: bool)
    requires
        foreign_separator(sep, lowercase),
    ensures
        shaped(slug_of(bytes, sep, lowercase), sep, lowercase),
    decreases bytes.len(),
{
    if bytes.len() > 0 {
        let head = bytes.drop_last();
        let b = bytes.last();
        let out = slug_of(head, sep, lowercase);
        lemma_slug_is_shaped(head, sep, lowercase);
        let e = emitted(b, lowercase);
        if is_alnum(b) {
            lemma_emitted_is_kept(b, lowercase);
        }
        if !is_alnum(b) {
        } else if out.len() > 0 && !is_alnum(head.last()) {
            let s = out + sep + seq![e];
            let h = s.drop_last();
            assert(h =~= out + sep);
            if sep.len() == 0 {
                assert(h =~= out);
            } else {
                assert(h.last() == sep.last());
                assert(h.subrange(h.len() - sep.len(), h.len() as int) =~= sep);
                assert(h.subrange(0, h.len() - sep.len()) =~= out);
            }
        } else {
            assert(out.push(e).drop_last() =~= out);
        }
    }
}

/// Bytes that are no letters or digits, at the end, add nothing to a slug.
pub proof fn lemma_trailing_boundaries(
    bytes: Seq<u8>,
    tail: Seq<u8>,
    sep: Seq<char>,
    lowercase: bool,
)
    requires
        forall|i: int| 0 <= i < tail.len() ==> !is_alnum(#[trigger] tail[i]),
    ensures
        slug_of(bytes + tail, sep, lowercase) == slug_of(bytes, sep, lowercase),
    decreases tail.len(),
{
    if tail.len() == 0 {
        assert(bytes + tail =~= bytes);
    } else {
        assert((bytes + tail).drop_last() =~= bytes + tail.drop_last());
        lemma_trailing_boundaries(bytes, tail.drop_last(), sep, lowercase);
    }
}

/// A shaped sequence over an ASCII separator is ASCII.
pub proof fn lemma_shaped_is_ascii(s: Seq<char>, sep: Seq<char>, lowercase: bool)
    requires
        is_ascii_chars(sep),
        shaped(s, sep, lowercase),
    ensures
        is_ascii_chars(s),
    decreases s.len(),
{
    if s.len() > 0 {
        let h = s.drop_last();
        if h.len() == 0 {
        } else if is_kept(h.last(), lowercase) {
            lemma_shaped_is_ascii(h, sep, lowercase);
        } else {
            let p = h.subrange(0, h.len() - sep.len());
            lemma_shaped_is_ascii(p, sep, lowercase);
            assert forall|i: int| 0 <= i < s.len() implies '\0' <= #[trigger] s[i] <= '\u{7f}' by {
                if i < p.len() {
                    assert(s[i] == p[i]);
                } else if i < h.len() {
                    assert(s[i] == h.subrange(h.len() - sep.len(), h.len() as int)[i - p.len()]);
                }
            }
        }
        assert forall|i: int| 0 <= i < s.len() implies '\0' <= #[trigger] s[i] <= '\u{7f}' by {
            if i < h.len() {
                assert(s[i] == h[i]);
            }
        }
    }
}

/// A shaped sequence is the slug of its own bytes.
pub proof fn lemma_shaped_is_fixed(s: Seq<char>, sep: Seq<char>, lowercase: bool)
    requires
        plain_separator(sep),
        is_ascii_chars(sep),
        shaped(s, sep, lowercase),
    ensures
        slug_of(ascii_bytes(s), sep, lowercase) == s,
    decreases s.len(),
{
    let bytes = ascii_bytes(s);
    if s.len() == 0 {
        assert(bytes.len() == 0);
    } else {
        let h = s.drop_last();
        let c = s.last();
        assert(bytes.drop_last() =~= ascii_bytes(h));
        assert(bytes.last() == c as u8);
        lemma_byte_of_char(c, lowercase);
        lemma_shaped_is_ascii(s, sep, lowercase);
        if h.len() == 0 {
            assert(slug_of(ascii_bytes(h), sep, lowercase) =~= Seq::<char>::empty());
            assert(s =~= Seq::<char>::empty().push(c));
        } else if is_kept(h.last(), lowercase) {
            lemma_shaped_is_fixed(h, sep, lowercase);
            lemma_byte_of_char(h.last(), lowercase);
            assert(ascii_bytes(h).last() == h.last() as u8);
            assert(s =~= h.push(c));
        } else {
            let p = h.subrange(0, h.len() - sep.len());
            lemma_shaped_is_fixed(p, sep, lowercase);
            assert(ascii_bytes(h) =~= ascii_bytes(p) + ascii_bytes(sep));
            assert forall|i: int| 0 <= i < ascii_bytes(sep).len() implies !is_alnum(
                #[trigger] ascii_bytes(sep)[i],
            ) by {
                lemma_byte_of_char(sep[i], lowercase);
            }
            lemma_trailing_boundaries(ascii_bytes(p), ascii_bytes(sep), sep, lowercase);
            assert(ascii_bytes(h).last() == ascii_bytes(sep).last());
            assert(s =~= p + sep + seq![c]);
        }
    }
}

/// Wherever a non-empty foreign separator stands in a shaped sequence, a
/// shaped, non-empty sequence ends just before it.
pub proof fn lemma_separator_follows_word(s: Seq<char>, sep: Seq<char>, lowercase: bool, i: int)
    requires
        foreign_separator(sep, lowercase),
        sep.len() > 0,
        shaped(s, sep, lowercase),
        occurs_at(s, sep, i),
    ensures
        0 < i,
        shaped(s.subrange(0, i), sep, lowercase),
        is_kept(s[i - 1], lowercase),
    decreases s.len(),
{
    let k = sep.len() as int;
    assert(s.subrange(i, i + k)[k - 1] == sep[k - 1]);
    assert(s.subrange(i, i + k)[0] == sep[0]);
    let h = s.drop_last();
    assert(i + k <= h.len());
    assert(h.subrange(i, i + k) =~= s.subrange(i, i + k));
    if is_kept(h.last(), lowercase) {
        lemma_separator_follows_word(h, sep, lowercase, i);
        assert(h.subrange(0, i) =~= s.subrange(0, i));
        assert(h[i - 1] == s[i - 1]);
    } else {
        let p = h.subrange(0, h.len() - k);
        if i + k <= p.len() {
            assert(p.subrange(i, i + k) =~= s.subrange(i, i + k));
            lemma_separator_follows_word(p, sep, lowercase, i);
            assert(p.subrange(0, i) =~= s.subrange(0, i));
            assert(p[i - 1] == s[i - 1]);
        } else {
            reveal_with_fuel(shaped, 2);
            assert(is_kept(p.last(), lowercase));
            assert(p.last() == s[p.len() - 1]);
            if i < p.len() {
                assert(s.subrange(i, i + k)[p.len() - 1 - i] == p.last());
                assert(s.subrange(i, i + k)[p.len() - 1 - i] == sep[p.len() - 1 - i]);
            }
            assert(i == p.len());
            assert(p =~= s.subrange(0, i));
        }
    }
}

/// A prefix of a shaped sequence that ends in a kept character is shaped.
pub proof fn lemma_prefix_shaped(s: Seq<char>, sep: Seq<char>, lowercase: bool, m: int)
    requires
        foreign_separator(sep, lowercase),
        shaped(s, sep, lowercase),
        0 < m <= s.len(),
        is_kept(s[m - 1], lowercase),
    ensures
        shaped(s.subrange(0, m), sep, lowercase),
    decreases s.len(),
{
    if m == s.len() {
        assert(s.subrange(0, m) =~= s);
    } else {
        let h = s.drop_last();
        if is_kept(h.last(), lowercase) {
            lemma_prefix_shaped(h, sep, lowercase, m);
            assert(h.subrange(0, m) =~= s.subrange(0, m));
        } else {
            let k = sep.len() as int;
            let p = h.subrange(0, h.len() - k);
            if m > p.len() {
                assert(h.subrange(h.len() - k, h.len() as int)[m - 1 - p.len()] == sep[m - 1
                    - p.len()]);
            }
            lemma_prefix_shaped(p, sep, lowercase, m);
            assert(p.subrange(0, m) =~= s.subrange(0, m));
        }
    }
}

/// In a shaped sequence every character that is not kept belongs to a copy
/// of the separator; where the separator is one character long, it is that
/// copy.
pub proof fn lemma_boundary_is_separator(s: Seq<char>, sep: Seq<char>, lowercase: bool, j: int)
    requires
        shaped(s, sep, lowercase),
        0 <= j < s.len(),
        !is_kept(s[j], lowercase),
    ensures
        sep.len() > 0,
        sep.len() == 1 ==> occurs_at(s, sep, j),
    decreases s.len(),
{
    let h = s.drop_last();
    let k = sep.len() as int;
    if is_kept(h.last(), lowercase) {
        lemma_boundary_is_separator(h, sep, lowercase, j);
        if k == 1 {
            assert(h.subrange(j, j + k) =~= s.subrange(j, j + k));
        }
    } else {
        let p = h.subrange(0, h.len() - k);
        if j < p.len() {
            lemma_boundary_is_separator(p, sep, lowercase, j);
            if k == 1 {
                assert(p.subrange(j, j + k) =~= s.subrange(j, j + k));
            }
        } else if k == 1 {
            assert(h.subrange(h.len() - k, h.len() as int) =~= s.subrange(j, j + k));
        }
    }
}

/// A shaped sequence that is not empty starts with a kept character.
pub proof fn lemma_first_is_kept(s: Seq<char>, sep: Seq<char>, lowercase: bool)
    requires
        shaped(s, sep, lowercase),
        s.len() > 0,
    ensures
        is_kept(s[0], lowercase),
    decreases s.len(),
{
    let h = s.drop_last();
    if h.len() == 0 {
    } else if is_kept(h.last(), lowercase) {
        lemma_first_is_kept(h, sep, lowercase);
    } else {
        lemma_first_is_kept(h.subrange(0, h.len() - sep.len()), sep, lowercase);
    }
}

/// Every character of `s` is kept.
pub open spec fn all_kept(s: Seq<char>, lowercase: bool) -> bool {
    forall|i: int| 0 <= i < s.len() ==> is_kept(#[trigger] s[i], lowercase)
}

/// With a separator of kept characters, a slug holds kept characters only.
pub proof fn lemma_slug_all_kept(bytes: Seq<u8>, sep: Seq<char>, lowercase: bool)
    requires
        all_kept(sep, lowercase),
    ensures
        all_kept(slug_of(bytes, sep, lowercase), lowercase),
    decreases bytes.len(),
{
    if bytes.len() > 0 {
        lemma_slug_all_kept(bytes.drop_last(), sep, lowercase);
        if is_alnum(bytes.last()) {
            lemma_emitted_is_kept(bytes.last(), lowercase);
        }
    }
}

/// A sequence of kept characters is the slug of its own bytes.
pub proof fn lemma_kept_is_fixed(s: Seq<char>, sep: Seq<char>, lowercase: bool)
    requires
        all_kept(s, lowercase),
    ensures
        slug_of(ascii_bytes(s), sep, lowercase) == s,
    decreases s.len(),
{
    let bytes = ascii_bytes(s);
    if s.len() == 0 {
        assert(bytes.len() == 0);
    } else {
        let h = s.drop_last();
        assert(bytes.drop_last() =~= ascii_bytes(h));
        lemma_kept_is_fixed(h, sep, lowercase);
        lemma_byte_of_char(s.last(), lowercase);
        if h.len() > 0 {
            lemma_byte_of_char(h.last(), lowercase);
            assert(ascii_bytes(h).last() == h.last() as u8);
        }
        assert(s =~= h.push(s.last()));
    }
}

} // verus!
