//! What holds of every slug and every file name.

use vstd::prelude::*;
use vstd::utf8::{encode_utf8, is_ascii_chars, is_ascii_chars_encode_utf8};
use crate::filename::{collapsed, is_illegal, sanitized, trimmed, trimmed_end, trimmed_start};
use crate::shape::{
    all_kept, foreign_separator, is_kept, lemma_boundary_is_separator, lemma_first_is_kept,
    lemma_kept_is_fixed, lemma_prefix_shaped, lemma_separator_follows_word,
    lemma_shaped_is_ascii, lemma_shaped_is_fixed, lemma_slug_all_kept, lemma_slug_is_shaped,
    plain_separator, shaped,
};
use crate::slug::{lemma_last_occurrence, occurs_at, slug_of, truncated};
use crate::slugifier::Settings;
use crate::text::{ascii_bytes, ascii_form};

verus! {

/// No character of `s` is illegal in a file name.
pub open spec fn free_of_illegal(s: Seq<char>) -> bool {
    forall|i: int| 0 <= i < s.len() ==> !is_illegal(#[trigger] s[i])
}

/// On a text that is ASCII already, the slug of the text is the slug of its
/// bytes, which are its UTF-8 encoding: `slugify` and `slugify_ascii` agree.
pub proof fn law_ascii_text_agrees(cfg: Settings, text: Seq<char>)
    requires
        is_ascii_chars(text),
    ensures
        encode_utf8(text) == ascii_bytes(text),
        cfg.slug_of_text(text) == cfg.slug(encode_utf8(text)),
{
    is_ascii_chars_encode_utf8(text);
    assert(encode_utf8(text) =~= ascii_bytes(text));
}

/// A truncated slug is a prefix of the slug and no longer than the limit.
/// Where the slug is longer than the limit and the separator stands
/// somewhere within the first `n` characters, the result ends exactly where
/// a separator begins: at the last such place.
pub proof fn law_truncation_bound(slug: Seq<char>, sep: Seq<char>, n: usize)
    ensures
        truncated(slug, sep, Some(n)).len() <= n,
        truncated(slug, sep, Some(n)).len() <= slug.len(),
        truncated(slug, sep, Some(n)) == slug.subrange(0, truncated(slug, sep, Some(n)).len() as int),
        slug.len() > n && (exists|i: int| #[trigger] occurs_at(slug.subrange(0, n as int), sep, i))
            ==> occurs_at(slug, sep, truncated(slug, sep, Some(n)).len() as int),
        forall|j: int|
            slug.len() > n && sep.len() > 0 && truncated(slug, sep, Some(n)).len() < j
                ==> !#[trigger] occurs_at(slug.subrange(0, n as int), sep, j),
{
    let out = truncated(slug, sep, Some(n));
    if slug.len() > n {
        let head = slug.subrange(0, n as int);
        if sep.len() > 0 && sep.len() <= n {
            lemma_last_occurrence(slug, sep, n - sep.len());
        }
        assert forall|j: int| #[trigger] occurs_at(head, sep, j) implies occurs_at(slug, sep, j)
            && j + sep.len() <= n by {
            assert(head.subrange(j, j + sep.len()) =~= slug.subrange(j, j + sep.len()));
        }
        if sep.len() == 0 {
            assert(slug.subrange(n as int, n + sep.len()) =~= sep);
        }
    } else {
        assert(slug.subrange(0, slug.len() as int) =~= slug);
    }
}

/// With a limit of `n`, no slug is longer than `n`.
pub proof fn law_slug_within_limit(cfg: Settings, text: Seq<char>, bytes: Seq<u8>, n: usize)
    requires
        cfg.truncate == Some(n),
    ensures
        cfg.slug(bytes).len() <= n,
        cfg.slug_of_text(text).len() <= n,
{
    law_truncation_bound(slug_of(bytes, cfg.separator, cfg.lowercase), cfg.separator, n);
    law_truncation_bound(
        slug_of(ascii_bytes(ascii_form(text)), cfg.separator, cfg.lowercase),
        cfg.separator,
        n,
    );
}

/// Collapsing brings no illegal character into a text, unless the
/// replacement holds one.
pub proof fn lemma_collapsed_free(text: Seq<char>, replacement: Seq<char>)
    requires
        free_of_illegal(replacement),
    ensures
        free_of_illegal(collapsed(text, replacement)),
    decreases text.len(),
{
    if text.len() > 0 {
        lemma_collapsed_free(text.drop_last(), replacement);
    }
}

/// Trimming removes characters and brings none.
pub proof fn lemma_trimmed_free(s: Seq<char>)
    requires
        free_of_illegal(s),
    ensures
        free_of_illegal(trimmed_start(s)),
        free_of_illegal(trimmed_end(s)),
        free_of_illegal(trimmed(s)),
    decreases s.len(), 1nat,
{
    lemma_trimmed_start_free(s);
    lemma_trimmed_end_free(s);
    lemma_trimmed_end_free(trimmed_start(s));
}

/// Trimming the start removes characters and brings none.
pub proof fn lemma_trimmed_start_free(s: Seq<char>)
    requires
        free_of_illegal(s),
    ensures
        free_of_illegal(trimmed_start(s)),
    decreases s.len(),
{
    if s.len() > 0 {
        lemma_trimmed_start_free(s.drop_first());
    }
}

/// Trimming the end removes characters and brings none.
pub proof fn lemma_trimmed_end_free(s: Seq<char>)
    requires
        free_of_illegal(s),
    ensures
        free_of_illegal(trimmed_end(s)),
    decreases s.len(),
{
    if s.len() > 0 {
        lemma_trimmed_end_free(s.drop_last());
    }
}

/// A file name holds none of the nine illegal characters, whatever the text,
/// as long as the replacement holds none.
pub proof fn law_file_name_is_safe(cfg: Settings, text: Seq<char>)
    requires
        free_of_illegal(cfg.sanitize_replacement),
    ensures
        free_of_illegal(cfg.file_name(text)),
{
    lemma_collapsed_free(text, cfg.sanitize_replacement);
    lemma_trimmed_free(collapsed(text, cfg.sanitize_replacement));
}

/// `sep` stands neither at the start of `s` nor at its end, and nowhere
/// twice in a row.
pub open spec fn well_separated(s: Seq<char>, sep: Seq<char>) -> bool {
    &&& !occurs_at(s, sep, 0)
    &&& !occurs_at(s, sep, s.len() - sep.len())
    &&& forall|i: int| !(#[trigger] occurs_at(s, sep, i) && occurs_at(s, sep, i + sep.len()))
}

/// A shaped sequence is well separated.
pub proof fn lemma_shaped_well_separated(s: Seq<char>, sep: Seq<char>, lowercase: bool)
    requires
        foreign_separator(sep, lowercase),
        sep.len() > 0,
        shaped(s, sep, lowercase),
    ensures
        well_separated(s, sep),
{
    let k = sep.len() as int;
    if occurs_at(s, sep, 0) {
        lemma_separator_follows_word(s, sep, lowercase, 0);
    }
    if occurs_at(s, sep, s.len() - k) {
        assert(s.subrange(s.len() - k, s.len() as int)[k - 1] == sep[k - 1]);
    }
    assert forall|i: int| !(#[trigger] occurs_at(s, sep, i) && occurs_at(s, sep, i + k)) by {
        if occurs_at(s, sep, i) && occurs_at(s, sep, i + k) {
            lemma_separator_follows_word(s, sep, lowercase, i + k);
            assert(s.subrange(i, i + k)[k - 1] == sep[k - 1]);
        }
    }
}

/// A sequence in which `sep` stands nowhere is well separated.
pub proof fn lemma_absent_well_separated(s: Seq<char>, sep: Seq<char>)
    requires
        forall|i: int| !occurs_at(s, sep, i),
    ensures
        well_separated(s, sep),
{
}

/// The slug of any bytes is well separated, where the separator is not
/// empty and foreign.
pub proof fn lemma_slug_well_separated(cfg: Settings, bytes: Seq<u8>)
    requires
        cfg.separator.len() > 0,
        foreign_separator(cfg.separator, cfg.lowercase),
    ensures
        well_separated(cfg.slug(bytes), cfg.separator),
{
    let sep = cfg.separator;
    let k = sep.len() as int;
    let full = slug_of(bytes, sep, cfg.lowercase);
    let out = cfg.slug(bytes);
    lemma_slug_is_shaped(bytes, sep, cfg.lowercase);
    match cfg.truncate {
        Some(n) if full.len() > n => {
            if k <= n {
                lemma_last_occurrence(full, sep, n - k);
            }
            if out.len() < n {
                lemma_separator_follows_word(full, sep, cfg.lowercase, out.len() as int);
                lemma_shaped_well_separated(out, sep, cfg.lowercase);
            } else {
                assert forall|i: int| !occurs_at(out, sep, i) by {
                    if occurs_at(out, sep, i) {
                        assert(out.subrange(i, i + k) =~= full.subrange(i, i + k));
                        assert(occurs_at(full, sep, i));
                    }
                }
                lemma_absent_well_separated(out, sep);
            }
        },
        _ => {
            lemma_shaped_well_separated(full, sep, cfg.lowercase);
        },
    }
}

/// No slug starts or ends with the separator, and in none does the
/// separator stand twice in a row, as long as the separator is not empty and
/// holds no character that a slug keeps.
pub proof fn law_no_doubled_separator(cfg: Settings, text: Seq<char>, bytes: Seq<u8>)
    requires
        cfg.separator.len() > 0,
        foreign_separator(cfg.separator, cfg.lowercase),
    ensures
        well_separated(cfg.slug(bytes), cfg.separator),
        well_separated(cfg.slug_of_text(text), cfg.separator),
{
    lemma_slug_well_separated(cfg, bytes);
    lemma_slug_well_separated(cfg, ascii_bytes(ascii_form(text)));
}

/// A limit that cannot cut a separator in two: there is none, or it is at
/// most 1, or the separator is at most one character long.
pub open spec fn cuts_cleanly(sep: Seq<char>, limit: Option<usize>) -> bool {
    match limit {
        None => true,
        Some(n) => n <= 1 || sep.len() <= 1,
    }
}

/// Settings under which every slug is a fixed point. Either the separator is
/// ASCII, holds no letter or digit, and the limit cuts cleanly; or the
/// separator is made of kept characters alone.
pub open spec fn stable(cfg: Settings) -> bool {
    ||| plain_separator(cfg.separator) && is_ascii_chars(cfg.separator) && cuts_cleanly(
        cfg.separator,
        cfg.truncate,
    )
    ||| all_kept(cfg.separator, cfg.lowercase)
}

/// Truncation keeps a shaped sequence shaped, where the limit cuts cleanly.
pub proof fn lemma_truncated_shaped(
    s: Seq<char>,
    sep: Seq<char>,
    lowercase: bool,
    limit: Option<usize>,
)
    requires
        plain_separator(sep),
        shaped(s, sep, lowercase),
        cuts_cleanly(sep, limit),
    ensures
        shaped(truncated(s, sep, limit), sep, lowercase),
{
    let out = truncated(s, sep, limit);
    match limit {
        Some(n) if s.len() > n => {
            let k = sep.len() as int;
            if k > 0 && k <= n {
                lemma_last_occurrence(s, sep, n - k);
            }
            if out.len() < n {
                lemma_separator_follows_word(s, sep, lowercase, out.len() as int);
            } else if n == 1 {
                lemma_first_is_kept(s, sep, lowercase);
                lemma_prefix_shaped(s, sep, lowercase, 1);
            } else if n > 0 {
                if !is_kept(s[n - 1], lowercase) {
                    lemma_boundary_is_separator(s, sep, lowercase, n - 1);
                }
                lemma_prefix_shaped(s, sep, lowercase, n as int);
            }
        },
        _ => {},
    }
}

/// The slug of any bytes is ASCII, and is the slug of its own bytes.
pub proof fn lemma_slug_fixed(cfg: Settings, bytes: Seq<u8>)
    requires
        stable(cfg),
    ensures
        is_ascii_chars(cfg.slug(bytes)),
        cfg.slug(ascii_bytes(cfg.slug(bytes))) == cfg.slug(bytes),
{
    let sep = cfg.separator;
    let full = slug_of(bytes, sep, cfg.lowercase);
    let out = cfg.slug(bytes);
    if let Some(n) = cfg.truncate {
        law_truncation_bound(full, sep, n);
    }
    if all_kept(sep, cfg.lowercase) {
        lemma_slug_all_kept(bytes, sep, cfg.lowercase);
        assert(out == full.subrange(0, out.len() as int)) by {
            assert(full.subrange(0, full.len() as int) =~= full);
        }
        assert(all_kept(out, cfg.lowercase));
        lemma_kept_is_fixed(out, sep, cfg.lowercase);
    } else {
        lemma_slug_is_shaped(bytes, sep, cfg.lowercase);
        lemma_truncated_shaped(full, sep, cfg.lowercase, cfg.truncate);
        lemma_shaped_is_ascii(out, sep, cfg.lowercase);
        lemma_shaped_is_fixed(out, sep, cfg.lowercase);
    }
}

/// A slug is a fixed point: to slugify it again, under the same settings,
/// gives the slug itself. This holds under stable settings.
pub proof fn law_slug_is_fixed_point(cfg: Settings, text: Seq<char>, bytes: Seq<u8>)
    requires
        stable(cfg),
    ensures
        cfg.slug(ascii_bytes(cfg.slug(bytes))) == cfg.slug(bytes),
        cfg.slug_of_text(cfg.slug_of_text(text)) == cfg.slug_of_text(text),
{
    lemma_slug_fixed(cfg, bytes);
    lemma_slug_fixed(cfg, ascii_bytes(ascii_form(text)));
}

} // verus!
