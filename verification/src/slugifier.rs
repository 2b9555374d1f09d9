//! The configurable generator of slugs and file names.

use vstd::prelude::*;
use crate::filename::{sanitize, sanitized};
use crate::slug::{scan, slug_of, truncate_chars, truncated};
use crate::text::{ascii_bytes, ascii_form, bytes_of, chars_of, string_of, transliterate};

verus! {

/// What a `Slugifier` is, as plain values.
pub struct Settings {
    /// Stands between the words of a slug.
    pub separator: Seq<char>,
    /// Whether capital letters become small ones.
    pub lowercase: bool,
    /// The greatest length of a slug, if any.
    pub truncate: Option<usize>,
    /// Stands for each run of illegal characters in a file name.
    pub sanitize_replacement: Seq<char>,
}

impl Settings {
    /// The slug that these settings give for a sequence of bytes.
    pub open spec fn slug(self, bytes: Seq<u8>) -> Seq<char> {
        truncated(slug_of(bytes, self.separator, self.lowercase), self.separator, self.truncate)
    }

    /// The slug that these settings give for a text: that of the bytes of its
    /// ASCII form.
    pub open spec fn slug_of_text(self, text: Seq<char>) -> Seq<char> {
        self.slug(ascii_bytes(ascii_form(text)))
    }

    /// The file name that these settings give for a text.
    pub open spec fn file_name(self, text: Seq<char>) -> Seq<char> {
        sanitized(text, self.sanitize_replacement)
    }
}

/// The settings of a new `Slugifier`: the separator `-`, lower case, no
/// limit on the length, and illegal characters removed.
pub open spec fn default_settings() -> Settings {
    Settings {
        separator: seq!['-'],
        lowercase: true,
        truncate: None,
        sanitize_replacement: Seq::empty(),
    }
}

/// A configurable slug generator.
///
/// Made by `new` and changed by the builder methods, each of which hands the
/// changed value on.
#[derive(Debug)]
pub struct Slugifier {
    separator: String,
    to_lowercase: bool,
    truncate: Option<usize>,
    sanitize_replacement: String,
}

impl View for Slugifier {
    type V = Settings;

    closed spec fn view(&self) -> Settings {
        Settings {
            separator: self.separator@,
            lowercase: self.to_lowercase,
            truncate: self.truncate,
            sanitize_replacement: self.sanitize_replacement@,
        }
    }
}

impl Clone for Slugifier {
    /// A generator with the same settings.
    fn clone(&self) -> (r: Self)
        ensures
            r@ == self@,
    {
        Slugifier {
            separator: self.separator.clone(),
            to_lowercase: self.to_lowercase,
            truncate: self.truncate,
            sanitize_replacement: self.sanitize_replacement.clone(),
        }
    }
}

impl Default for Slugifier {
    /// A generator with the default settings.
    fn default() -> (r: Self)
        ensures
            r@ == default_settings(),
    {
        let separator = "-".to_owned();
        proof {
            reveal_strlit("-");
            assert(separator@ =~= seq!['-']);
        }
        Slugifier {
            separator,
            to_lowercase: true,
            truncate: None,
            sanitize_replacement: String::new(),
        }
    }
}

impl Slugifier {
    /// A generator with the default settings.
    pub fn new() -> (r: Self)
        ensures
            r@ == default_settings(),
    {
        Slugifier::default()
    }

    /// Sets the string that stands between the words of a slug.
    pub fn separator(self, separator: &str) -> (r: Self)
        ensures
            r@ == (Settings { separator: separator@, ..self@ }),
    {
        Slugifier {
            separator: separator.to_owned(),
            to_lowercase: self.to_lowercase,
            truncate: self.truncate,
            sanitize_replacement: self.sanitize_replacement,
        }
    }

    /// Sets whether capital letters become small ones.
    pub fn to_lowercase(self, lowercase: bool) -> (r: Self)
        ensures
            r@ == (Settings { lowercase, ..self@ }),
    {
        Slugifier {
            separator: self.separator,
            to_lowercase: lowercase,
            truncate: self.truncate,
            sanitize_replacement: self.sanitize_replacement,
        }
    }

    /// Sets the greatest length of a slug.
    ///
    /// A longer slug is cut before the last separator that lies within the
    /// first `max_length` characters, or at `max_length` where there is none.
    pub fn truncate(self, max_length: usize) -> (r: Self)
        ensures
            r@ == (Settings { truncate: Some(max_length), ..self@ }),
    {
        Slugifier {
            separator: self.separator,
            to_lowercase: self.to_lowercase,
            truncate: Some(max_length),
            sanitize_replacement: self.sanitize_replacement,
        }
    }

    /// Sets the string that stands for each run of illegal characters in a
    /// file name.
    pub fn sanitize_replacement(self, replacement: &str) -> (r: Self)
        ensures
            r@ == (Settings { sanitize_replacement: replacement@, ..self@ }),
    {
        Slugifier {
            separator: self.separator,
            to_lowercase: self.to_lowercase,
            truncate: self.truncate,
            sanitize_replacement: replacement.to_owned(),
        }
    }

    /// Makes a file name from `filename`: case and inner spacing stay, each
    /// run of illegal characters and whitespace becomes one space or one
    /// replacement, and whitespace at the ends is removed.
    pub fn sanitize_filename(&self, filename: &str) -> (r: String)
        ensures
            r@ == self@.file_name(filename@),
    {
        let text = chars_of(filename);
        let replacement = chars_of(self.sanitize_replacement.as_str());
        let out = sanitize(&text, &replacement);
        string_of(&out)
    }

    /// Shortens `slug` to the configured length, if there is one and the
    /// slug is longer.
    pub fn apply_truncation(&self, slug: &mut String)
        ensures
            final(slug)@ == truncated(old(slug)@, self@.separator, self@.truncate),
    {
        let mut chars = chars_of(slug.as_str());
        let sep = chars_of(self.separator.as_str());
        truncate_chars(&mut chars, &sep, self.truncate);
        *slug = string_of(&chars);
    }

    /// The slug of a text: it is transliterated into ASCII, and the slug of
    /// the resulting bytes is taken.
    pub fn slugify(&self, text: &str) -> (r: String)
        ensures
            r@ == self@.slug_of_text(text@),
    {
        let ascii = transliterate(text);
        self.slugify_ascii(bytes_of(ascii.as_str()))
    }

    /// The slug of a sequence of bytes, every byte that is no ASCII letter or
    /// digit being a word boundary.
    pub fn slugify_ascii(&self, text: &[u8]) -> (r: String)
        ensures
            r@ == self@.slug(text@),
    {
        let sep = chars_of(self.separator.as_str());
        let mut out = scan(text, &sep, self.to_lowercase);
        truncate_chars(&mut out, &sep, self.truncate);
        string_of(&out)
    }
}

/// The slug of a text under the default settings.
pub fn slugify(text: &str) -> (r: String)
    ensures
        r@ == default_settings().slug_of_text(text@),
{
    Slugifier::new().slugify(text)
}

/// The slug of a sequence of bytes under the default settings.
pub fn slugify_ascii(text: &[u8]) -> (r: String)
    ensures
        r@ == default_settings().slug(text@),
{
    Slugifier::new().slugify_ascii(text)
}

} // verus!
