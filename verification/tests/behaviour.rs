use rslug::filename::{collapse, sanitize, trim};
use rslug::slug::{append_chars, byte_is_alnum, emit, find_last, scan, stands_at, truncate_chars};
use rslug::text::{bytes_of, chars_of, string_of};
use rslug::{slugify, slugify_ascii, Slugifier};

fn chars(s: &str) -> Vec<char> {
    s.chars().collect()
}

#[test]
fn slug_of_sentence_with_punctuation() {
    assert_eq!(
        slugify("Hello World! This is a test... 123?"),
        "hello-world-this-is-a-test-123"
    );
}

#[test]
fn truncation_cuts_before_last_separator_in_reach() {
    let slugifier = Slugifier::new().truncate(20);
    assert_eq!(
        slugifier.slugify("this is a very long title"),
        "this-is-a-very-long"
    );
}

#[test]
fn truncation_of_single_long_word_is_hard() {
    let slugifier = Slugifier::new().truncate(20);
    let slug = slugifier.slugify("supercalifragilisticexpialidocious");
    assert_eq!(slug.len(), 20);
    assert!(slug.is_ascii());
    assert!(!slug.contains('-'));
}

#[test]
fn text_without_letters_or_digits_gives_empty_slug() {
    assert_eq!(slugify("!!! --- ???"), "");
    assert_eq!(slugify_ascii(b" \t\n"), "");
    assert_eq!(slugify_ascii(b""), "");
}

#[test]
fn bytes_above_ascii_are_boundaries() {
    assert_eq!(slugify_ascii(&[b'a', 0xc3, 0xa9, b'b']), "a-b");
    assert_eq!(slugify_ascii(&[0xff, b'Z', 0x80]), "z");
}

#[test]
fn transliteration_precedes_the_scan() {
    assert_eq!(slugify("Борис"), "boris");
    assert_eq!(slugify("深圳"), "shenzhen");
    assert_eq!(
        Slugifier::new().to_lowercase(false).slugify("René François"),
        "Rene-Francois"
    );
}

#[test]
fn empty_separator_joins_words() {
    let slugifier = Slugifier::new().separator("");
    assert_eq!(slugifier.slugify("a b  c"), "abc");
    assert_eq!(slugifier.truncate(2).slugify("a b  c"), "ab");
}

#[test]
fn separator_of_several_characters_stands_once() {
    let slugifier = Slugifier::new().separator("--");
    assert_eq!(slugifier.slugify("a   b, c"), "a--b--c");
    let cut = Slugifier::new().separator("--").truncate(6);
    assert_eq!(cut.slugify("a   b, c"), "a--b");
    let early = Slugifier::new().separator("--").truncate(5);
    assert_eq!(early.slugify("a   b, c"), "a");
    let hard = Slugifier::new().separator("--").truncate(2);
    assert_eq!(hard.slugify("a   b, c"), "a-");
}

#[test]
fn limit_of_zero_empties_the_slug() {
    let slugifier = Slugifier::new().truncate(0);
    assert_eq!(slugifier.slugify("hello world"), "");
}

#[test]
fn slug_at_the_limit_is_unchanged() {
    let slugifier = Slugifier::new().truncate(11);
    assert_eq!(slugifier.slugify("hello world"), "hello-world");
    let shorter = Slugifier::new().truncate(10);
    assert_eq!(shorter.slugify("hello world"), "hello");
}

#[test]
fn separator_ending_at_the_limit_is_found() {
    let slugifier = Slugifier::new().truncate(6);
    assert_eq!(slugifier.slugify("hello world"), "hello");
    let slugifier = Slugifier::new().truncate(5);
    assert_eq!(slugifier.slugify("hello world"), "hello");
}

#[test]
fn slugs_are_fixed_points() {
    let plain = Slugifier::new();
    let limited = Slugifier::new().separator("_").truncate(12);
    let long_sep = Slugifier::new().separator("--");
    let word_sep = Slugifier::new().separator("x").truncate(7);
    for text in ["Hello, World!", "你好世界 & Rust", "  a  b  ", "", "one two three four"] {
        let once = plain.slugify(text);
        assert_eq!(plain.slugify(&once), once);
        let once = limited.slugify(text);
        assert_eq!(limited.slugify(&once), once);
        let once = long_sep.slugify(text);
        assert_eq!(long_sep.slugify(&once), once);
        let once = word_sep.slugify(text);
        assert_eq!(word_sep.slugify(&once), once);
    }
}

#[test]
fn separator_never_doubled_nor_at_an_end() {
    let configs = [
        Slugifier::new(),
        Slugifier::new().separator("--").truncate(9),
        Slugifier::new().separator("_").truncate(3),
        Slugifier::new().separator("X").truncate(6),
    ];
    let seps = ["-", "--", "_", "X"];
    for (slugifier, sep) in configs.iter().zip(seps) {
        for text in ["--a--b--", "Hello,   World!!", "x", "", "one two three four"] {
            let slug = slugifier.slugify(text);
            assert!(!slug.starts_with(sep));
            assert!(!slug.ends_with(sep));
            assert!(!slug.contains(&format!("{sep}{sep}")));
        }
    }
}

#[test]
fn ascii_text_gives_the_same_slug_both_ways() {
    let configs = [
        Slugifier::new(),
        Slugifier::new().to_lowercase(false).separator("+"),
        Slugifier::new().truncate(8),
    ];
    for slugifier in configs.iter() {
        for text in ["Hello, World!", "a\tb\nc", "~~~", "", "MiXed 123 Case"] {
            assert_eq!(
                slugifier.slugify(text),
                slugifier.slugify_ascii(text.as_bytes())
            );
        }
    }
}

#[test]
fn truncated_slug_is_within_the_limit() {
    for n in 0..30usize {
        let slugifier = Slugifier::new().truncate(n);
        let slug = slugifier.slugify("the quick brown fox jumps over");
        assert!(slug.len() <= n);
        assert!("the-quick-brown-fox-jumps-over".starts_with(&slug));
        if n >= 4 && n < 30 {
            let rest = &"the-quick-brown-fox-jumps-over"[slug.len()..];
            assert!(rest.starts_with('-'));
        }
    }
}

#[test]
fn file_names_hold_no_illegal_character() {
    let configs = [
        Slugifier::new(),
        Slugifier::new().sanitize_replacement("_"),
        Slugifier::new().sanitize_replacement(" - "),
    ];
    for slugifier in configs.iter() {
        for text in ["a/b\\c:d*e?f\"g<h>i|j", "///", " / x / ", "", "plain.txt"] {
            let name = slugifier.sanitize_filename(text);
            for c in ['/', '\\', ':', '*', '?', '"', '<', '>', '|'] {
                assert!(!name.contains(c));
            }
        }
    }
}

#[test]
fn replacement_at_an_end_stays_unless_whitespace() {
    let underscore = Slugifier::new().sanitize_replacement("_");
    assert_eq!(underscore.sanitize_filename("/a/"), "_a_");
    let space = Slugifier::new().sanitize_replacement(" ");
    assert_eq!(space.sanitize_filename("/a/"), "a");
    assert_eq!(space.sanitize_filename("a/b"), "a b");
}

#[test]
fn run_of_boundaries_takes_the_form_of_its_first() {
    let underscore = Slugifier::new().sanitize_replacement("_");
    assert_eq!(underscore.sanitize_filename("a /b"), "a b");
    assert_eq!(underscore.sanitize_filename("a/ b"), "a_b");
    assert_eq!(underscore.sanitize_filename("a:*?b"), "a_b");
    assert_eq!(underscore.sanitize_filename("a \t\n b"), "a b");
}

#[test]
fn whitespace_of_every_kind_becomes_a_space() {
    let slugifier = Slugifier::new();
    assert_eq!(slugifier.sanitize_filename("a\tb"), "a b");
    assert_eq!(slugifier.sanitize_filename("a\u{a0}b"), "a b");
    assert_eq!(slugifier.sanitize_filename("a\u{3000}b"), "a b");
    assert_eq!(slugifier.sanitize_filename("\n  name  \r\n"), "name");
}

#[test]
fn file_name_keeps_case_and_other_characters() {
    let slugifier = Slugifier::new();
    assert_eq!(slugifier.sanitize_filename("Ünï-code_Name(1).TXT"), "Ünï-code_Name(1).TXT");
    assert_eq!(slugifier.sanitize_filename("a<b"), "ab");
}

#[test]
fn apply_truncation_cuts_in_place() {
    let slugifier = Slugifier::new().truncate(10);
    let mut slug = String::from("alpha-beta-gamma");
    slugifier.apply_truncation(&mut slug);
    assert_eq!(slug, "alpha");
    let mut short = String::from("alpha");
    slugifier.apply_truncation(&mut short);
    assert_eq!(short, "alpha");
    let mut word = String::from("alphabetagamma");
    slugifier.apply_truncation(&mut word);
    assert_eq!(word, "alphabetag");
    let unlimited = Slugifier::new();
    let mut long = String::from("alpha-beta-gamma");
    unlimited.apply_truncation(&mut long);
    assert_eq!(long, "alpha-beta-gamma");
}

#[test]
fn apply_truncation_counts_characters() {
    let slugifier = Slugifier::new().separator("→").truncate(3);
    let mut slug = String::from("ab→cd");
    slugifier.apply_truncation(&mut slug);
    assert_eq!(slug, "ab");
}

#[test]
fn builders_change_one_setting_each() {
    let slugifier = Slugifier::new()
        .separator("_")
        .to_lowercase(false)
        .truncate(9)
        .sanitize_replacement("+");
    assert_eq!(slugifier.slugify("Ab Cd Ef Gh"), "Ab_Cd_Ef");
    assert_eq!(slugifier.sanitize_filename("Ab:Cd"), "Ab+Cd");
    let copy = slugifier.clone();
    assert_eq!(copy.slugify("Ab Cd Ef Gh"), "Ab_Cd_Ef");
    let fresh = Slugifier::default();
    assert_eq!(fresh.slugify("Ab Cd"), "ab-cd");
}

#[test]
fn classification_of_bytes() {
    for b in 0..=255u8 {
        assert_eq!(byte_is_alnum(b), b.is_ascii_alphanumeric());
        assert_eq!(emit(b, false), b as char);
        if b.is_ascii_alphanumeric() {
            assert_eq!(emit(b, true), b.to_ascii_lowercase() as char);
        }
    }
    assert_eq!(emit(b'Q', true), 'q');
    assert_eq!(emit(b'Q', false), 'Q');
}

#[test]
fn scan_joins_runs() {
    assert_eq!(scan(b"..Ab..cD..", &chars("+"), true), chars("ab+cd"));
    assert_eq!(scan(b"..Ab..cD..", &chars("<>"), false), chars("Ab<>cD"));
    assert_eq!(scan(b"", &chars("-"), true), chars(""));
}

#[test]
fn search_finds_the_last_place() {
    let s = chars("a-b-c-d");
    let sep = chars("-");
    assert!(stands_at(&s, &sep, 1));
    assert!(!stands_at(&s, &sep, 2));
    assert!(!stands_at(&s, &sep, 7));
    assert!(!stands_at(&s, &chars("a-b-c-d-e"), 0));
    assert_eq!(find_last(&s, &sep, 6), Some(5));
    assert_eq!(find_last(&s, &sep, 4), Some(3));
    assert_eq!(find_last(&s, &sep, 0), None);
    assert_eq!(find_last(&s, &chars("+"), 6), None);
    assert_eq!(find_last(&s, &chars(""), 3), Some(3));
}

#[test]
fn truncate_chars_follows_the_cut_point() {
    let mut s = chars("ab--cd--ef");
    truncate_chars(&mut s, &chars("--"), Some(7));
    assert_eq!(s, chars("ab"));
    let mut s = chars("ab--cd--ef");
    truncate_chars(&mut s, &chars("--"), Some(8));
    assert_eq!(s, chars("ab--cd"));
    let mut s = chars("ab--cd--ef");
    truncate_chars(&mut s, &chars("--"), Some(3));
    assert_eq!(s, chars("ab-"));
    let mut s = chars("ab--cd--ef");
    truncate_chars(&mut s, &chars("--"), Some(1));
    assert_eq!(s, chars("a"));
    let mut s = chars("ab--cd--ef");
    truncate_chars(&mut s, &chars("--"), None);
    assert_eq!(s, chars("ab--cd--ef"));
    let mut s = chars("ab--cd--ef");
    truncate_chars(&mut s, &chars("--"), Some(10));
    assert_eq!(s, chars("ab--cd--ef"));
}

#[test]
fn collapse_and_trim_compose() {
    let text = chars("  a  /  b  ");
    let raw = collapse(&text, &chars("_"));
    assert_eq!(raw, chars(" a b "));
    assert_eq!(trim(&raw), chars("a b"));
    assert_eq!(sanitize(&text, &chars("_")), chars("a b"));
    assert_eq!(trim(&chars("   ")), chars(""));
    assert_eq!(trim(&chars("")), chars(""));
    assert_eq!(trim(&chars("x")), chars("x"));
}

#[test]
fn strings_and_characters_convert_both_ways() {
    assert_eq!(chars_of("héllo→"), chars("héllo→"));
    assert_eq!(string_of(&chars("héllo→")), "héllo→");
    assert_eq!(string_of(&chars_of("")), "");
    assert_eq!(bytes_of("abc"), b"abc");
    let mut out = chars("ab");
    append_chars(&mut out, &chars("cd"));
    assert_eq!(out, chars("abcd"));
}
