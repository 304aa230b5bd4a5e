use cobblestone::slug::{slugify, resolve_note_id};
use cobblestone::tags::{extract_tags, extract_wikilinks};
use cobblestone::text::{char_is_whitespace, decimal};
use cobblestone::error::ErrorKind;
use cobblestone::content::{set_content_title, title_from_content, is_created_stamp};
use cobblestone::store::Store;

fn chars(s: &str) -> Vec<char> {
    s.chars().collect()
}

fn text(v: &[char]) -> String {
    v.iter().collect()
}

// ── slugify ────────────────────────────────────────────────────────────

#[test]
fn slugify_basic() {
    assert_eq!(slugify("Hello World"), "hello-world");
}

#[test]
fn slugify_special_chars() {
    assert_eq!(slugify("Hello, World!"), "hello-world");
}

#[test]
fn slugify_empty_string() {
    assert_eq!(slugify(""), "");
}

#[test]
fn slugify_already_a_slug() {
    assert_eq!(slugify("hello-world"), "hello-world");
}

#[test]
fn slugify_numbers() {
    assert_eq!(slugify("Note 123"), "note-123");
}

#[test]
fn slugify_consecutive_spaces() {
    assert_eq!(slugify("a   b"), "a-b");
}

#[test]
fn slugify_leading_trailing_dashes() {
    assert_eq!(slugify("  hello  "), "hello");
}

#[test]
fn slugify_only_special_chars() {
    assert_eq!(slugify("!!!"), "");
}

#[test]
fn slugify_mixed_case() {
    assert_eq!(slugify("MyCamelCase"), "mycamelcase");
}

#[test]
fn slugify_hyphen_preserved() {
    assert_eq!(slugify("my-note"), "my-note");
}

#[test]
fn slugify_unicode_letters_kept_and_lowered() {
    assert_eq!(slugify("Ünïcode Straße"), "ünïcode-straße");
    assert_eq!(slugify("--a--b--"), "a-b");
}

// ── extract_tags ───────────────────────────────────────────────────────

#[test]
fn tags_basic() {
    let tags = extract_tags("Hello #rust #programming world");
    assert!(tags.contains(&"rust".to_string()));
    assert!(tags.contains(&"programming".to_string()));
}

#[test]
fn tags_empty_content() {
    assert!(extract_tags("No tags here").is_empty());
}

#[test]
fn tags_heading_not_a_tag() {
    assert!(extract_tags("# My Heading").is_empty());
    assert!(extract_tags("## Section").is_empty());
}

#[test]
fn tags_deduplication() {
    let tags = extract_tags("word #rust another #rust");
    assert_eq!(tags.iter().filter(|t| *t == "rust").count(), 1);
}

#[test]
fn tags_strip_trailing_punctuation() {
    let tags = extract_tags("Check out #rust, it's great");
    assert!(tags.contains(&"rust".to_string()), "got: {tags:?}");
    assert!(!tags.iter().any(|t| t.contains(',')));
}

#[test]
fn tags_multiline() {
    let content = "line one #alpha\nline two #beta\n# Heading #notag";
    let tags = extract_tags(content);
    assert!(tags.contains(&"alpha".to_string()));
    assert!(tags.contains(&"beta".to_string()));
    assert!(!tags.contains(&"notag".to_string()));
}

#[test]
fn tags_exact_order_and_edge_cases() {
    assert_eq!(
        extract_tags("a #b2 #b2 ##double #x-y_z! # #, #-ok\n#heading #no"),
        vec!["b2".to_string(), "double".to_string(), "x-y_z".to_string(), "-ok".to_string()]
    );
    assert_eq!(extract_tags("text\r\nmore #win\r\n"), vec!["win".to_string()]);
}

#[test]
fn tags_need_an_alphanumeric() {
    assert!(extract_tags("a #-- b #__ c #-_-").is_empty());
    assert_eq!(
        extract_tags("a #-a- #_x #--!"),
        vec!["-a-".to_string(), "_x".to_string()]
    );
    assert_eq!(extract_tags("x #é #日本 #—"), vec!["é".to_string(), "日本".to_string()]);
}

// ── wikilinks ─────────────────────────────────────────────────────────

#[test]
fn extract_wikilinks_dedupes() {
    let links = extract_wikilinks("See [[Foo]] and [[Foo]] again.");
    assert_eq!(links, vec!["Foo".to_string()]);
}

#[test]
fn wikilinks_trimmed_empty_skipped_unclosed_stops() {
    assert_eq!(
        extract_wikilinks("[[ A ]] [[]] [[  ]] [[B]] [[C"),
        vec!["A".to_string(), "B".to_string()]
    );
    assert!(extract_wikilinks("no links").is_empty());
}

// ── ids and paths ─────────────────────────────────────────────────────

#[test]
fn resolve_single_segment_is_slugified() {
    assert_eq!(resolve_note_id("  My Note ").unwrap(), "my-note");
    assert_eq!(resolve_note_id("projects\\todo").unwrap(), "projects/todo");
    assert_eq!(resolve_note_id("a/B C").unwrap(), "a/B C");
}

#[test]
fn resolve_errors() {
    let e = resolve_note_id("   ").unwrap_err();
    assert_eq!(e.kind, ErrorKind::EmptyNoteId);
    assert_eq!(e.message(), "Note id cannot be empty");
    let e = resolve_note_id("/abs").unwrap_err();
    assert_eq!(e.kind, ErrorKind::AbsoluteNoteId);
    assert_eq!(e.message(), "Note id must be relative");
    let e = resolve_note_id("a/../b").unwrap_err();
    assert_eq!(e.kind, ErrorKind::InvalidPathComponent);
    assert_eq!(e.message(), "Invalid path component in 'a/../b'");
    let e = resolve_note_id("a//b").unwrap_err();
    assert_eq!(e.kind, ErrorKind::InvalidPathComponent);
    let e = resolve_note_id("!!!").unwrap_err();
    assert_eq!(e.kind, ErrorKind::EmptySlug);
    assert_eq!(
        e.message(),
        "Note name '!!!' produces an empty slug — use alphanumeric characters."
    );
}

#[test]
fn note_id_from_title_cases() {
    let store = Store::with_root("/vault".to_string());
    assert_eq!(store.note_id_from_title(None, "  Hello World ").unwrap(), "hello-world");
    assert_eq!(store.note_id_from_title(Some("  "), "Hello").unwrap(), "hello");
    assert_eq!(store.note_id_from_title(Some("ideas/sub"), "Big Idea").unwrap(), "ideas/sub/big-idea");
    assert_eq!(store.note_id_from_title(Some("/abs"), "x").unwrap_err().kind, ErrorKind::AbsoluteFolderPath);
    assert_eq!(store.note_id_from_title(Some("a"), "???").unwrap_err().kind, ErrorKind::EmptySlug);
}

// ── whitespace and numbers ───────────────────────────────────────────

#[test]
fn whitespace_class_matches_std_for_every_char() {
    for n in 0u32..=0x10FFFF {
        if let Some(c) = char::from_u32(n) {
            assert_eq!(char_is_whitespace(c), c.is_whitespace(), "U+{n:04X}");
        }
    }
}

#[test]
fn decimal_writes_numbers() {
    assert_eq!(text(&decimal(0)), "0");
    assert_eq!(text(&decimal(7)), "7");
    assert_eq!(text(&decimal(1234567890)), "1234567890");
    assert_eq!(text(&decimal(u64::MAX)), u64::MAX.to_string());
}

// ── note text ─────────────────────────────────────────────────────────

#[test]
fn set_content_title_replaces_or_adds_heading() {
    assert_eq!(text(&set_content_title(&chars("# Old\n\nBody"), &chars("New"))), "# New\n\nBody");
    assert_eq!(text(&set_content_title(&chars("# Old"), &chars("New"))), "# New");
    assert_eq!(text(&set_content_title(&chars("Body only"), &chars("T"))), "# T\n\nBody only");
    assert_eq!(text(&set_content_title(&chars(""), &chars("T"))), "# T\n\n");
}

#[test]
fn title_from_content_first_h1_or_fallback() {
    assert_eq!(title_from_content("intro\n# Title  \n# Other", "slug"), "Title  ");
    assert_eq!(title_from_content("# # Nested", "slug"), "Nested");
    assert_eq!(title_from_content("no heading", "slug"), "slug");
}

#[test]
fn created_stamp_recognized() {
    assert!(is_created_stamp(&chars("  *Created: 2026-05-27*  ")));
    assert!(!is_created_stamp(&chars("*Created: 2026-05-27")));
    assert!(!is_created_stamp(&chars("Created: x*")));
}

#[test]
fn slugify_ascii_lowercases_and_dashes() {
    assert_eq!(slugify("My Note"), "my-note");
    assert_eq!(slugify("ABC_def 09"), "abc-def-09");
}
