use cobblestone::cli::{
    confirms, dated_note_text, listing_target, new_note_request, new_note_text, tag_line,
};
use cobblestone::slug::slug_from_lowercase;

fn chars(s: &str) -> Vec<char> {
    s.chars().collect()
}

fn text(v: &[char]) -> String {
    v.iter().collect()
}

#[test]
fn slug_from_lowercase_joins_runs_with_single_dashes() {
    assert_eq!(text(&slug_from_lowercase(&chars("hello, world!"))), "hello-world");
    assert_eq!(text(&slug_from_lowercase(&chars("--a--b--"))), "a-b");
    assert_eq!(text(&slug_from_lowercase(&chars("café 2"))), "café-2");
    assert_eq!(text(&slug_from_lowercase(&chars("?!"))), "");
    assert_eq!(text(&slug_from_lowercase(&chars(""))), "");
}

#[test]
fn new_note_text_has_heading_and_date() {
    assert_eq!(new_note_text("My Note", "2026-01-02"), "# My Note\n\n*Created: 2026-01-02*\n\n");
    assert_eq!(new_note_text("", ""), "# \n\n*Created: *\n\n");
}

#[test]
fn dated_note_text_stamps_a_date() {
    let t = dated_note_text("T");
    assert!(t.starts_with("# T\n\n*Created: "));
    assert!(t.ends_with("*\n\n"));
    let date = &t["# T\n\n*Created: ".len()..t.len() - "*\n\n".len()];
    assert_eq!(date.len(), 10);
    assert_eq!(&date[4..5], "-");
    assert_eq!(&date[7..8], "-");
}

#[test]
fn confirms_only_y() {
    assert!(confirms("y"));
    assert!(confirms("Y"));
    assert!(confirms("  y \n"));
    assert!(!confirms("yes"));
    assert!(!confirms("n"));
    assert!(!confirms(""));
}

#[test]
fn tag_line_hashes_and_spaces_tags() {
    let tags = vec!["rust".to_string(), "notes".to_string()];
    assert_eq!(tag_line(&tags), "#rust  #notes");
    assert_eq!(tag_line(&vec!["one".to_string()]), "#one");
    assert_eq!(tag_line(&Vec::new()), "");
}

#[test]
fn listing_target_home_or_vault() {
    assert_eq!(listing_target("~/docs", Some("/home/u"), "/vault"), Some("/home/u/docs".to_string()));
    assert_eq!(listing_target("/etc", Some("/home/u"), "/vault"), Some("/etc".to_string()));
    assert_eq!(listing_target("/a~b", Some("/h"), "/vault"), Some("/a/hb".to_string()));
    assert_eq!(listing_target("~/docs", None, "/vault"), None);
    assert_eq!(listing_target("projects", None, "/vault"), Some("/vault/projects".to_string()));
}

#[test]
fn new_note_request_trims_and_slugs() {
    assert_eq!(
        new_note_request("  My Big Idea  "),
        Some(("my-big-idea".to_string(), "My Big Idea".to_string()))
    );
    assert_eq!(new_note_request("   "), None);
    assert_eq!(new_note_request(""), None);
    assert_eq!(new_note_request("!!!"), Some((String::new(), "!!!".to_string())));
}
