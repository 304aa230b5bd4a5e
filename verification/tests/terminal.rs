use cobblestone::terminal::{render_md, render_to_terminal, shown_parts, MdLine};

#[test]
fn render_does_not_panic_on_empty() {
    render_to_terminal("");
}

#[test]
fn render_does_not_panic_on_all_variants() {
    let md = "# H1\n## H2\n### H3\n- [ ] todo\n- [x] done\n- item\n* star\n> quote\nplain";
    render_to_terminal(md);
}

#[test]
fn render_to_terminal_lines() {
    let md = "# H1\n## H2\n### H3\n- [ ] todo\n- [x] done\n- item\n* star\n> quote\nplain";
    assert_eq!(
        render_to_terminal(md),
        vec![
            "\x1b[1;33mH1\x1b[0m".to_string(),
            "\x1b[1;36mH2\x1b[0m".to_string(),
            "\x1b[1;32mH3\x1b[0m".to_string(),
            "  \x1b[31m☐\x1b[0m  todo".to_string(),
            "  \x1b[32m✓\x1b[0m  \x1b[9mdone\x1b[0m".to_string(),
            "  \x1b[34m•\x1b[0m  item".to_string(),
            "  \x1b[34m•\x1b[0m  star".to_string(),
            "  \x1b[90m│\x1b[0m  \x1b[3mquote\x1b[0m".to_string(),
            "plain".to_string(),
        ]
    );
    assert!(render_to_terminal("").is_empty());
}

fn kinds(content: &str) -> Vec<String> {
    render_md(content)
        .iter()
        .map(|l| match l {
            MdLine::Fence(s) => format!("fence:{s}"),
            MdLine::Code(s) => format!("code:{s}"),
            MdLine::H1(s) => format!("h1:{s}"),
            MdLine::H2(s) => format!("h2:{s}"),
            MdLine::H3(s) => format!("h3:{s}"),
            MdLine::Todo(s) => format!("todo:{s}"),
            MdLine::Done(s) => format!("done:{s}"),
            MdLine::Bullet(s) => format!("bullet:{s}"),
            MdLine::Quote(s) => format!("quote:{s}"),
            MdLine::Rule => "rule".to_string(),
            MdLine::Plain(s) => format!("plain:{s}"),
        })
        .collect()
}

#[test]
fn viewer_lines_follow_fences() {
    assert_eq!(
        kinds("# T\n```\n# not a heading\n```\n---\n- - -\n-\u{3000}\n--\nx"),
        vec![
            "h1:T",
            "fence:```",
            "code:  # not a heading",
            "fence:```",
            "rule",
            "bullet:- -",
            "rule",
            "plain:--",
            "plain:x",
        ]
    );
}

#[test]
fn shown_parts_marks_and_text() {
    let ls = render_md("# T\n- [ ] a\n- [x] b\n- c\n> q\n---\nplain\n```\ncode\n```");
    let parts: Vec<(String, String)> = ls.iter().map(shown_parts).collect();
    assert_eq!(parts[0], (String::new(), "T".to_string()));
    assert_eq!(parts[1], ("  ☐ ".to_string(), "a".to_string()));
    assert_eq!(parts[2], ("  ✓ ".to_string(), "b".to_string()));
    assert_eq!(parts[3], ("  • ".to_string(), "c".to_string()));
    assert_eq!(parts[4], ("  │ ".to_string(), "q".to_string()));
    assert_eq!(parts[5], (String::new(), "─".repeat(40)));
    assert_eq!(parts[6], (String::new(), "plain".to_string()));
    assert_eq!(parts[7], (String::new(), "```".to_string()));
    assert_eq!(parts[8], (String::new(), "  code".to_string()));
    assert_eq!(parts.len(), 10);
}
