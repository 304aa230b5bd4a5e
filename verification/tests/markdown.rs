use cobblestone::markdown::{inline_md, parse_markdown};

// ── inline_md ─────────────────────────────────────────────────────────

#[test]
fn inline_bold_star() {
    assert_eq!(inline_md("**bold**"), "<strong>bold</strong>");
}

#[test]
fn inline_bold_underscore() {
    assert_eq!(inline_md("__bold__"), "<strong>bold</strong>");
}

#[test]
fn inline_italic_star() {
    assert_eq!(inline_md("*italic*"), "<em>italic</em>");
}

#[test]
fn inline_italic_underscore() {
    assert_eq!(inline_md("_italic_"), "<em>italic</em>");
}

#[test]
fn inline_bold_italic() {
    assert_eq!(inline_md("***both***"), "<strong><em>both</em></strong>");
}

#[test]
fn inline_strikethrough() {
    assert_eq!(inline_md("~~gone~~"), "<del>gone</del>");
}

#[test]
fn inline_code() {
    assert_eq!(inline_md("`code`"), "<code>code</code>");
}

#[test]
fn inline_link() {
    let out = inline_md("[text](https://example.com)");
    assert!(out.contains(r#"href="https://example.com""#));
    assert!(out.contains("text"));
}

#[test]
fn inline_image() {
    let out = inline_md("![alt text](img.png)");
    assert!(out.contains("<img"));
    assert!(out.contains(r#"src="img.png""#));
    assert!(out.contains(r#"alt="alt text""#));
}

#[test]
fn inline_plain_text_unchanged() {
    assert_eq!(inline_md("hello world"), "hello world");
}

#[test]
fn inline_exact_forms() {
    assert_eq!(
        inline_md("[t](u\"x)"),
        "<a href=\"u&quot;x\" target=\"_blank\">t</a>"
    );
    assert_eq!(
        inline_md("![a'b](p.png)"),
        "<img src=\"p.png\" alt=\"a&#x27;b\" style=\"max-width:100%\">"
    );
    assert_eq!(inline_md("**a *b* c**"), "<strong>a <em>b</em> c</strong>");
    assert_eq!(inline_md("`**not bold**`"), "<code>**not bold**</code>");
    assert_eq!(inline_md("*open only"), "*open only");
    assert_eq!(inline_md("a ~ b ~~ c"), "a ~ b ~~ c");
    assert_eq!(inline_md("[no link] (x)"), "[no link] (x)");
    assert_eq!(inline_md(""), "");
}

// ── parse_markdown ────────────────────────────────────────────────────

#[test]
fn block_h1() {
    assert!(parse_markdown("# Title").contains("<h1>"));
    assert!(parse_markdown("# Title").contains("</h1>"));
}

#[test]
fn block_h2() {
    assert!(parse_markdown("## Section").contains("<h2>"));
}

#[test]
fn block_hr() {
    assert!(parse_markdown("---").contains("<hr>"));
    assert!(parse_markdown("***").contains("<hr>"));
}

#[test]
fn block_unordered_list() {
    let out = parse_markdown("- item one\n- item two");
    assert!(out.contains("<ul>"));
    assert!(out.contains("<li>item one</li>"));
    assert!(out.contains("<li>item two</li>"));
}

#[test]
fn block_ordered_list() {
    let out = parse_markdown("1. first\n2. second");
    assert!(out.contains("<ol>"));
    assert!(out.contains("<li>first</li>"));
}

#[test]
fn block_task_list_unchecked() {
    let out = parse_markdown("- [ ] task");
    assert!(out.contains("task-item"));
    assert!(!out.contains("checked"));
}

#[test]
fn block_task_list_checked() {
    let out = parse_markdown("- [x] done");
    assert!(out.contains("checked"));
    assert!(out.contains("done"));
}

#[test]
fn block_blockquote() {
    let out = parse_markdown("> quoted text");
    assert!(out.contains("<blockquote>"));
    assert!(out.contains("quoted text"));
}

#[test]
fn block_code_fence() {
    let out = parse_markdown("```rust\nfn main() {}\n```");
    assert!(out.contains("<pre>"));
    assert!(out.contains("<code"));
    assert!(out.contains("fn main()"));
}

#[test]
fn block_table() {
    let md = "| A | B |\n|---|---|\n| 1 | 2 |";
    let out = parse_markdown(md);
    assert!(out.contains("<table>"));
    assert!(out.contains("<th>A</th>"));
    assert!(out.contains("<td>1</td>"));
}

#[test]
fn block_paragraph() {
    let out = parse_markdown("Hello world");
    assert!(out.contains("<p>Hello world</p>"));
}

#[test]
fn empty_input() {
    assert_eq!(parse_markdown(""), "");
}

#[test]
fn xss_in_content_is_escaped() {
    let out = parse_markdown("<script>alert(1)</script>");
    assert!(!out.contains("<script>"));
    assert!(out.contains("&lt;script&gt;"));
}

#[test]
fn blocks_exact_output() {
    assert_eq!(parse_markdown("# Title"), "<h1>Title</h1>\n");
    assert_eq!(parse_markdown("####### seven"), "<p>####### seven</p>\n");
    assert_eq!(parse_markdown("a\nb\n\nc"), "<p>a b</p>\n<br>\n<p>c</p>\n");
    assert_eq!(
        parse_markdown("```py\nx < 1\n"),
        "<pre><code class=\"lang-py\">x &lt; 1\n</code></pre>\n"
    );
    assert_eq!(
        parse_markdown("> a\n>\n> > b"),
        "<blockquote><p>a</p>\n<br>\n<blockquote><p>b</p>\n</blockquote>\n</blockquote>\n"
    );
    assert_eq!(
        parse_markdown("- [X] Done\n* plain"),
        "<ul>\n<li class=\"task-item done\"><input type=\"checkbox\" checked disabled> Done</li>\n<li>plain</li>\n</ul>\n"
    );
    assert_eq!(parse_markdown("12. x\n3. y"), "<ol>\n<li>x</li>\n<li>y</li>\n</ol>\n");
    assert_eq!(
        parse_markdown("a | b\n:-|-:\nc | d\nend"),
        "<table>\n<thead>\n<tr><th>a</th><th>b</th></tr>\n</thead>\n<tbody>\n<tr><td>c</td><td>d</td></tr>\n</tbody>\n</table>\n<p>end</p>\n"
    );
    assert_eq!(parse_markdown("  ___  "), "<hr>\n");
    assert_eq!(parse_markdown("-- x"), "<p>-- x</p>\n");
}

#[test]
fn fence_language_is_escaped() {
    let out = parse_markdown("```<script>\"x\nbody\n```");
    assert!(!out.contains("<script"));
    assert_eq!(out, "<pre><code class=\"lang-&lt;script&gt;&quot;x\">body\n</code></pre>\n");
    assert_eq!(parse_markdown("```rust\nfn\n```"), "<pre><code class=\"lang-rust\">fn\n</code></pre>\n");
}
