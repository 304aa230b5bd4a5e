//! Markdown for the terminal: how each line of a note is shown, in the
//! interactive viewer (as styled lines) and when printed (with ANSI colour
//! codes).

use vstd::prelude::*;
use crate::text::{
    lines_spec, trim_spec, is_prefix, seqs_of, chars_of, string_of, lines, trim, concat, text,
    starts_with,
};

verus! {

broadcast use vstd::string::group_string_axioms;

/// How many bytes UTF-8 takes for `c`.
pub open spec fn utf8_len(c: char) -> nat {
    let n = c as u32;
    if n < 0x80 {
        1
    } else if n < 0x800 {
        2
    } else if n < 0x10000 {
        3
    } else {
        4
    }
}

/// How many bytes UTF-8 takes for the text.
pub open spec fn byte_len(s: Seq<char>) -> nat
    decreases s.len(),
{
    if s.len() == 0 {
        0
    } else {
        byte_len(s.drop_last()) + utf8_len(s.last())
    }
}

/// The text with every `-` at either end removed.
pub open spec fn trim_dashes(s: Seq<char>) -> Seq<char>
    decreases s.len(),
{
    if s.len() > 0 && s[0] == '-' {
        trim_dashes(s.drop_first())
    } else if s.len() > 0 && s.last() == '-' {
        trim_dashes(s.drop_last())
    } else {
        s
    }
}

/// The text after `p`, when the text starts with `p`.
pub open spec fn after(p: Seq<char>, s: Seq<char>) -> Seq<char> {
    s.skip(p.len() as int)
}

/// How the viewer shows one line of a note.
#[derive(Debug)]
pub enum MdLine {
    /// A code fence line, as it is.
    Fence(String),
    /// A line inside a code fence, indented by two spaces.
    Code(String),
    /// A `# ` heading's text.
    H1(String),
    /// A `## ` heading's text.
    H2(String),
    /// A `### ` heading's text.
    H3(String),
    /// An open task's text.
    Todo(String),
    /// A ticked task's text.
    Done(String),
    /// A bullet item's text.
    Bullet(String),
    /// A quoted line's text.
    Quote(String),
    /// A horizontal rule.
    Rule,
    /// Any other line, as it is.
    Plain(String),
}

/// The mathematical value of a shown line: its kind and its text.
pub type MdLineView = (u8, Seq<char>);

impl View for MdLine {
    type V = MdLineView;

    open spec fn view(&self) -> MdLineView {
        match self {
            MdLine::Fence(s) => (0, s@),
            MdLine::Code(s) => (1, s@),
            MdLine::H1(s) => (2, s@),
            MdLine::H2(s) => (3, s@),
            MdLine::H3(s) => (4, s@),
            MdLine::Todo(s) => (5, s@),
            MdLine::Done(s) => (6, s@),
            MdLine::Bullet(s) => (7, s@),
            MdLine::Quote(s) => (8, s@),
            MdLine::Rule => (9, Seq::<char>::empty()),
            MdLine::Plain(s) => (10, s@),
        }
    }
}

/// The views of shown lines.
pub open spec fn md_lines_view(v: Seq<MdLine>) -> Seq<MdLineView> {
    v.map_values(|l: MdLine| l@)
}

/// How a line outside a code fence is shown; the first pattern that fits
/// decides.
pub open spec fn classify(s: Seq<char>) -> MdLineView {
    if is_prefix("# "@, s) {
        (2, after("# "@, s))
    } else if is_prefix("## "@, s) {
        (3, after("## "@, s))
    } else if is_prefix("### "@, s) {
        (4, after("### "@, s))
    } else if is_prefix("- [ ] "@, s) {
        (5, after("- [ ] "@, s))
    } else if is_prefix("- [x] "@, s) {
        (6, after("- [x] "@, s))
    } else if is_prefix("- [X] "@, s) {
        (6, after("- [X] "@, s))
    } else if is_prefix("- "@, s) {
        (7, after("- "@, s))
    } else if is_prefix("* "@, s) {
        (7, after("* "@, s))
    } else if is_prefix("> "@, s) {
        (8, after("> "@, s))
    } else if trim_spec(trim_dashes(s)).len() == 0 && byte_len(s) >= 3 {
        (9, Seq::<char>::empty())
    } else {
        (10, s)
    }
}

/// How the viewer shows lines from `i` on, given whether line `i` lies
/// inside a code fence: a line starting with three backquotes is shown as
/// it is and opens or closes a fence.
pub open spec fn render_from(ls: Seq<Seq<char>>, i: int, in_code: bool) -> Seq<MdLineView>
    decreases ls.len() - i,
{
    if i < 0 || i >= ls.len() {
        Seq::<MdLineView>::empty()
    } else {
        let s = ls[i];
        if is_prefix("```"@, s) {
            seq![(0u8, s)] + render_from(ls, i + 1, !in_code)
        } else if in_code {
            seq![(1u8, "  "@ + s)] + render_from(ls, i + 1, in_code)
        } else {
            seq![classify(s)] + render_from(ls, i + 1, in_code)
        }
    }
}

/// How the text is printed: each line with its ANSI colour codes.
pub open spec fn ansi_line(s: Seq<char>) -> Seq<char> {
    if is_prefix("# "@, s) {
        "\x1b[1;33m"@ + after("# "@, s) + "\x1b[0m"@
    } else if is_prefix("## "@, s) {
        "\x1b[1;36m"@ + after("## "@, s) + "\x1b[0m"@
    } else if is_prefix("### "@, s) {
        "\x1b[1;32m"@ + after("### "@, s) + "\x1b[0m"@
    } else if is_prefix("- [ ] "@, s) {
        "  \x1b[31m☐\x1b[0m  "@ + after("- [ ] "@, s)
    } else if is_prefix("- [x] "@, s) {
        "  \x1b[32m✓\x1b[0m  \x1b[9m"@ + after("- [x] "@, s) + "\x1b[0m"@
    } else if is_prefix("- [X] "@, s) {
        "  \x1b[32m✓\x1b[0m  \x1b[9m"@ + after("- [X] "@, s) + "\x1b[0m"@
    } else if is_prefix("- "@, s) {
        "  \x1b[34m•\x1b[0m  "@ + after("- "@, s)
    } else if is_prefix("* "@, s) {
        "  \x1b[34m•\x1b[0m  "@ + after("* "@, s)
    } else if is_prefix("> "@, s) {
        "  \x1b[90m│\x1b[0m  \x1b[3m"@ + after("> "@, s) + "\x1b[0m"@
    } else {
        s
    }
}

// ---------------------------------------------------------------------------
// Executable
// ---------------------------------------------------------------------------

/// The text after `p` when `s` starts with it.
fn strip_prefix(s: &Vec<char>, p: &str) -> (res: Option<Vec<char>>)
    ensures
        match res {
            Some(t) => is_prefix(p@, s@) && t@ == after(p@, s@),
            None => !is_prefix(p@, s@),
        },
{
    let pv = text(p);
    if starts_with(s, &pv) {
        let t = crate::text::slice_of(s, pv.len(), s.len());
        assert(t@ =~= s@.skip(pv.len() as int));
        Some(t)
    } else {
        None
    }
}

fn byte_len_exec(s: &Vec<char>) -> (res: usize)
    ensures
        res == byte_len(s@) || (res == 3 && byte_len(s@) >= 3),
{
    let mut total: usize = 0;
    let mut i: usize = 0;
    while i < s.len() && total < 3
        invariant
            i <= s.len(),
            total == byte_len(s@.take(i as int)),
        decreases s.len() - i,
    {
        let n = s[i] as u32;
        let w: usize = if n < 0x80 {
            1
        } else if n < 0x800 {
            2
        } else if n < 0x10000 {
            3
        } else {
            4
        };
        assert(s@.take(i + 1).drop_last() =~= s@.take(i as int));
        total = total + w;
        i = i + 1;
    }
    proof {
        lemma_byte_len_grows(s@, i as int);
    }
    if total >= 3 {
        3
    } else {
        assert(s@.take(s.len() as int) =~= s@);
        total
    }
}

proof fn lemma_byte_len_grows(s: Seq<char>, i: int)
    requires
        0 <= i <= s.len(),
    ensures
        byte_len(s) >= byte_len(s.take(i)),
    decreases s.len() - i,
{
    if i < s.len() {
        lemma_byte_len_grows(s, i + 1);
        assert(s.take(i + 1).drop_last() =~= s.take(i));
    } else {
        assert(s.take(i) =~= s);
    }
}

fn trim_dashes_exec(s: &Vec<char>) -> (res: Vec<char>)
    ensures
        res@ == trim_dashes(s@),
{
    let mut a: usize = 0;
    let mut b: usize = s.len();
    assert(s@.subrange(0, s.len() as int) =~= s@);
    while a < b && (s[a] == '-' || s[b - 1] == '-')
        invariant
            a <= b <= s.len(),
            trim_dashes(s@) == trim_dashes(s@.subrange(a as int, b as int)),
        decreases b - a,
    {
        let ghost t = s@.subrange(a as int, b as int);
        if s[a] == '-' {
            assert(t[0] == s@[a as int]);
            assert(t.drop_first() =~= s@.subrange(a + 1, b as int));
            a = a + 1;
        } else {
            assert(t[0] == s@[a as int]);
            assert(t.last() == s@[b - 1]);
            assert(t.drop_last() =~= s@.subrange(a as int, b - 1));
            b = b - 1;
        }
    }
    proof {
        let t = s@.subrange(a as int, b as int);
        if a < b {
            assert(t[0] == s@[a as int]);
            assert(t.last() == s@[b - 1]);
        }
    }
    crate::text::slice_of(s, a, b)
}

fn classify_exec(s: &Vec<char>) -> (res: MdLine)
    ensures
        res@ == classify(s@),
{
    if let Some(t) = strip_prefix(s, "# ") {
        return MdLine::H1(string_of(&t));
    }
    if let Some(t) = strip_prefix(s, "## ") {
        return MdLine::H2(string_of(&t));
    }
    if let Some(t) = strip_prefix(s, "### ") {
        return MdLine::H3(string_of(&t));
    }
    if let Some(t) = strip_prefix(s, "- [ ] ") {
        return MdLine::Todo(string_of(&t));
    }
    if let Some(t) = strip_prefix(s, "- [x] ") {
        return MdLine::Done(string_of(&t));
    }
    if let Some(t) = strip_prefix(s, "- [X] ") {
        return MdLine::Done(string_of(&t));
    }
    if let Some(t) = strip_prefix(s, "- ") {
        return MdLine::Bullet(string_of(&t));
    }
    if let Some(t) = strip_prefix(s, "* ") {
        return MdLine::Bullet(string_of(&t));
    }
    if let Some(t) = strip_prefix(s, "> ") {
        return MdLine::Quote(string_of(&t));
    }
    if trim(&trim_dashes_exec(s)).len() == 0 && byte_len_exec(s) >= 3 {
        return MdLine::Rule;
    }
    MdLine::Plain(string_of(s))
}

/// How the interactive viewer shows each line of a note.
pub fn render_md(content: &str) -> (res: Vec<MdLine>)
    ensures
        md_lines_view(res@) == render_from(lines_spec(content@), 0, false),
{
    let ls = lines(&chars_of(content));
    let mut out: Vec<MdLine> = Vec::new();
    let mut in_code = false;
    let mut i: usize = 0;
    while i < ls.len()
        invariant
            i <= ls.len(),
            seqs_of(ls@) == lines_spec(content@),
            md_lines_view(out@) + render_from(seqs_of(ls@), i as int, in_code) == render_from(
                seqs_of(ls@),
                0,
                false,
            ),
        decreases ls.len() - i,
    {
        let s = &ls[i];
        assert(s@ == seqs_of(ls@)[i as int]);
        let ghost before = md_lines_view(out@);
        let ghost was = in_code;
        let line = if starts_with(s, &text("```")) {
            in_code = !in_code;
            MdLine::Fence(string_of(s))
        } else if in_code {
            MdLine::Code(string_of(&concat(&text("  "), s)))
        } else {
            classify_exec(s)
        };
        let ghost lv = line@;
        out.push(line);
        assert(md_lines_view(out@) =~= before.push(lv));
        assert(render_from(seqs_of(ls@), i as int, was) == seq![lv] + render_from(
            seqs_of(ls@),
            i + 1,
            in_code,
        ));
        assert(before.push(lv) + render_from(seqs_of(ls@), i + 1, in_code) =~= before + (seq![lv]
            + render_from(seqs_of(ls@), i + 1, in_code)));
        i = i + 1;
    }
    assert(md_lines_view(out@) + render_from(seqs_of(ls@), i as int, in_code) =~= md_lines_view(out@));
    out
}

fn ansi_exec(s: &Vec<char>) -> (res: Vec<char>)
    ensures
        res@ == ansi_line(s@),
{
    if let Some(t) = strip_prefix(s, "# ") {
        return concat(&concat(&text("\x1b[1;33m"), &t), &text("\x1b[0m"));
    }
    if let Some(t) = strip_prefix(s, "## ") {
        return concat(&concat(&text("\x1b[1;36m"), &t), &text("\x1b[0m"));
    }
    if let Some(t) = strip_prefix(s, "### ") {
        return concat(&concat(&text("\x1b[1;32m"), &t), &text("\x1b[0m"));
    }
    if let Some(t) = strip_prefix(s, "- [ ] ") {
        return concat(&text("  \x1b[31m☐\x1b[0m  "), &t);
    }
    if let Some(t) = strip_prefix(s, "- [x] ") {
        return concat(&concat(&text("  \x1b[32m✓\x1b[0m  \x1b[9m"), &t), &text("\x1b[0m"));
    }
    if let Some(t) = strip_prefix(s, "- [X] ") {
        return concat(&concat(&text("  \x1b[32m✓\x1b[0m  \x1b[9m"), &t), &text("\x1b[0m"));
    }
    if let Some(t) = strip_prefix(s, "- ") {
        return concat(&text("  \x1b[34m•\x1b[0m  "), &t);
    }
    if let Some(t) = strip_prefix(s, "* ") {
        return concat(&text("  \x1b[34m•\x1b[0m  "), &t);
    }
    if let Some(t) = strip_prefix(s, "> ") {
        return concat(&concat(&text("  \x1b[90m│\x1b[0m  \x1b[3m"), &t), &text("\x1b[0m"));
    }
    s.clone()
}

/// Simple Markdown → ANSI terminal renderer: the lines to print for a
/// note, headings in bold colour, task boxes, bullets and quote bars.
pub fn render_to_terminal(content: &str) -> (res: Vec<String>)
    ensures
        res@.map_values(|l: String| l@) == lines_spec(content@).map_values(|s: Seq<char>| ansi_line(s)),
{
    let ls = lines(&chars_of(content));
    let mut out: Vec<String> = Vec::new();
    let mut i: usize = 0;
    while i < ls.len()
        invariant
            i <= ls.len(),
            seqs_of(ls@) == lines_spec(content@),
            out@.map_values(|l: String| l@) == seqs_of(ls@).take(i as int).map_values(
                |s: Seq<char>| ansi_line(s),
            ),
        decreases ls.len() - i,
    {
        assert(ls@[i as int]@ == seqs_of(ls@)[i as int]);
        let ghost before = out@.map_values(|l: String| l@);
        let line = string_of(&ansi_exec(&ls[i]));
        out.push(line);
        assert(out@.map_values(|l: String| l@) =~= before.push(line@));
        assert(seqs_of(ls@).take(i + 1).map_values(|s: Seq<char>| ansi_line(s)) =~= seqs_of(
            ls@,
        ).take(i as int).map_values(|s: Seq<char>| ansi_line(s)).push(ansi_line(seqs_of(ls@)[i as int])));
        i = i + 1;
    }
    assert(seqs_of(ls@).take(ls.len() as int) =~= seqs_of(ls@));
    out
}

/// The mark the viewer shows before a line of the given kind: a box before
/// an open task, a tick before a done one, a bullet, a bar before a quote;
/// nothing before the others.
pub open spec fn shown_mark(kind: u8) -> Seq<char> {
    if kind == 5 {
        "  ☐ "@
    } else if kind == 6 {
        "  ✓ "@
    } else if kind == 7 {
        "  • "@
    } else if kind == 8 {
        "  │ "@
    } else {
        Seq::<char>::empty()
    }
}

/// A horizontal rule as the viewer draws it: forty box-drawing dashes.
pub open spec fn rule_text() -> Seq<char> {
    Seq::new(40, |i: int| '─')
}

/// The text the viewer shows after the mark: the line's text, or the drawn
/// rule for a rule.
pub open spec fn shown_text(l: MdLineView) -> Seq<char> {
    if l.0 == 9 {
        rule_text()
    } else {
        l.1
    }
}

/// What the viewer shows for a line: its mark and its text (the caller
/// only colours them by the line's kind).
pub fn shown_parts(l: &MdLine) -> (res: (String, String))
    ensures
        res.0@ == shown_mark(l@.0),
        res.1@ == shown_text(l@),
{
    let mark = match l {
        MdLine::Todo(_) => string_of(&text("  ☐ ")),
        MdLine::Done(_) => string_of(&text("  ✓ ")),
        MdLine::Bullet(_) => string_of(&text("  • ")),
        MdLine::Quote(_) => string_of(&text("  │ ")),
        _ => string_of(&Vec::new()),
    };
    let body = match l {
        MdLine::Rule => {
            let mut v: Vec<char> = Vec::new();
            let mut k: usize = 0;
            while k < 40
                invariant
                    k <= 40,
                    v@ == Seq::new(k as nat, |i: int| '─'),
                decreases 40 - k,
            {
                v.push('─');
                k = k + 1;
                assert(v@ =~= Seq::new(k as nat, |i: int| '─'));
            }
            string_of(&v)
        },
        MdLine::Fence(t) | MdLine::Code(t) | MdLine::H1(t) | MdLine::H2(t) | MdLine::H3(t) | MdLine::Todo(
            t,
        ) | MdLine::Done(t) | MdLine::Bullet(t) | MdLine::Quote(t) | MdLine::Plain(t) => t.clone(),
    };
    (mark, body)
}

} // verus!
