//! Markdown to HTML for the note preview: the block structure of a note
//! (fenced code, headings, rules, quotes, lists, tables, blank lines and
//! paragraphs) and its inline markup (code spans, images, links, emphasis,
//! strike-through). Text is HTML-escaped before inline markup is applied, so
//! only the tags introduced here reach the page.

use vstd::prelude::*;
use crate::text::{
    is_whitespace, lines_spec, split_spec, nonempty_parts, trim_spec, trim_start_spec,
    trim_end_spec, trim_start_matches_spec, is_prefix, find_from, strip_cr, seqs_of,
    lemma_split_len, text, chars_of, string_of, append_all, slice_of, find_exec_from, lines,
    split, trim, trim_start_matches, keep_nonempty, starts_with, has_char,
};
use crate::tags::lemma_find_bounds;

verus! {

broadcast use vstd::string::group_string_axioms;

// ---------------------------------------------------------------------------
// HTML escaping
// ---------------------------------------------------------------------------

/// How `esc_html` writes one character.
pub open spec fn esc_char(c: char) -> Seq<char> {
    if c == '&' {
        "&amp;"@
    } else if c == '<' {
        "&lt;"@
    } else if c == '>' {
        "&gt;"@
    } else if c == '"' {
        "&quot;"@
    } else {
        seq![c]
    }
}

/// Text with `&`, `<`, `>` and `"` written as entities.
pub open spec fn esc_html_spec(s: Seq<char>) -> Seq<char>
    decreases s.len(),
{
    if s.len() == 0 {
        Seq::<char>::empty()
    } else {
        esc_html_spec(s.drop_last()) + esc_char(s.last())
    }
}

/// How `esc_attr` writes one character.
pub open spec fn attr_char(c: char) -> Seq<char> {
    if c == '"' {
        "&quot;"@
    } else if c == '\'' {
        "&#x27;"@
    } else {
        seq![c]
    }
}

/// Text with both quote characters written as entities, for attributes.
pub open spec fn esc_attr_spec(s: Seq<char>) -> Seq<char>
    decreases s.len(),
{
    if s.len() == 0 {
        Seq::<char>::empty()
    } else {
        esc_attr_spec(s.drop_last()) + attr_char(s.last())
    }
}

// ---------------------------------------------------------------------------
// Inline markup
// ---------------------------------------------------------------------------

/// `[text](url)` starting at `start`: the text, the url, and how many
/// characters the whole takes.
pub open spec fn link_at(cs: Seq<char>, start: int) -> Option<(Seq<char>, Seq<char>, int)> {
    if !(0 <= start < cs.len() && cs[start] == '[') {
        None
    } else {
        match find_from(cs, seq![']'], start + 1) {
            None => None,
            Some(cb) => if !(cb + 1 < cs.len() && cs[cb + 1] == '(') {
                None
            } else {
                match find_from(cs, seq![')'], cb + 2) {
                    None => None,
                    Some(cp) => Some((cs.subrange(start + 1, cb), cs.subrange(cb + 2, cp), cp + 1 - start)),
                }
            },
        }
    }
}

/// Two copies of `c` at `i`.
pub open spec fn pair_at(cs: Seq<char>, i: int, c: char) -> bool {
    0 <= i && i + 1 < cs.len() && cs[i] == c && cs[i + 1] == c
}

/// Three copies of `c` at `i`.
pub open spec fn triple_at(cs: Seq<char>, i: int, c: char) -> bool {
    0 <= i && i + 2 < cs.len() && cs[i] == c && cs[i + 1] == c && cs[i + 2] == c
}

/// The HTML of the inline markup of `cs` from index `i` on.
///
/// At each position, in this order: a code span `` `...` `` (kept as it
/// is), an image `![alt](url)`, a link `[text](url)` (text kept as it is),
/// `***strong emphasis***`, `**strong**` or `__strong__`, `*emphasis*` or
/// `_emphasis_` (a single delimiter), `~~deleted~~`; the text between
/// delimiters is itself marked up. A delimiter without its closing partner
/// is an ordinary character.
pub open spec fn inline_from(cs: Seq<char>, i: int) -> Seq<char>
    decreases cs.len(), cs.len() - i,
{
    if i < 0 || i >= cs.len() {
        Seq::<char>::empty()
    } else {
        let c = cs[i];
        let n = cs.len();
        if c == '`' && find_from(cs, seq!['`'], i + 1) is Some {
            let end = find_from(cs, seq!['`'], i + 1)->Some_0;
            proof {
                lemma_find_bounds(cs, seq!['`'], i + 1);
            }
            "<code>"@ + cs.subrange(i + 1, end) + "</code>"@ + inline_from(cs, end + 1)
        } else if c == '!' && i + 1 < n && cs[i + 1] == '[' && link_at(cs, i + 1) is Some {
            let (alt, url, adv) = link_at(cs, i + 1)->Some_0;
            proof {
                lemma_link_bounds(cs, i + 1);
            }
            "<img src=\""@ + esc_attr_spec(url) + "\" alt=\""@ + esc_attr_spec(alt)
                + "\" style=\"max-width:100%\">"@ + inline_from(cs, i + 1 + adv)
        } else if c == '[' && link_at(cs, i) is Some {
            let (text, url, adv) = link_at(cs, i)->Some_0;
            proof {
                lemma_link_bounds(cs, i);
            }
            "<a href=\""@ + esc_attr_spec(url) + "\" target=\"_blank\">"@ + text + "</a>"@
                + inline_from(cs, i + adv)
        } else if triple_at(cs, i, '*') && find_from(cs, seq!['*', '*', '*'], i + 3) is Some {
            let end = find_from(cs, seq!['*', '*', '*'], i + 3)->Some_0;
            proof {
                lemma_find_bounds(cs, seq!['*', '*', '*'], i + 3);
            }
            "<strong><em>"@ + inline_from(cs.subrange(i + 3, end), 0) + "</em></strong>"@
                + inline_from(cs, end + 3)
        } else if (pair_at(cs, i, '*') || pair_at(cs, i, '_')) && find_from(cs, seq![c, c], i + 2) is Some {
            let end = find_from(cs, seq![c, c], i + 2)->Some_0;
            proof {
                lemma_find_bounds(cs, seq![c, c], i + 2);
            }
            "<strong>"@ + inline_from(cs.subrange(i + 2, end), 0) + "</strong>"@ + inline_from(
                cs,
                end + 2,
            )
        } else if (c == '*' || c == '_') && !(i + 1 < n && cs[i + 1] == c) && find_from(
            cs,
            seq![c],
            i + 1,
        ) is Some {
            let end = find_from(cs, seq![c], i + 1)->Some_0;
            proof {
                lemma_find_bounds(cs, seq![c], i + 1);
            }
            "<em>"@ + inline_from(cs.subrange(i + 1, end), 0) + "</em>"@ + inline_from(cs, end + 1)
        } else if pair_at(cs, i, '~') && find_from(cs, seq!['~', '~'], i + 2) is Some {
            let end = find_from(cs, seq!['~', '~'], i + 2)->Some_0;
            proof {
                lemma_find_bounds(cs, seq!['~', '~'], i + 2);
            }
            "<del>"@ + inline_from(cs.subrange(i + 2, end), 0) + "</del>"@ + inline_from(cs, end + 2)
        } else {
            seq![c] + inline_from(cs, i + 1)
        }
    }
}

/// The HTML of the inline markup of `s`.
pub open spec fn inline_spec(s: Seq<char>) -> Seq<char> {
    inline_from(s, 0)
}

/// A link found at `start` lies inside the text and takes at least three
/// characters.
pub proof fn lemma_link_bounds(cs: Seq<char>, start: int)
    ensures
        link_at(cs, start) matches Some((t, u, adv)) ==> {
            &&& 3 <= adv
            &&& start + adv <= cs.len()
        },
{
    if 0 <= start < cs.len() && cs[start] == '[' {
        lemma_find_bounds(cs, seq![']'], start + 1);
        match find_from(cs, seq![']'], start + 1) {
            Some(cb) => {
                lemma_find_bounds(cs, seq![')'], cb + 2);
            },
            None => {},
        }
    }
}

// ---------------------------------------------------------------------------
// Line classes
// ---------------------------------------------------------------------------

/// How many copies of `c` the text starts with.
pub open spec fn lead_run(s: Seq<char>, c: char) -> nat
    decreases s.len(),
{
    if s.len() > 0 && s[0] == c {
        1 + lead_run(s.drop_first(), c)
    } else {
        0
    }
}

/// An ASCII digit.
pub open spec fn is_digit(c: char) -> bool {
    48 <= (c as u32) <= 57
}

/// How many ASCII digits the text starts with.
pub open spec fn lead_digits(s: Seq<char>) -> nat
    decreases s.len(),
{
    if s.len() > 0 && is_digit(s[0]) {
        1 + lead_digits(s.drop_first())
    } else {
        0
    }
}

/// Every character of `t` is `c`.
pub open spec fn all_same(t: Seq<char>, c: char) -> bool {
    forall|k: int| 0 <= k < t.len() ==> t[k] == c
}

/// A code fence: starts with three backquotes.
pub open spec fn is_fence(l: Seq<char>) -> bool {
    is_prefix(seq!['`', '`', '`'], l)
}

/// An ATX heading: one to six `#` and a space.
pub open spec fn is_heading(l: Seq<char>) -> bool {
    let h = lead_run(l, '#');
    1 <= h <= 6 && h < l.len() && l[h as int] == ' '
}

/// A horizontal rule: once trimmed, three or more of one of `-`, `*`, `_`.
pub open spec fn is_rule(l: Seq<char>) -> bool {
    let t = trim_spec(l);
    t.len() >= 3 && (all_same(t, '-') || all_same(t, '*') || all_same(t, '_'))
}

/// A quoted line: `> ` in front, or just `>`.
pub open spec fn is_quote(l: Seq<char>) -> bool {
    is_prefix(seq!['>', ' '], l) || l == seq!['>']
}

/// A bullet item: `- ` or `* ` in front.
pub open spec fn is_bullet(l: Seq<char>) -> bool {
    is_prefix(seq!['-', ' '], l) || is_prefix(seq!['*', ' '], l)
}

/// A numbered item: digits, then `. `.
pub open spec fn is_ordered(l: Seq<char>) -> bool {
    let d = lead_digits(l);
    d >= 1 && is_prefix(seq!['.', ' '], l.skip(d as int))
}

/// A character of a table's separator row.
pub open spec fn sep_char(c: char) -> bool {
    c == '|' || c == '-' || c == ':' || c == ' '
}

/// A table's separator row: once trimmed only `|`, `-`, `:` and spaces,
/// and at least one `-`.
pub open spec fn is_table_sep(l: Seq<char>) -> bool {
    (forall|k: int| 0 <= k < trim_spec(l).len() ==> #[trigger] sep_char(trim_spec(l)[k])) && l.contains(
        '-',
    )
}

/// A line with nothing but white space.
pub open spec fn is_blank(l: Seq<char>) -> bool {
    trim_spec(l).len() == 0
}

/// A line that ends a paragraph.
pub open spec fn is_block_start(l: Seq<char>) -> bool {
    is_blank(l) || is_fence(l) || is_bullet(l) || is_quote(l) || is_ordered(l) || is_heading(l)
        || is_rule(l)
}

/// A table begins at line `i`: it holds `|` and the next line is a
/// separator row.
pub open spec fn is_table_start(ls: Seq<Seq<char>>, i: int) -> bool {
    ls[i].contains('|') && i + 1 < ls.len() && is_table_sep(ls[i + 1])
}

/// The kinds of runs of consecutive lines that make one block.
#[derive(Clone, Copy)]
pub enum Run {
    /// Lines inside a code fence (up to the closing fence).
    Code,
    /// Quoted lines.
    Quote,
    /// Bullet items.
    Bullet,
    /// Numbered items.
    Ordered,
    /// Table body rows.
    Row,
    /// Paragraph lines.
    Para,
}

/// Whether a line continues a run of kind `r`.
pub open spec fn in_run(r: Run, l: Seq<char>) -> bool {
    match r {
        Run::Code => !is_fence(l),
        Run::Quote => is_quote(l),
        Run::Bullet => is_bullet(l),
        Run::Ordered => is_ordered(l),
        Run::Row => l.contains('|') && !is_table_sep(l),
        Run::Para => !is_block_start(l),
    }
}

/// Where the run of kind `r` that starts at line `j` ends.
pub open spec fn run_end(ls: Seq<Seq<char>>, j: int, r: Run) -> int
    decreases ls.len() - j,
{
    if 0 <= j < ls.len() && in_run(r, ls[j]) {
        run_end(ls, j + 1, r)
    } else {
        j
    }
}

pub proof fn lemma_run_end(ls: Seq<Seq<char>>, j: int, r: Run)
    requires
        0 <= j,
    ensures
        j <= run_end(ls, j, r),
        j <= ls.len() ==> run_end(ls, j, r) <= ls.len(),
        forall|k: int| j <= k < run_end(ls, j, r) ==> in_run(r, #[trigger] ls[k]),
        run_end(ls, j, r) < ls.len() ==> !in_run(r, ls[run_end(ls, j, r)]),
    decreases ls.len() - j,
{
    if 0 <= j < ls.len() && in_run(r, ls[j]) {
        lemma_run_end(ls, j + 1, r);
    }
}

// ---------------------------------------------------------------------------
// Block pieces
// ---------------------------------------------------------------------------

/// The language named after a code fence's backquotes (HTML-escaped where
/// it is shown).
pub open spec fn fence_lang(l: Seq<char>) -> Seq<char> {
    trim_spec(l.skip(lead_run(l, '`') as int))
}

/// The digit of a heading level.
pub open spec fn level_digit(h: nat) -> char {
    if h == 1 {
        '1'
    } else if h == 2 {
        '2'
    } else if h == 3 {
        '3'
    } else if h == 4 {
        '4'
    } else if h == 5 {
        '5'
    } else {
        '6'
    }
}

/// The text of a numbered item: after its digits, with `. ` removed from
/// the front as often as it occurs.
pub open spec fn ordered_text(l: Seq<char>) -> Seq<char> {
    trim_start_matches_spec(l.skip(lead_digits(l) as int), seq!['.', ' '])
}

/// The HTML of a bullet item whose text (after `- ` or `* `) is `t`: a
/// task with an open or a ticked box, or a plain item.
pub open spec fn item_html(t: Seq<char>) -> Seq<char> {
    if is_prefix(seq!['[', ' ', ']', ' '], t) {
        "<li class=\"task-item\"><input type=\"checkbox\" disabled> "@ + inline_spec(
            esc_html_spec(t.skip(4)),
        ) + "</li>\n"@
    } else if is_prefix(seq!['[', 'x', ']', ' '], t) || is_prefix(seq!['[', 'X', ']', ' '], t) {
        "<li class=\"task-item done\"><input type=\"checkbox\" checked disabled> "@ + inline_spec(
            esc_html_spec(t.skip(4)),
        ) + "</li>\n"@
    } else {
        "<li>"@ + inline_spec(esc_html_spec(t)) + "</li>\n"@
    }
}

/// The cells of a table row: split at `|`, trimmed, empty ones dropped.
pub open spec fn cells(l: Seq<char>) -> Seq<Seq<char>> {
    nonempty_parts(split_spec(l, '|').map_values(|x: Seq<char>| trim_spec(x)))
}

/// The HTML of table cells, as header cells or as data cells.
pub open spec fn cells_html(cs: Seq<Seq<char>>, head: bool) -> Seq<char>
    decreases cs.len(),
{
    if cs.len() == 0 {
        Seq::<char>::empty()
    } else {
        cells_html(cs.drop_last(), head) + (if head {
            "<th>"@
        } else {
            "<td>"@
        }) + inline_spec(esc_html_spec(cs.last())) + (if head {
            "</th>"@
        } else {
            "</td>"@
        })
    }
}

/// What each line of a block contributes to it.
#[derive(Clone, Copy)]
pub enum Piece {
    /// A line of code inside a fence.
    CodeLine,
    /// A quoted line, without its `> `.
    QuoteLine,
    /// A bullet item.
    Item,
    /// A numbered item.
    OrderedItem,
    /// A table body row.
    Row,
    /// A paragraph line.
    ParaLine,
}

/// The contribution of line `l` to a block.
pub open spec fn piece(k: Piece, l: Seq<char>) -> Seq<char> {
    match k {
        Piece::CodeLine => esc_html_spec(l) + seq!['\n'],
        Piece::QuoteLine => (if is_prefix(seq!['>', ' '], l) {
            l.skip(2)
        } else {
            Seq::<char>::empty()
        }) + seq!['\n'],
        Piece::Item => item_html(if l.len() >= 2 {
            l.skip(2)
        } else {
            Seq::<char>::empty()
        }),
        Piece::OrderedItem => "<li>"@ + inline_spec(esc_html_spec(ordered_text(l))) + "</li>\n"@,
        Piece::Row => "<tr>"@ + cells_html(cells(l), false) + "</tr>\n"@,
        Piece::ParaLine => l + seq![' '],
    }
}

/// The contributions of lines `a` up to `b`, in order.
pub open spec fn cat(ls: Seq<Seq<char>>, a: int, b: int, k: Piece) -> Seq<char>
    decreases b - a,
{
    if b <= a {
        Seq::<char>::empty()
    } else {
        cat(ls, a, b - 1, k) + piece(k, ls[b - 1])
    }
}

/// The line after the block that starts at line `i`.
pub open spec fn block_next(ls: Seq<Seq<char>>, i: int) -> int {
    let l = ls[i];
    if is_fence(l) {
        let e = run_end(ls, i + 1, Run::Code);
        if e < ls.len() {
            e + 1
        } else {
            e
        }
    } else if is_heading(l) || is_rule(l) {
        i + 1
    } else if is_quote(l) {
        run_end(ls, i, Run::Quote)
    } else if is_bullet(l) {
        run_end(ls, i, Run::Bullet)
    } else if is_ordered(l) {
        run_end(ls, i, Run::Ordered)
    } else if is_table_start(ls, i) {
        run_end(ls, i + 2, Run::Row)
    } else if is_blank(l) {
        i + 1
    } else {
        run_end(ls, i, Run::Para)
    }
}

/// Every block takes at least one line, and at most one past the end.
pub proof fn lemma_block_next(ls: Seq<Seq<char>>, i: int)
    requires
        0 <= i < ls.len(),
    ensures
        i < block_next(ls, i) <= ls.len(),
{
    let l = ls[i];
    lemma_run_end(ls, i, Run::Quote);
    lemma_run_end(ls, i, Run::Bullet);
    lemma_run_end(ls, i, Run::Ordered);
    lemma_run_end(ls, i, Run::Para);
    lemma_run_end(ls, i + 1, Run::Code);
    if is_table_start(ls, i) {
        lemma_run_end(ls, i + 2, Run::Row);
    }
    if !is_fence(l) && !is_heading(l) && !is_rule(l) && !is_quote(l) && !is_bullet(l) && !is_ordered(l)
        && !is_table_start(ls, i) && !is_blank(l) {
        assert(in_run(Run::Para, ls[i]));
    }
}

// ---------------------------------------------------------------------------
// Documents
// ---------------------------------------------------------------------------

/// The HTML of a whole Markdown text.
pub open spec fn md_html(s: Seq<char>) -> Seq<char>
    decreases s.len(), lines_spec(s).len() + 3,
{
    md_from(s, 0)
}

/// The HTML of the blocks of `s` from line `i` on.
pub open spec fn md_from(s: Seq<char>, i: int) -> Seq<char>
    decreases s.len(), lines_spec(s).len() + 2 - i,
{
    let ls = lines_spec(s);
    if i < 0 || i >= ls.len() {
        Seq::<char>::empty()
    } else {
        proof {
            lemma_block_next(ls, i);
        }
        block_html(s, i) + md_from(s, block_next(ls, i))
    }
}

/// The HTML of the block of `s` that starts at line `i`.
pub open spec fn block_html(s: Seq<char>, i: int) -> Seq<char>
    decreases s.len(), lines_spec(s).len() + 1 - i,
{
    let ls = lines_spec(s);
    if i < 0 || i >= ls.len() {
        Seq::<char>::empty()
    } else {
        let l = ls[i];
        if is_fence(l) {
            let e = run_end(ls, i + 1, Run::Code);
            "<pre><code class=\"lang-"@ + esc_html_spec(fence_lang(l)) + "\">"@ + cat(
                ls,
                i + 1,
                e,
                Piece::CodeLine,
            )
                + "</code></pre>\n"@
        } else if is_heading(l) {
            let h = lead_run(l, '#');
            seq!['<', 'h', level_digit(h), '>'] + inline_spec(esc_html_spec(l.skip(h + 1 as int))) + seq![
                '<',
                '/',
                'h',
                level_digit(h),
                '>',
                '\n',
            ]
        } else if is_rule(l) {
            "<hr>\n"@
        } else if is_quote(l) {
            let e = run_end(ls, i, Run::Quote);
            proof {
                lemma_quote_shorter(s, i);
            }
            "<blockquote>"@ + md_html(trim_spec(cat(ls, i, e, Piece::QuoteLine))) + "</blockquote>\n"@
        } else if is_bullet(l) {
            "<ul>\n"@ + cat(ls, i, run_end(ls, i, Run::Bullet), Piece::Item) + "</ul>\n"@
        } else if is_ordered(l) {
            "<ol>\n"@ + cat(ls, i, run_end(ls, i, Run::Ordered), Piece::OrderedItem) + "</ol>\n"@
        } else if is_table_start(ls, i) {
            "<table>\n<thead>\n<tr>"@ + cells_html(cells(l), true) + "</tr>\n</thead>\n<tbody>\n"@
                + cat(ls, i + 2, run_end(ls, i + 2, Run::Row), Piece::Row) + "</tbody>\n</table>\n"@
        } else if is_blank(l) {
            "<br>\n"@
        } else {
            let para = trim_spec(cat(ls, i, run_end(ls, i, Run::Para), Piece::ParaLine));
            if para.len() > 0 {
                "<p>"@ + inline_spec(esc_html_spec(para)) + "</p>\n"@
            } else {
                Seq::<char>::empty()
            }
        }
    }
}

// ---------------------------------------------------------------------------
// Lengths (what makes the nesting of quotes finite)
// ---------------------------------------------------------------------------

/// The number of characters in lines `a` up to `b`.
pub open spec fn span(ls: Seq<Seq<char>>, a: int, b: int) -> int
    decreases b - a,
{
    if b <= a {
        0
    } else {
        span(ls, a, b - 1) + ls[b - 1].len()
    }
}

proof fn lemma_span_nonneg(ls: Seq<Seq<char>>, a: int, b: int)
    ensures
        span(ls, a, b) >= 0,
    decreases b - a,
{
    if b > a {
        lemma_span_nonneg(ls, a, b - 1);
    }
}

proof fn lemma_span_split(ls: Seq<Seq<char>>, a: int, m: int, b: int)
    requires
        a <= m <= b,
    ensures
        span(ls, a, b) == span(ls, a, m) + span(ls, m, b),
    decreases b - m,
{
    if b > m {
        lemma_span_split(ls, a, m, b - 1);
    }
}

proof fn lemma_span_same(p: Seq<Seq<char>>, q: Seq<Seq<char>>, a: int, b: int)
    requires
        forall|k: int| a <= k < b ==> #[trigger] p[k].len() <= q[k].len(),
    ensures
        span(p, a, b) <= span(q, a, b),
    decreases b - a,
{
    if b > a {
        lemma_span_same(p, q, a, b - 1);
    }
}

proof fn lemma_split_span(s: Seq<char>, d: char)
    ensures
        span(split_spec(s, d), 0, split_spec(s, d).len() as int) + split_spec(s, d).len() - 1 == s.len(),
    decreases s.len(),
{
    lemma_split_len(s, d);
    if s.len() > 0 {
        let t = s.drop_last();
        lemma_split_span(t, d);
        lemma_split_len(t, d);
        let init = split_spec(t, d);
        let p = split_spec(s, d);
        if s.last() == d {
            assert(p.drop_last() =~= init);
            lemma_span_same(p, init, 0, init.len() as int);
            lemma_span_same(init, p, 0, init.len() as int);
            assert(span(p, 0, p.len() as int) == span(p, 0, init.len() as int) + p[init.len() as int].len());
        } else {
            lemma_span_same(p, init, 0, init.len() - 1);
            lemma_span_same(init, p, 0, init.len() - 1);
            assert(span(p, 0, p.len() as int) == span(p, 0, p.len() - 1) + p[p.len() - 1].len());
            assert(span(init, 0, init.len() as int) == span(init, 0, init.len() - 1) + init[init.len() - 1].len());
            assert(p[p.len() - 1].len() == init[init.len() - 1].len() + 1);
        }
    } else {
        assert(span(split_spec(s, d), 0, 0) == 0);
    }
}

/// The lines of a text hold no more characters than the text.
pub proof fn lemma_lines_span(s: Seq<char>)
    ensures
        span(lines_spec(s), 0, lines_spec(s).len() as int) <= s.len(),
{
    let p = split_spec(s, '\n');
    lemma_split_len(s, '\n');
    lemma_split_span(s, '\n');
    let ls = lines_spec(s);
    let body = p.drop_last().map_values(|l: Seq<char>| strip_cr(l));
    lemma_span_same(ls, p, 0, body.len() as int);
    lemma_span_nonneg(p, 0, p.len() - 1);
    if p.last().len() != 0 {
        assert(ls[body.len() as int] == p[p.len() - 1]);
    }
    lemma_span_split(p, 0, p.len() - 1, p.len() as int);
}

/// Trimming never lengthens a text, and drops a final white-space character.
pub proof fn lemma_trim_len(x: Seq<char>)
    ensures
        trim_spec(x).len() <= x.len(),
        x.len() > 0 && is_whitespace(x.last()) ==> trim_spec(x).len() < x.len(),
{
    lemma_trim_start_suffix(x);
    let t = trim_start_spec(x);
    lemma_trim_end_prefix(t);
    if x.len() > 0 && is_whitespace(x.last()) && t.len() > 0 {
        assert(t.last() == x.last());
        assert(trim_end_spec(t) == trim_end_spec(t.drop_last()));
        lemma_trim_end_prefix(t.drop_last());
    }
}

proof fn lemma_trim_start_suffix(x: Seq<char>)
    ensures
        trim_start_spec(x).len() <= x.len(),
        trim_start_spec(x) == x.skip(x.len() - trim_start_spec(x).len()),
    decreases x.len(),
{
    if x.len() > 0 && is_whitespace(x[0]) {
        lemma_trim_start_suffix(x.drop_first());
        let t = trim_start_spec(x.drop_first());
        assert(x.drop_first().skip(x.drop_first().len() - t.len()) =~= x.skip(x.len() - t.len()));
    } else {
        assert(x.skip(0) =~= x);
    }
}

proof fn lemma_trim_end_prefix(x: Seq<char>)
    ensures
        trim_end_spec(x).len() <= x.len(),
    decreases x.len(),
{
    if x.len() > 0 && is_whitespace(x.last()) {
        lemma_trim_end_prefix(x.drop_last());
    }
}

proof fn lemma_quote_cat_len(ls: Seq<Seq<char>>, a: int, b: int)
    requires
        0 <= a <= b <= ls.len(),
        forall|k: int| a <= k < b ==> is_quote(#[trigger] ls[k]),
    ensures
        cat(ls, a, b, Piece::QuoteLine).len() <= span(ls, a, b),
    decreases b - a,
{
    if b > a {
        lemma_quote_cat_len(ls, a, b - 1);
        let l = ls[b - 1];
        assert(is_quote(l));
        if !is_prefix(seq!['>', ' '], l) {
            assert(l.len() == 1);
        }
    }
}

/// The text a quote block nests is shorter than the text it is in.
pub proof fn lemma_quote_shorter(s: Seq<char>, i: int)
    requires
        0 <= i < lines_spec(s).len(),
        is_quote(lines_spec(s)[i]),
    ensures
        trim_spec(cat(lines_spec(s), i, run_end(lines_spec(s), i, Run::Quote), Piece::QuoteLine)).len()
            < s.len(),
{
    let ls = lines_spec(s);
    let e = run_end(ls, i, Run::Quote);
    lemma_run_end(ls, i, Run::Quote);
    assert(in_run(Run::Quote, ls[i]));
    lemma_quote_cat_len(ls, i, e);
    let c = cat(ls, i, e, Piece::QuoteLine);
    assert(c.last() == '\n');
    lemma_trim_len(c);
    lemma_lines_span(s);
    lemma_span_split(ls, 0, i, ls.len() as int);
    lemma_span_split(ls, i, e, ls.len() as int);
    lemma_span_nonneg(ls, 0, i);
    lemma_span_nonneg(ls, e, ls.len() as int);
}

// ---------------------------------------------------------------------------
// Executable: escaping and inline markup
// ---------------------------------------------------------------------------

/// `a`, then `mid`, then `b`.
fn surround(a: &str, mid: &Vec<char>, b: &str) -> (res: Vec<char>)
    ensures
        res@ == a@ + mid@ + b@,
{
    let mut out = text(a);
    append_all(&mut out, mid);
    append_all(&mut out, &text(b));
    out
}

/// Writes `&`, `<`, `>` and `"` as entities.
pub fn esc_html(s: &Vec<char>) -> (res: Vec<char>)
    ensures
        res@ == esc_html_spec(s@),
{
    let mut out: Vec<char> = Vec::new();
    let mut i: usize = 0;
    while i < s.len()
        invariant
            i <= s.len(),
            out@ == esc_html_spec(s@.take(i as int)),
        decreases s.len() - i,
    {
        let c = s[i];
        let piece = if c == '&' {
            text("&amp;")
        } else if c == '<' {
            text("&lt;")
        } else if c == '>' {
            text("&gt;")
        } else if c == '"' {
            text("&quot;")
        } else {
            vec![c]
        };
        assert(piece@ =~= esc_char(c));
        append_all(&mut out, &piece);
        assert(s@.take(i + 1).drop_last() =~= s@.take(i as int));
        i = i + 1;
    }
    assert(s@.take(s.len() as int) =~= s@);
    out
}

/// Writes both quote characters as entities.
pub fn esc_attr(s: &Vec<char>) -> (res: Vec<char>)
    ensures
        res@ == esc_attr_spec(s@),
{
    let mut out: Vec<char> = Vec::new();
    let mut i: usize = 0;
    while i < s.len()
        invariant
            i <= s.len(),
            out@ == esc_attr_spec(s@.take(i as int)),
        decreases s.len() - i,
    {
        let c = s[i];
        let piece = if c == '"' {
            text("&quot;")
        } else if c == '\'' {
            text("&#x27;")
        } else {
            vec![c]
        };
        assert(piece@ =~= attr_char(c));
        append_all(&mut out, &piece);
        assert(s@.take(i + 1).drop_last() =~= s@.take(i as int));
        i = i + 1;
    }
    assert(s@.take(s.len() as int) =~= s@);
    out
}

/// The first `target` at or after `from`.
fn find_char(cs: &Vec<char>, from: usize, target: char) -> (res: Option<usize>)
    ensures
        match res {
            Some(k) => find_from(cs@, seq![target], from as int) == Some(k as int),
            None => find_from(cs@, seq![target], from as int) is None,
        },
{
    let t = vec![target];
    assert(t@ =~= seq![target]);
    find_exec_from(cs, &t, from)
}

/// The first occurrence of `delim` at or after `from`.
fn find_closing(cs: &Vec<char>, from: usize, delim: &Vec<char>) -> (res: Option<usize>)
    ensures
        match res {
            Some(k) => find_from(cs@, delim@, from as int) == Some(k as int),
            None => find_from(cs@, delim@, from as int) is None,
        },
{
    find_exec_from(cs, delim, from)
}

/// `[text](url)` at `start`: the text, the url and its length.
fn parse_link(cs: &Vec<char>, start: usize) -> (res: Option<(Vec<char>, Vec<char>, usize)>)
    ensures
        match res {
            Some((t, u, adv)) => link_at(cs@, start as int) == Some((t@, u@, adv as int)),
            None => link_at(cs@, start as int) is None,
        },
{
    if !(start < cs.len() && cs[start] == '[') {
        return None;
    }
    let cb = match find_char(cs, start + 1, ']') {
        None => {
            return None;
        },
        Some(cb) => cb,
    };
    proof {
        lemma_find_bounds(cs@, seq![']'], start + 1);
    }
    if !(cb + 1 < cs.len() && cs[cb + 1] == '(') {
        return None;
    }
    let cp = match find_char(cs, cb + 2, ')') {
        None => {
            return None;
        },
        Some(cp) => cp,
    };
    proof {
        lemma_find_bounds(cs@, seq![')'], cb + 2);
    }
    Some((slice_of(cs, start + 1, cb), slice_of(cs, cb + 2, cp), cp + 1 - start))
}

/// The markup that starts at `i`, and where the next one starts.
fn inline_step(cs: &Vec<char>, i: usize) -> (res: (Vec<char>, usize))
    requires
        i < cs.len(),
    ensures
        i < res.1 <= cs.len(),
        inline_from(cs@, i as int) == res.0@ + inline_from(cs@, res.1 as int),
    decreases cs.len(), 0nat,
{
    let n = cs.len();
    let c = cs[i];
    if c == '`' {
        match find_char(cs, i + 1, '`') {
            Some(end) => {
                proof {
                    lemma_find_bounds(cs@, seq!['`'], i + 1);
                }
                let piece = surround("<code>", &slice_of(cs, i + 1, end), "</code>");
                return (piece, end + 1);
            },
            None => {},
        }
    }
    if c == '!' && n - i > 1 && cs[i + 1] == '[' {
        match parse_link(cs, i + 1) {
            Some((alt, url, adv)) => {
                proof {
                    lemma_link_bounds(cs@, i + 1);
                }
                let mut piece = surround("<img src=\"", &esc_attr(&url), "\" alt=\"");
                append_all(&mut piece, &esc_attr(&alt));
                append_all(&mut piece, &text("\" style=\"max-width:100%\">"));
                return (piece, i + 1 + adv);
            },
            None => {},
        }
    }
    if c == '[' {
        match parse_link(cs, i) {
            Some((t, url, adv)) => {
                proof {
                    lemma_link_bounds(cs@, i as int);
                }
                let mut piece = surround("<a href=\"", &esc_attr(&url), "\" target=\"_blank\">");
                append_all(&mut piece, &t);
                append_all(&mut piece, &text("</a>"));
                return (piece, i + adv);
            },
            None => {},
        }
    }
    if n - i > 2 && c == '*' && cs[i + 1] == '*' && cs[i + 2] == '*' {
        let d: Vec<char> = vec!['*', '*', '*'];
        assert(d@ =~= seq!['*', '*', '*']);
        match find_closing(cs, i + 3, &d) {
            Some(end) => {
                proof {
                    lemma_find_bounds(cs@, d@, i + 3);
                }
                let inner = inline_chars(&slice_of(cs, i + 3, end));
                let piece = surround("<strong><em>", &inner, "</em></strong>");
                return (piece, end + 3);
            },
            None => {},
        }
    }
    if n - i > 1 && ((c == '*' && cs[i + 1] == '*') || (c == '_' && cs[i + 1] == '_')) {
        let d: Vec<char> = vec![c, c];
        assert(d@ =~= seq![c, c]);
        match find_closing(cs, i + 2, &d) {
            Some(end) => {
                proof {
                    lemma_find_bounds(cs@, d@, i + 2);
                }
                let inner = inline_chars(&slice_of(cs, i + 2, end));
                let piece = surround("<strong>", &inner, "</strong>");
                return (piece, end + 2);
            },
            None => {},
        }
    }
    if (c == '*' || c == '_') && !(n - i > 1 && cs[i + 1] == c) {
        match find_char(cs, i + 1, c) {
            Some(end) => {
                proof {
                    lemma_find_bounds(cs@, seq![c], i + 1);
                }
                let inner = inline_chars(&slice_of(cs, i + 1, end));
                let piece = surround("<em>", &inner, "</em>");
                return (piece, end + 1);
            },
            None => {},
        }
    }
    if n - i > 1 && c == '~' && cs[i + 1] == '~' {
        let d: Vec<char> = vec!['~', '~'];
        assert(d@ =~= seq!['~', '~']);
        match find_closing(cs, i + 2, &d) {
            Some(end) => {
                proof {
                    lemma_find_bounds(cs@, d@, i + 2);
                }
                let inner = inline_chars(&slice_of(cs, i + 2, end));
                let piece = surround("<del>", &inner, "</del>");
                return (piece, end + 2);
            },
            None => {},
        }
    }
    let piece = vec![c];
    assert(piece@ =~= seq![c]);
    (piece, i + 1)
}

/// The HTML of the inline markup of `cs`.
fn inline_chars(cs: &Vec<char>) -> (res: Vec<char>)
    ensures
        res@ == inline_spec(cs@),
    decreases cs.len(), 1nat,
{
    let n = cs.len();
    let mut out: Vec<char> = Vec::new();
    let mut i: usize = 0;
    while i < n
        invariant
            n == cs.len(),
            i <= n,
            out@ + inline_from(cs@, i as int) == inline_from(cs@, 0),
        decreases n - i,
    {
        let (piece, next) = inline_step(cs, i);
        let ghost before = out@;
        append_all(&mut out, &piece);
        assert(out@ + inline_from(cs@, next as int) =~= before + (piece@ + inline_from(cs@, next as int)));
        i = next;
    }
    assert(out@ + inline_from(cs@, i as int) =~= out@);
    out
}

/// Inline Markdown (code spans, images, links, bold, italic,
/// strike-through) as HTML. The input is expected to be HTML-escaped
/// already: only the tags introduced here are added.
pub fn inline_md(s: &str) -> (res: String)
    ensures
        res@ == inline_spec(s@),
{
    string_of(&inline_chars(&chars_of(s)))
}

// ---------------------------------------------------------------------------
// Executable: line classes
// ---------------------------------------------------------------------------

fn lead_run_exec(s: &Vec<char>, c: char) -> (res: usize)
    ensures
        res == lead_run(s@, c),
        res <= s.len(),
{
    let mut i: usize = 0;
    assert(s@.skip(0) =~= s@);
    while i < s.len() && s[i] == c
        invariant
            i <= s.len(),
            lead_run(s@, c) == i + lead_run(s@.skip(i as int), c),
        decreases s.len() - i,
    {
        assert(s@.skip(i as int).drop_first() =~= s@.skip(i + 1));
        i = i + 1;
    }
    proof {
        let t = s@.skip(i as int);
        if t.len() > 0 {
            assert(t[0] == s@[i as int]);
        }
    }
    i
}

fn char_is_digit(c: char) -> (res: bool)
    ensures
        res == is_digit(c),
{
    let n = c as u32;
    48 <= n && n <= 57
}

fn lead_digits_exec(s: &Vec<char>) -> (res: usize)
    ensures
        res == lead_digits(s@),
        res <= s.len(),
{
    let mut i: usize = 0;
    assert(s@.skip(0) =~= s@);
    while i < s.len() && char_is_digit(s[i])
        invariant
            i <= s.len(),
            lead_digits(s@) == i + lead_digits(s@.skip(i as int)),
        decreases s.len() - i,
    {
        assert(s@.skip(i as int).drop_first() =~= s@.skip(i + 1));
        i = i + 1;
    }
    proof {
        let t = s@.skip(i as int);
        if t.len() > 0 {
            assert(t[0] == s@[i as int]);
        }
    }
    i
}

fn starts_with_lit(l: &Vec<char>, p: &[char]) -> (res: bool)
    ensures
        res == is_prefix(p@, l@),
{
    let mut v: Vec<char> = Vec::new();
    let mut i: usize = 0;
    while i < p.len()
        invariant
            i <= p.len(),
            v@ == p@.take(i as int),
        decreases p.len() - i,
    {
        v.push(p[i]);
        i = i + 1;
        assert(v@ =~= p@.take(i as int));
    }
    assert(p@.take(p.len() as int) =~= p@);
    starts_with(l, &v)
}

fn all_same_exec(t: &Vec<char>, c: char) -> (res: bool)
    ensures
        res == all_same(t@, c),
{
    let mut i: usize = 0;
    while i < t.len()
        invariant
            i <= t.len(),
            forall|k: int| 0 <= k < i ==> t@[k] == c,
        decreases t.len() - i,
    {
        if t[i] != c {
            return false;
        }
        i = i + 1;
    }
    true
}

fn is_fence_exec(l: &Vec<char>) -> (res: bool)
    ensures
        res == is_fence(l@),
{
    let p = ['`', '`', '`'];
    assert(p@ =~= seq!['`', '`', '`']);
    starts_with_lit(l, &p)
}

fn is_heading_exec(l: &Vec<char>) -> (res: bool)
    ensures
        res == is_heading(l@),
{
    let h = lead_run_exec(l, '#');
    1 <= h && h <= 6 && h < l.len() && l[h] == ' '
}

fn is_rule_exec(l: &Vec<char>) -> (res: bool)
    ensures
        res == is_rule(l@),
{
    let t = trim(l);
    t.len() >= 3 && (all_same_exec(&t, '-') || all_same_exec(&t, '*') || all_same_exec(&t, '_'))
}

fn is_quote_exec(l: &Vec<char>) -> (res: bool)
    ensures
        res == is_quote(l@),
{
    let p = ['>', ' '];
    assert(p@ =~= seq!['>', ' ']);
    let single = l.len() == 1 && l[0] == '>';
    proof {
        if single {
            assert(l@ =~= seq!['>']);
        }
        if l@ == seq!['>'] {
            assert(l@[0] == '>');
        }
    }
    starts_with_lit(l, &p) || single
}

fn is_bullet_exec(l: &Vec<char>) -> (res: bool)
    ensures
        res == is_bullet(l@),
{
    let a = ['-', ' '];
    let b = ['*', ' '];
    assert(a@ =~= seq!['-', ' ']);
    assert(b@ =~= seq!['*', ' ']);
    starts_with_lit(l, &a) || starts_with_lit(l, &b)
}

fn is_ordered_exec(l: &Vec<char>) -> (res: bool)
    ensures
        res == is_ordered(l@),
{
    let d = lead_digits_exec(l);
    let rest = slice_of(l, d, l.len());
    assert(rest@ =~= l@.skip(d as int));
    let p = ['.', ' '];
    assert(p@ =~= seq!['.', ' ']);
    d >= 1 && starts_with_lit(&rest, &p)
}

fn is_table_sep_exec(l: &Vec<char>) -> (res: bool)
    ensures
        res == is_table_sep(l@),
{
    let t = trim(l);
    let mut i: usize = 0;
    while i < t.len()
        invariant
            i <= t.len(),
            t@ == trim_spec(l@),
            forall|k: int| 0 <= k < i ==> #[trigger] sep_char(t@[k]),
        decreases t.len() - i,
    {
        let c = t[i];
        if !(c == '|' || c == '-' || c == ':' || c == ' ') {
            assert(!sep_char(t@[i as int]));
            return false;
        }
        i = i + 1;
    }
    has_char(l, '-')
}

fn is_blank_exec(l: &Vec<char>) -> (res: bool)
    ensures
        res == is_blank(l@),
{
    trim(l).len() == 0
}

fn is_block_start_exec(l: &Vec<char>) -> (res: bool)
    ensures
        res == is_block_start(l@),
{
    is_blank_exec(l) || is_fence_exec(l) || is_bullet_exec(l) || is_quote_exec(l) || is_ordered_exec(l)
        || is_heading_exec(l) || is_rule_exec(l)
}

fn in_run_exec(r: Run, l: &Vec<char>) -> (res: bool)
    ensures
        res == in_run(r, l@),
{
    match r {
        Run::Code => !is_fence_exec(l),
        Run::Quote => is_quote_exec(l),
        Run::Bullet => is_bullet_exec(l),
        Run::Ordered => is_ordered_exec(l),
        Run::Row => has_char(l, '|') && !is_table_sep_exec(l),
        Run::Para => !is_block_start_exec(l),
    }
}

fn run_end_exec(ls: &Vec<Vec<char>>, j: usize, r: Run) -> (res: usize)
    requires
        j <= ls.len(),
    ensures
        res == run_end(seqs_of(ls@), j as int, r),
        j <= res <= ls.len(),
{
    let mut k = j;
    while k < ls.len() && in_run_exec(r, &ls[k])
        invariant
            j <= k <= ls.len(),
            run_end(seqs_of(ls@), j as int, r) == run_end(seqs_of(ls@), k as int, r),
        decreases ls.len() - k,
    {
        assert(seqs_of(ls@)[k as int] == ls@[k as int]@);
        k = k + 1;
    }
    proof {
        if k < ls.len() {
            assert(seqs_of(ls@)[k as int] == ls@[k as int]@);
        }
    }
    k
}

// ---------------------------------------------------------------------------
// Executable: blocks
// ---------------------------------------------------------------------------

fn inline_escaped(t: &Vec<char>) -> (res: Vec<char>)
    ensures
        res@ == inline_spec(esc_html_spec(t@)),
{
    inline_chars(&esc_html(t))
}

fn item_html_exec(t: &Vec<char>) -> (res: Vec<char>)
    ensures
        res@ == item_html(t@),
{
    let open = ['[', ' ', ']', ' '];
    let low = ['[', 'x', ']', ' '];
    let up = ['[', 'X', ']', ' '];
    assert(open@ =~= seq!['[', ' ', ']', ' ']);
    assert(low@ =~= seq!['[', 'x', ']', ' ']);
    assert(up@ =~= seq!['[', 'X', ']', ' ']);
    if starts_with_lit(t, &open) {
        let rest = slice_of(t, 4, t.len());
        assert(rest@ =~= t@.skip(4));
        surround(
            "<li class=\"task-item\"><input type=\"checkbox\" disabled> ",
            &inline_escaped(&rest),
            "</li>\n",
        )
    } else if starts_with_lit(t, &low) || starts_with_lit(t, &up) {
        let rest = slice_of(t, 4, t.len());
        assert(rest@ =~= t@.skip(4));
        surround(
            "<li class=\"task-item done\"><input type=\"checkbox\" checked disabled> ",
            &inline_escaped(&rest),
            "</li>\n",
        )
    } else {
        surround("<li>", &inline_escaped(t), "</li>\n")
    }
}

fn cells_exec(l: &Vec<char>) -> (res: Vec<Vec<char>>)
    ensures
        seqs_of(res@) == cells(l@),
{
    let parts = split(l, '|');
    let mut trimmed: Vec<Vec<char>> = Vec::new();
    let mut k: usize = 0;
    while k < parts.len()
        invariant
            k <= parts.len(),
            seqs_of(parts@) == split_spec(l@, '|'),
            seqs_of(trimmed@) == split_spec(l@, '|').take(k as int).map_values(
                |x: Seq<char>| trim_spec(x),
            ),
        decreases parts.len() - k,
    {
        let ghost before = seqs_of(trimmed@);
        let t = trim(&parts[k]);
        assert(parts@[k as int]@ == split_spec(l@, '|')[k as int]);
        trimmed.push(t);
        assert(seqs_of(trimmed@) =~= before.push(t@));
        assert(split_spec(l@, '|').take(k + 1).map_values(|x: Seq<char>| trim_spec(x))
            =~= split_spec(l@, '|').take(k as int).map_values(|x: Seq<char>| trim_spec(x)).push(
            trim_spec(split_spec(l@, '|')[k as int]),
        ));
        k = k + 1;
    }
    assert(split_spec(l@, '|').take(parts.len() as int) =~= split_spec(l@, '|'));
    keep_nonempty(&trimmed)
}

fn cells_html_exec(cs: &Vec<Vec<char>>, head: bool) -> (res: Vec<char>)
    ensures
        res@ == cells_html(seqs_of(cs@), head),
{
    let mut out: Vec<char> = Vec::new();
    let mut k: usize = 0;
    while k < cs.len()
        invariant
            k <= cs.len(),
            out@ == cells_html(seqs_of(cs@).take(k as int), head),
        decreases cs.len() - k,
    {
        let ghost pre = seqs_of(cs@).take(k + 1);
        assert(pre.drop_last() =~= seqs_of(cs@).take(k as int));
        assert(pre.last() == cs@[k as int]@);
        let cell = if head {
            surround("<th>", &inline_escaped(&cs[k]), "</th>")
        } else {
            surround("<td>", &inline_escaped(&cs[k]), "</td>")
        };
        append_all(&mut out, &cell);
        k = k + 1;
    }
    assert(seqs_of(cs@).take(cs.len() as int) =~= seqs_of(cs@));
    out
}

fn piece_exec(k: Piece, l: &Vec<char>) -> (res: Vec<char>)
    ensures
        res@ == piece(k, l@),
{
    match k {
        Piece::CodeLine => {
            let mut out = esc_html(l);
            out.push('\n');
            out
        },
        Piece::QuoteLine => {
            let p = ['>', ' '];
            assert(p@ =~= seq!['>', ' ']);
            let mut out = if starts_with_lit(l, &p) {
                let rest = slice_of(l, 2, l.len());
                assert(rest@ =~= l@.skip(2));
                rest
            } else {
                Vec::new()
            };
            out.push('\n');
            out
        },
        Piece::Item => {
            let rest = if l.len() >= 2 {
                let r = slice_of(l, 2, l.len());
                assert(r@ =~= l@.skip(2));
                r
            } else {
                Vec::new()
            };
            item_html_exec(&rest)
        },
        Piece::OrderedItem => {
            let d = lead_digits_exec(l);
            let rest = slice_of(l, d, l.len());
            assert(rest@ =~= l@.skip(d as int));
            let sep: Vec<char> = vec!['.', ' '];
            assert(sep@ =~= seq!['.', ' ']);
            let t = trim_start_matches(&rest, &sep);
            surround("<li>", &inline_escaped(&t), "</li>\n")
        },
        Piece::Row => surround("<tr>", &cells_html_exec(&cells_exec(l), false), "</tr>\n"),
        Piece::ParaLine => {
            let mut out = l.clone();
            out.push(' ');
            out
        },
    }
}

fn cat_exec(ls: &Vec<Vec<char>>, a: usize, b: usize, k: Piece) -> (res: Vec<char>)
    requires
        a <= b <= ls.len(),
    ensures
        res@ == cat(seqs_of(ls@), a as int, b as int, k),
{
    let mut out: Vec<char> = Vec::new();
    let mut j = a;
    while j < b
        invariant
            a <= j <= b <= ls.len(),
            out@ == cat(seqs_of(ls@), a as int, j as int, k),
        decreases b - j,
    {
        assert(seqs_of(ls@)[j as int] == ls@[j as int]@);
        append_all(&mut out, &piece_exec(k, &ls[j]));
        j = j + 1;
    }
    out
}

fn level_char(h: usize) -> (res: char)
    requires
        1 <= h <= 6,
    ensures
        res == level_digit(h as nat),
{
    if h == 1 {
        '1'
    } else if h == 2 {
        '2'
    } else if h == 3 {
        '3'
    } else if h == 4 {
        '4'
    } else if h == 5 {
        '5'
    } else {
        '6'
    }
}

/// The HTML of the block at line `i`, and the line after it.
fn block_exec(s: &Vec<char>, ls: &Vec<Vec<char>>, i: usize) -> (res: (Vec<char>, usize))
    requires
        seqs_of(ls@) == lines_spec(s@),
        i < ls.len(),
    ensures
        res.0@ == block_html(s@, i as int),
        res.1 == block_next(lines_spec(s@), i as int),
    decreases s.len(), 0nat,
{
    let ghost lsv = lines_spec(s@);
    let l = &ls[i];
    assert(l@ == lsv[i as int]);
    let n = ls.len();
    if is_fence_exec(l) {
        let e = run_end_exec(ls, i + 1, Run::Code);
        let hashes = lead_run_exec(l, '`');
        let lang = trim(&slice_of(l, hashes, l.len()));
        assert(l@.subrange(hashes as int, l.len() as int) =~= l@.skip(hashes as int));
        let mut out = surround("<pre><code class=\"lang-", &esc_html(&lang), "\">");
        append_all(&mut out, &cat_exec(ls, i + 1, e, Piece::CodeLine));
        append_all(&mut out, &text("</code></pre>\n"));
        let next = if e < n {
            e + 1
        } else {
            e
        };
        return (out, next);
    }
    if is_heading_exec(l) {
        let h = lead_run_exec(l, '#');
        let d = level_char(h);
        let rest = slice_of(l, h + 1, l.len());
        assert(rest@ =~= l@.skip(h + 1 as int));
        let mut out = vec!['<', 'h', d, '>'];
        assert(out@ =~= seq!['<', 'h', level_digit(h as nat), '>']);
        append_all(&mut out, &inline_escaped(&rest));
        let close = vec!['<', '/', 'h', d, '>', '\n'];
        assert(close@ =~= seq!['<', '/', 'h', level_digit(h as nat), '>', '\n']);
        append_all(&mut out, &close);
        return (out, i + 1);
    }
    if is_rule_exec(l) {
        return (text("<hr>\n"), i + 1);
    }
    if is_quote_exec(l) {
        let e = run_end_exec(ls, i, Run::Quote);
        proof {
            lemma_quote_shorter(s@, i as int);
        }
        let inner = trim(&cat_exec(ls, i, e, Piece::QuoteLine));
        let out = surround("<blockquote>", &md_chars(&inner), "</blockquote>\n");
        return (out, e);
    }
    if is_bullet_exec(l) {
        let e = run_end_exec(ls, i, Run::Bullet);
        return (surround("<ul>\n", &cat_exec(ls, i, e, Piece::Item), "</ul>\n"), e);
    }
    if is_ordered_exec(l) {
        let e = run_end_exec(ls, i, Run::Ordered);
        return (surround("<ol>\n", &cat_exec(ls, i, e, Piece::OrderedItem), "</ol>\n"), e);
    }
    let table = has_char(l, '|') && n - i > 1 && is_table_sep_exec(&ls[i + 1]);
    proof {
        if n - i > 1 {
            assert(ls@[i + 1]@ == lsv[i + 1]);
        }
    }
    if table {
        let e = run_end_exec(ls, i + 2, Run::Row);
        let mut out = surround(
            "<table>\n<thead>\n<tr>",
            &cells_html_exec(&cells_exec(l), true),
            "</tr>\n</thead>\n<tbody>\n",
        );
        append_all(&mut out, &cat_exec(ls, i + 2, e, Piece::Row));
        append_all(&mut out, &text("</tbody>\n</table>\n"));
        return (out, e);
    }
    if is_blank_exec(l) {
        return (text("<br>\n"), i + 1);
    }
    let e = run_end_exec(ls, i, Run::Para);
    let para = trim(&cat_exec(ls, i, e, Piece::ParaLine));
    if para.len() > 0 {
        (surround("<p>", &inline_escaped(&para), "</p>\n"), e)
    } else {
        (Vec::new(), e)
    }
}

/// The HTML of a Markdown text given as characters.
fn md_chars(s: &Vec<char>) -> (res: Vec<char>)
    ensures
        res@ == md_html(s@),
    decreases s.len(), 1nat,
{
    let ls = lines(s);
    let n = ls.len();
    let mut out: Vec<char> = Vec::new();
    let mut i: usize = 0;
    while i < n
        invariant
            n == ls.len(),
            seqs_of(ls@) == lines_spec(s@),
            i <= n,
            out@ + md_from(s@, i as int) == md_html(s@),
        decreases n - i,
    {
        proof {
            lemma_block_next(lines_spec(s@), i as int);
        }
        let (piece, next) = block_exec(s, &ls, i);
        let ghost before = out@;
        append_all(&mut out, &piece);
        assert(out@ + md_from(s@, next as int) =~= before + (piece@ + md_from(s@, next as int)));
        i = next;
    }
    assert(out@ + md_from(s@, i as int) =~= out@);
    out
}

/// Renders Markdown as HTML for the preview pane: fenced code, headings,
/// horizontal rules, block quotes, bullet and task lists, numbered lists,
/// simple tables, blank lines and paragraphs, with inline markup inside.
/// All text is HTML-escaped.
pub fn parse_markdown(md: &str) -> (res: String)
    ensures
        res@ == md_html(md@),
{
    string_of(&md_chars(&chars_of(md)))
}

// ---------------------------------------------------------------------------
// Laws
// ---------------------------------------------------------------------------

/// Escaped text holds no `<`, `>` or `"`: text from a note can never open
/// or close a tag or an attribute.
pub proof fn law_escaped_text_has_no_markup(s: Seq<char>)
    ensures
        forall|k: int|
            0 <= k < esc_html_spec(s).len() ==> #[trigger] esc_html_spec(s)[k] != '<' && esc_html_spec(s)[k]
                != '>' && esc_html_spec(s)[k] != '"',
    decreases s.len(),
{
    reveal_strlit("&amp;");
    reveal_strlit("&lt;");
    reveal_strlit("&gt;");
    reveal_strlit("&quot;");
    if s.len() > 0 {
        law_escaped_text_has_no_markup(s.drop_last());
        let a = esc_html_spec(s.drop_last());
        let b = esc_char(s.last());
        assert forall|k: int| 0 <= k < b.len() implies #[trigger] b[k] != '<' && b[k] != '>' && b[k] != '"' by {
        }
        assert forall|k: int|
            0 <= k < esc_html_spec(s).len() implies #[trigger] esc_html_spec(s)[k] != '<' && esc_html_spec(s)[k]
                != '>' && esc_html_spec(s)[k] != '"' by {
            if k < a.len() {
                assert(esc_html_spec(s)[k] == a[k]);
            } else {
                assert(esc_html_spec(s)[k] == b[k - a.len()]);
            }
        }
    }
}

/// A character that may start inline markup.
pub open spec fn markup_char(c: char) -> bool {
    c == '`' || c == '!' || c == '[' || c == '*' || c == '_' || c == '~'
}

proof fn lemma_plain_inline_from(s: Seq<char>, i: int)
    requires
        0 <= i <= s.len(),
        forall|k: int| 0 <= k < s.len() ==> !markup_char(#[trigger] s[k]),
    ensures
        inline_from(s, i) == s.skip(i),
    decreases s.len() - i,
{
    if i < s.len() {
        lemma_plain_inline_from(s, i + 1);
        assert(!markup_char(s[i]));
        assert(seq![s[i]] + s.skip(i + 1) =~= s.skip(i));
    } else {
        assert(s.skip(i) =~= Seq::<char>::empty());
    }
}

/// Text without markup characters is left as it is by inline markup.
pub proof fn law_plain_text_unchanged(s: Seq<char>)
    requires
        forall|k: int| 0 <= k < s.len() ==> !markup_char(#[trigger] s[k]),
    ensures
        inline_spec(s) == s,
{
    lemma_plain_inline_from(s, 0);
    assert(s.skip(0) =~= s);
}

/// A heading line renders in the heading element of its level: the tag of
/// a line with `h` leading `#` (one to six) is `h` followed by the decimal
/// digit of `h`, in the opening and in the closing tag.
pub proof fn law_heading_tag_matches_hashes(s: Seq<char>, i: int)
    requires
        0 <= i < lines_spec(s).len(),
        is_heading(lines_spec(s)[i]),
    ensures
        ({
            let h = lead_run(lines_spec(s)[i], '#');
            let out = block_html(s, i);
            &&& out.len() >= 9
            &&& out[0] == '<' && out[1] == 'h' && out[2] as u32 == 48 + h && out[3] == '>'
            &&& out[out.len() - 6] == '<' && out[out.len() - 5] == '/' && out[out.len() - 4] == 'h'
            &&& out[out.len() - 3] as u32 == 48 + h && out[out.len() - 2] == '>' && out[out.len() - 1] == '\n'
        }),
{
    let l = lines_spec(s)[i];
    let h = lead_run(l, '#');
    assert(l.len() > 0 && l[0] == '#');
    assert(!is_fence(l)) by {
        if is_fence(l) {
            assert(seq!['`', '`', '`'][0] == l[0]);
        }
    }
    let d = level_digit(h);
    assert(d as u32 == 48 + h);
    let body = inline_spec(esc_html_spec(l.skip(h + 1 as int)));
    let open = seq!['<', 'h', d, '>'];
    let close = seq!['<', '/', 'h', d, '>', '\n'];
    assert(block_html(s, i) == open + body + close);
    let out = open + body + close;
    assert(out[0] == open[0] && out[1] == open[1] && out[2] == open[2] && out[3] == open[3]);
    assert(out[out.len() - 6] == close[0]);
    assert(out[out.len() - 5] == close[1]);
    assert(out[out.len() - 4] == close[2]);
    assert(out[out.len() - 3] == close[3]);
    assert(out[out.len() - 2] == close[4]);
    assert(out[out.len() - 1] == close[5]);
}

} // verus!
