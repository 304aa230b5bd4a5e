//! Small facts about a note's Markdown text: its title line, the creation
//! stamp line, and rewriting the title.

use vstd::prelude::*;
use crate::text::{
    lines_spec, join_spec, is_prefix, trim_spec, trim_start_matches_spec, is_suffix, seqs_of,
    lines, join, starts_with, ends_with, trim, trim_start_matches, concat, text, chars_of,
    string_of,
};

verus! {

broadcast use vstd::string::group_string_axioms;

/// `# `, the start of a level-one heading.
pub open spec fn h1_marker() -> Seq<char> {
    seq!['#', ' ']
}

/// The rewritten text of a note whose title becomes `t`: a first line that
/// is a `# ` heading is replaced, otherwise a heading and a blank line are
/// put in front.
pub open spec fn set_content_title_spec(c: Seq<char>, t: Seq<char>) -> Seq<char> {
    let ls = lines_spec(c);
    if ls.len() > 0 && is_prefix(h1_marker(), ls[0]) {
        let rest = join_spec(ls.drop_first(), '\n');
        if rest.len() == 0 {
            h1_marker() + t
        } else {
            h1_marker() + t + seq!['\n'] + rest
        }
    } else {
        h1_marker() + t + seq!['\n', '\n'] + c
    }
}

/// A `*Created: ...*` stamp line, once trimmed.
pub open spec fn is_created_stamp_spec(line: Seq<char>) -> bool {
    let t = trim_spec(line);
    is_prefix(seq!['*', 'C', 'r', 'e', 'a', 't', 'e', 'd', ':'], t) && is_suffix(seq!['*'], t)
}

/// The first line that starts with `# `, if any.
pub open spec fn first_h1_from(ls: Seq<Seq<char>>, i: int) -> Option<Seq<char>>
    decreases ls.len() - i,
{
    if i < 0 || i >= ls.len() {
        None
    } else if is_prefix(h1_marker(), ls[i]) {
        Some(ls[i])
    } else {
        first_h1_from(ls, i + 1)
    }
}

/// The title a reader shows for a note: the first `# ` line with every
/// leading `# ` removed, or `fallback` when there is no such line.
pub open spec fn title_from_content_spec(c: Seq<char>, fallback: Seq<char>) -> Seq<char> {
    match first_h1_from(lines_spec(c), 0) {
        Some(l) => trim_start_matches_spec(l, h1_marker()),
        None => fallback,
    }
}

/// The first line of `ls` at or after `i` that starts with `# `.
pub fn first_h1(ls: &Vec<Vec<char>>, i: usize) -> (res: Option<usize>)
    requires
        i <= ls.len(),
    ensures
        match res {
            Some(j) => j < ls.len() && first_h1_from(seqs_of(ls@), i as int) == Some(ls@[j as int]@),
            None => first_h1_from(seqs_of(ls@), i as int) is None,
        },
{
    proof {
        reveal_strlit("# ");
        assert("# "@ =~= h1_marker());
    }
    let marker = text("# ");
    let mut j = i;
    while j < ls.len()
        invariant
            i <= j <= ls.len(),
            marker@ == h1_marker(),
            first_h1_from(seqs_of(ls@), i as int) == first_h1_from(seqs_of(ls@), j as int),
        decreases ls.len() - j,
    {
        if starts_with(&ls[j], &marker) {
            return Some(j);
        }
        j = j + 1;
    }
    None
}

/// The title shown for a note read from `content` (the first `# ` line
/// without its marker), or `fallback`.
pub fn title_from_content(content: &str, fallback: &str) -> (res: String)
    ensures
        res@ == title_from_content_spec(content@, fallback@),
{
    let c = chars_of(content);
    let ls = lines(&c);
    match first_h1(&ls, 0) {
        Some(j) => {
            proof {
                reveal_strlit("# ");
        assert("# "@ =~= h1_marker());
            }
            let marker = text("# ");
            string_of(&trim_start_matches(&ls[j], &marker))
        },
        None => string_of(&chars_of(fallback)),
    }
}

/// Whether a line is the `*Created: ...*` stamp that new notes carry.
pub fn is_created_stamp(line: &Vec<char>) -> (res: bool)
    ensures
        res == is_created_stamp_spec(line@),
{
    proof {
        reveal_strlit("*Created:");
        reveal_strlit("*");
        assert("*Created:"@ =~= seq!['*', 'C', 'r', 'e', 'a', 't', 'e', 'd', ':']);
        assert("*"@ =~= seq!['*']);
    }
    let t = trim(line);
    starts_with(&t, &text("*Created:")) && ends_with(&t, &text("*"))
}

/// Rewrites the title heading of a note to `title`.
pub fn set_content_title(content: &Vec<char>, title: &Vec<char>) -> (res: Vec<char>)
    ensures
        res@ == set_content_title_spec(content@, title@),
{
    proof {
        reveal_strlit("\n\n");
        assert("\n\n"@ =~= seq!['\n', '\n']);
        reveal_strlit("# ");
        assert("# "@ =~= h1_marker());
    }
    let ls = lines(content);
    let marker = text("# ");
    if ls.len() > 0 && starts_with(&ls[0], &marker) {
        let mut tail: Vec<Vec<char>> = Vec::new();
        let mut k: usize = 1;
        while k < ls.len()
            invariant
                1 <= k <= ls.len(),
                seqs_of(tail@) == seqs_of(ls@).subrange(1, k as int),
            decreases ls.len() - k,
        {
            let ghost before = seqs_of(tail@);
            let item = ls[k].clone();
            assert(item@ == seqs_of(ls@)[k as int]);
            tail.push(item);
            assert(seqs_of(tail@) =~= before.push(item@));
            k = k + 1;
            assert(seqs_of(tail@) =~= seqs_of(ls@).subrange(1, k as int));
        }
        assert(seqs_of(ls@).subrange(1, ls.len() as int) =~= seqs_of(ls@).drop_first());
        let rest = join(&tail, '\n');
        let head = concat(&marker, title);
        if rest.len() == 0 {
            head
        } else {
            let mut h = head;
            h.push('\n');
            concat(&h, &rest)
        }
    } else {
        let head = concat(&marker, title);
        let sep = text("\n\n");
        let h = concat(&head, &sep);
        concat(&h, content)
    }
}

} // verus!
