//! `#tag` and `[[wikilink]]` extraction from note text.

use vstd::prelude::*;
use crate::text::{
    lemma_dedup_distinct, lemma_dedup_members,
    is_alphanumeric, lines_spec, words_spec, dedup_spec, is_prefix, find_spec, trim_spec,
    trim_start_matches_spec, seqs_of, chars_of, string_of, lines, split_whitespace, push_new,
    trim_start_matches, find_exec, trim, slice_of, text, char_is_alphanumeric,
};

verus! {

broadcast use vstd::string::group_string_axioms;

/// A character that may continue a tag name.
pub open spec fn tag_char(c: char) -> bool {
    is_alphanumeric(c) || c == '-' || c == '_'
}

/// The length of the run of tag characters at the start of `s`.
pub open spec fn tag_run(s: Seq<char>) -> nat
    decreases s.len(),
{
    if s.len() > 0 && tag_char(s[0]) {
        1 + tag_run(s.drop_first())
    } else {
        0
    }
}

/// The tag a word names: after its leading `#`s, the run of tag characters.
pub open spec fn tag_of_word(w: Seq<char>) -> Seq<char> {
    let rest = trim_start_matches_spec(w, seq!['#']);
    rest.take(tag_run(rest) as int)
}

/// Some character of `t` is alphanumeric.
pub open spec fn has_alnum(t: Seq<char>) -> bool {
    exists|j: int| 0 <= j < t.len() && #[trigger] is_alphanumeric(t[j])
}

/// A word that names a tag: it starts with `#`, has more after it, and the
/// tag it names holds at least one alphanumeric character.
pub open spec fn is_tag_word(w: Seq<char>) -> bool {
    w.len() > 1 && w[0] == '#' && has_alnum(tag_of_word(w))
}

/// The tags named by the words, in order.
pub open spec fn word_tags(ws: Seq<Seq<char>>) -> Seq<Seq<char>>
    decreases ws.len(),
{
    if ws.len() == 0 {
        Seq::<Seq<char>>::empty()
    } else if is_tag_word(ws.last()) {
        word_tags(ws.drop_last()).push(tag_of_word(ws.last()))
    } else {
        word_tags(ws.drop_last())
    }
}

/// The tags named in one line; a line that starts with `#` is a heading and
/// names none.
pub open spec fn line_tags(l: Seq<char>) -> Seq<Seq<char>> {
    if l.len() > 0 && l[0] == '#' {
        Seq::<Seq<char>>::empty()
    } else {
        word_tags(words_spec(l))
    }
}

/// The tags named in the lines, in order, repeats included.
pub open spec fn lines_tags(ls: Seq<Seq<char>>) -> Seq<Seq<char>>
    decreases ls.len(),
{
    if ls.len() == 0 {
        Seq::<Seq<char>>::empty()
    } else {
        lines_tags(ls.drop_last()) + line_tags(ls.last())
    }
}

/// The tags of a note: each tag once, in order of first use.
pub open spec fn tags_spec(content: Seq<char>) -> Seq<Seq<char>> {
    dedup_spec(lines_tags(lines_spec(content)))
}

/// The `[[...]]` targets from `rest` on, in order, repeats included: each
/// `[[` is matched with the next `]]`, and the text between them is trimmed;
/// an unclosed `[[` ends the search.
pub open spec fn link_targets(rest: Seq<char>) -> Seq<Seq<char>>
    decreases rest.len(),
{
    match find_spec(rest, seq!['[', '[']) {
        None => Seq::<Seq<char>>::empty(),
        Some(start) => {
            let after = rest.skip(start + 2);
            match find_spec(after, seq![']', ']']) {
                None => Seq::<Seq<char>>::empty(),
                Some(end) => {
                    proof {
                        lemma_find_bounds(rest, seq!['[', '['], 0);
                        lemma_find_bounds(after, seq![']', ']'], 0);
                    }
                    let t = trim_spec(after.take(end));
                    if t.len() > 0 {
                        seq![t] + link_targets(after.skip(end + 2))
                    } else {
                        link_targets(after.skip(end + 2))
                    }
                },
            }
        },
    }
}

/// The wikilinks of a note: each target once, in order of first use.
pub open spec fn wikilinks_spec(content: Seq<char>) -> Seq<Seq<char>> {
    dedup_spec(link_targets(content))
}

/// A found occurrence lies inside the text, at or after where the search began.
pub proof fn lemma_find_bounds(s: Seq<char>, p: Seq<char>, i: int)
    ensures
        find_from(s, p, i) matches Some(j) ==> i <= j && j + p.len() <= s.len() && crate::text::occurs_at(s, p, j),
    decreases s.len() + 1 - i,
{
    if !(i < 0 || i + p.len() > s.len()) && !crate::text::occurs_at(s, p, i) {
        lemma_find_bounds(s, p, i + 1);
    }
}

use crate::text::find_from;

/// Whether some character of `t` is alphanumeric.
fn has_alnum_exec(t: &Vec<char>) -> (res: bool)
    ensures
        res == has_alnum(t@),
{
    let mut i: usize = 0;
    while i < t.len()
        invariant
            i <= t.len(),
            forall|j: int| 0 <= j < i ==> !#[trigger] is_alphanumeric(t@[j]),
        decreases t.len() - i,
    {
        if char_is_alphanumeric(t[i]) {
            return true;
        }
        i = i + 1;
    }
    false
}

/// The tag a word names.
fn tag_of_word_exec(w: &Vec<char>) -> (res: Vec<char>)
    ensures
        res@ == tag_of_word(w@),
{
    let hash: Vec<char> = vec!['#'];
    assert(hash@ =~= seq!['#']);
    let rest = trim_start_matches(w, &hash);
    let mut i: usize = 0;
    assert(rest@.skip(0) =~= rest@);
    while i < rest.len() && (char_is_alphanumeric(rest[i]) || rest[i] == '-' || rest[i] == '_')
        invariant
            i <= rest.len(),
            tag_run(rest@) == i + tag_run(rest@.skip(i as int)),
        decreases rest.len() - i,
    {
        assert(rest@.skip(i as int).drop_first() =~= rest@.skip(i + 1));
        i = i + 1;
    }
    proof {
        let t = rest@.skip(i as int);
        if t.len() > 0 {
            assert(t[0] == rest@[i as int]);
        }
        assert(tag_run(rest@) == i);
        assert(rest@.take(i as int) =~= rest@.subrange(0, i as int));
    }
    slice_of(&rest, 0, i)
}

/// Extract `#tag` tokens from note content.
///
/// A token qualifies as a tag when it:
/// - starts with `#`
/// - has at least one alphanumeric character after `#`
/// - appears after a word boundary (not at the very start of a line,
///   which would be a Markdown heading)
///
/// Only alphanumeric characters, `-`, and `_` are included in the tag name —
/// trailing punctuation like `#rust,` yields the tag `rust`.
pub fn extract_tags(content: &str) -> (res: Vec<String>)
    ensures
        res@.map_values(|t: String| t@) == tags_spec(content@),
{
    let tags = extract_tags_chars(&chars_of(content));
    let mut out: Vec<String> = Vec::new();
    let mut k: usize = 0;
    while k < tags.len()
        invariant
            k <= tags.len(),
            out@.map_values(|t: String| t@) == seqs_of(tags@).take(k as int),
        decreases tags.len() - k,
    {
        let ghost before = out@.map_values(|t: String| t@);
        let s = string_of(&tags[k]);
        out.push(s);
        assert(out@.map_values(|t: String| t@) =~= before.push(s@));
        assert(seqs_of(tags@).take(k as int + 1) =~= seqs_of(tags@).take(k as int).push(tags@[k as int]@));
        k = k + 1;
    }
    assert(seqs_of(tags@).take(tags.len() as int) =~= seqs_of(tags@));
    out
}

/// The tags of note text given as characters.
pub fn extract_tags_chars(content: &Vec<char>) -> (res: Vec<Vec<char>>)
    ensures
        seqs_of(res@) == tags_spec(content@),
{
    let ls = lines(content);
    let mut tags: Vec<Vec<char>> = Vec::new();
    let ghost mut offered: Seq<Seq<char>> = Seq::empty();
    let mut i: usize = 0;
    while i < ls.len()
        invariant
            i <= ls.len(),
            seqs_of(ls@) == lines_spec(content@),
            offered == lines_tags(seqs_of(ls@).take(i as int)),
            seqs_of(tags@) == dedup_spec(offered),
        decreases ls.len() - i,
    {
        let line = &ls[i];
        assert(line@ == seqs_of(ls@)[i as int]);
        assert(seqs_of(ls@).take(i + 1).drop_last() =~= seqs_of(ls@).take(i as int));
        if line.len() > 0 && line[0] == '#' {
            assert(offered + line_tags(line@) =~= offered);
        } else {
            let words = split_whitespace(line);
            let ghost start = offered;
            let mut j: usize = 0;
            while j < words.len()
                invariant
                    j <= words.len(),
                    seqs_of(words@) == words_spec(line@),
                    offered == start + word_tags(seqs_of(words@).take(j as int)),
                    seqs_of(tags@) == dedup_spec(offered),
                decreases words.len() - j,
            {
                let w = &words[j];
                assert(w@ == seqs_of(words@)[j as int]);
                assert(seqs_of(words@).take(j + 1).drop_last() =~= seqs_of(words@).take(j as int));
                if w.len() > 1 && w[0] == '#' {
                    let tag = tag_of_word_exec(w);
                    if has_alnum_exec(&tag) {
                        let ghost g = offered;
                        push_new(&mut tags, tag, Ghost(g));
                        proof {
                            offered = offered.push(tag_of_word(w@));
                        }
                        assert(start + word_tags(seqs_of(words@).take(j + 1)) =~= offered);
                    } else {
                        assert(start + word_tags(seqs_of(words@).take(j + 1)) =~= offered);
                    }
                } else {
                    assert(start + word_tags(seqs_of(words@).take(j + 1)) =~= offered);
                }
                j = j + 1;
            }
            assert(seqs_of(words@).take(words.len() as int) =~= seqs_of(words@));
        }
        i = i + 1;
    }
    assert(seqs_of(ls@).take(ls.len() as int) =~= seqs_of(ls@));
    tags
}

/// Extract `[[wikilink]]` targets from note content (deduplicated, in order).
pub fn extract_wikilinks(content: &str) -> (res: Vec<String>)
    ensures
        res@.map_values(|t: String| t@) == wikilinks_spec(content@),
{
    let links = extract_wikilinks_chars(&chars_of(content));
    let mut out: Vec<String> = Vec::new();
    let mut k: usize = 0;
    while k < links.len()
        invariant
            k <= links.len(),
            out@.map_values(|t: String| t@) == seqs_of(links@).take(k as int),
        decreases links.len() - k,
    {
        let ghost before = out@.map_values(|t: String| t@);
        let s = string_of(&links[k]);
        out.push(s);
        assert(out@.map_values(|t: String| t@) =~= before.push(s@));
        assert(seqs_of(links@).take(k as int + 1) =~= seqs_of(links@).take(k as int).push(links@[k as int]@));
        k = k + 1;
    }
    assert(seqs_of(links@).take(links.len() as int) =~= seqs_of(links@));
    out
}

/// The wikilinks of note text given as characters.
pub fn extract_wikilinks_chars(content: &Vec<char>) -> (res: Vec<Vec<char>>)
    ensures
        seqs_of(res@) == wikilinks_spec(content@),
{
    proof {
        reveal_strlit("[[");
        reveal_strlit("]]");
        assert("[["@ =~= seq!['[', '[']);
        assert("]]"@ =~= seq![']', ']']);
    }
    let open = text("[[");
    let close = text("]]");
    let mut links: Vec<Vec<char>> = Vec::new();
    let ghost mut offered: Seq<Seq<char>> = Seq::empty();
    let mut rest = content.clone();
    loop
        invariant
            open@ == seq!['[', '['],
            close@ == seq![']', ']'],
            link_targets(content@) == offered + link_targets(rest@),
            seqs_of(links@) == dedup_spec(offered),
        ensures
            seqs_of(links@) == wikilinks_spec(content@),
        decreases rest.len(),
    {
        let start = match find_exec(&rest, &open) {
            None => {
                assert(offered + link_targets(rest@) =~= offered);
                break;
            },
            Some(s) => s,
        };
        proof {
            lemma_find_bounds(rest@, open@, 0);
        }
        let after = slice_of(&rest, start + 2, rest.len());
        assert(after@ =~= rest@.skip(start + 2));
        let end = match find_exec(&after, &close) {
            None => {
                assert(offered + link_targets(rest@) =~= offered);
                break;
            },
            Some(e) => e,
        };
        proof {
            lemma_find_bounds(after@, close@, 0);
        }
        let title = trim(&slice_of(&after, 0, end));
        let next = slice_of(&after, end + 2, after.len());
        assert(next@ =~= after@.skip(end + 2));
        if title.len() > 0 {
            let ghost g = offered;
            let ghost t = title@;
            push_new(&mut links, title, Ghost(g));
            proof {
                offered = offered.push(t);
                assert(g + (seq![t] + link_targets(next@)) =~= offered + link_targets(next@));
            }
        }
        rest = next;
    }
    links
}

// ---------------------------------------------------------------------------
// Laws
// ---------------------------------------------------------------------------

/// A well-formed tag: made only of alphanumerics, `-` and `_`, with at
/// least one alphanumeric among them.
pub open spec fn good_tag(t: Seq<char>) -> bool {
    &&& has_alnum(t)
    &&& forall|j: int| 0 <= j < t.len() ==> #[trigger] tag_char(t[j])
}

proof fn lemma_tag_run(s: Seq<char>)
    ensures
        tag_run(s) <= s.len(),
        forall|j: int| 0 <= j < tag_run(s) ==> #[trigger] tag_char(s[j]),
    decreases s.len(),
{
    if s.len() > 0 && tag_char(s[0]) {
        lemma_tag_run(s.drop_first());
        assert forall|j: int| 0 <= j < tag_run(s) implies #[trigger] tag_char(s[j]) by {
            if j > 0 {
                assert(s[j] == s.drop_first()[j - 1]);
            }
        }
    }
}

proof fn lemma_word_tags_good(ws: Seq<Seq<char>>)
    ensures
        forall|k: int| 0 <= k < word_tags(ws).len() ==> good_tag(#[trigger] word_tags(ws)[k]),
    decreases ws.len(),
{
    if ws.len() > 0 {
        lemma_word_tags_good(ws.drop_last());
        if is_tag_word(ws.last()) {
            let w = ws.last();
            let rest = trim_start_matches_spec(w, seq!['#']);
            lemma_tag_run(rest);
            let t = tag_of_word(w);
            assert forall|j: int| 0 <= j < t.len() implies #[trigger] tag_char(t[j]) by {
                assert(t[j] == rest[j]);
            }
            let init = word_tags(ws.drop_last());
            assert forall|k: int| 0 <= k < word_tags(ws).len() implies good_tag(#[trigger] word_tags(ws)[k]) by {
                if k < init.len() {
                    assert(word_tags(ws)[k] == init[k]);
                } else {
                    assert(word_tags(ws)[k] == t);
                }
            }
        }
    }
}

proof fn lemma_lines_tags_good(ls: Seq<Seq<char>>)
    ensures
        forall|k: int| 0 <= k < lines_tags(ls).len() ==> good_tag(#[trigger] lines_tags(ls)[k]),
    decreases ls.len(),
{
    if ls.len() > 0 {
        lemma_lines_tags_good(ls.drop_last());
        let l = ls.last();
        if !(l.len() > 0 && l[0] == '#') {
            lemma_word_tags_good(words_spec(l));
        }
        let a = lines_tags(ls.drop_last());
        let b = line_tags(l);
        assert forall|k: int| 0 <= k < lines_tags(ls).len() implies good_tag(#[trigger] lines_tags(ls)[k]) by {
            if k < a.len() {
                assert(lines_tags(ls)[k] == a[k]);
            } else {
                assert(lines_tags(ls)[k] == b[k - a.len()]);
            }
        }
    }
}

/// Each tag of a note is listed once, and every tag is made only of
/// alphanumerics, `-` and `_`, with at least one alphanumeric (trailing
/// punctuation never belongs to a tag).
pub proof fn law_tags_well_formed(content: Seq<char>)
    ensures
        forall|i: int, j: int|
            0 <= i < j < tags_spec(content).len() ==> #[trigger] tags_spec(content)[i] != #[trigger] tags_spec(
                content,
            )[j],
        forall|k: int| 0 <= k < tags_spec(content).len() ==> good_tag(#[trigger] tags_spec(content)[k]),
{
    let all = lines_tags(lines_spec(content));
    lemma_dedup_distinct(all);
    lemma_dedup_members(all);
    lemma_lines_tags_good(lines_spec(content));
    assert forall|k: int| 0 <= k < tags_spec(content).len() implies good_tag(#[trigger] tags_spec(content)[k]) by {
        let t = tags_spec(content)[k];
        assert(dedup_spec(all).contains(t));
        let i = choose|i: int| 0 <= i < all.len() && all[i] == t;
        assert(good_tag(all[i]));
    }
}

proof fn lemma_headings_no_tags(ls: Seq<Seq<char>>)
    requires
        forall|k: int| 0 <= k < ls.len() ==> (#[trigger] ls[k]).len() > 0 && ls[k][0] == '#',
    ensures
        lines_tags(ls).len() == 0,
    decreases ls.len(),
{
    if ls.len() > 0 {
        lemma_headings_no_tags(ls.drop_last());
        assert(ls.last() == ls[ls.len() - 1]);
    }
}

/// Lines that start with `#` are headings: a text made only of them has no
/// tags.
pub proof fn law_headings_have_no_tags(content: Seq<char>)
    requires
        forall|k: int|
            0 <= k < lines_spec(content).len() ==> (#[trigger] lines_spec(content)[k]).len() > 0
                && lines_spec(content)[k][0] == '#',
    ensures
        tags_spec(content).len() == 0,
{
    lemma_headings_no_tags(lines_spec(content));
    assert(lines_tags(lines_spec(content)) =~= Seq::<Seq<char>>::empty());
}

proof fn lemma_link_targets_nonempty(rest: Seq<char>)
    ensures
        forall|k: int| 0 <= k < link_targets(rest).len() ==> (#[trigger] link_targets(rest)[k]).len() > 0,
    decreases rest.len(),
{
    match find_spec(rest, seq!['[', '[']) {
        None => {},
        Some(start) => {
            let after = rest.skip(start + 2);
            match find_spec(after, seq![']', ']']) {
                None => {},
                Some(end) => {
                    lemma_find_bounds(rest, seq!['[', '['], 0);
                    lemma_find_bounds(after, seq![']', ']'], 0);
                    let next = after.skip(end + 2);
                    lemma_link_targets_nonempty(next);
                    let t = trim_spec(after.take(end));
                    if t.len() > 0 {
                        let r = seq![t] + link_targets(next);
                        assert forall|k: int| 0 <= k < r.len() implies (#[trigger] r[k]).len() > 0 by {
                            if k > 0 {
                                assert(r[k] == link_targets(next)[k - 1]);
                            }
                        }
                    }
                },
            }
        },
    }
}

/// The wikilinks of a note are listed once each (in order of first use),
/// and none is empty.
pub proof fn law_wikilinks_distinct(content: Seq<char>)
    ensures
        forall|i: int, j: int|
            0 <= i < j < wikilinks_spec(content).len() ==> #[trigger] wikilinks_spec(content)[i]
                != #[trigger] wikilinks_spec(content)[j],
        forall|k: int| 0 <= k < wikilinks_spec(content).len() ==> (#[trigger] wikilinks_spec(content)[k]).len() > 0,
{
    let all = link_targets(content);
    lemma_dedup_distinct(all);
    lemma_dedup_members(all);
    lemma_link_targets_nonempty(content);
    assert forall|k: int| 0 <= k < wikilinks_spec(content).len() implies (#[trigger] wikilinks_spec(content)[k]).len()
        > 0 by {
        let t = wikilinks_spec(content)[k];
        assert(dedup_spec(all).contains(t));
        let i = choose|i: int| 0 <= i < all.len() && all[i] == t;
        assert(all[i].len() > 0);
    }
}

proof fn lemma_word_tags_complete(ws: Seq<Seq<char>>)
    ensures
        forall|k: int| 0 <= k < ws.len() && is_tag_word(ws[k]) ==> #[trigger] word_tags(ws).contains(
            tag_of_word(ws[k]),
        ),
    decreases ws.len(),
{
    if ws.len() > 0 {
        let init = ws.drop_last();
        lemma_word_tags_complete(init);
        let a = word_tags(init);
        let b = word_tags(ws);
        assert forall|k: int| 0 <= k < ws.len() && is_tag_word(ws[k]) implies #[trigger] word_tags(ws).contains(
            tag_of_word(ws[k]),
        ) by {
            if k < init.len() {
                assert(init[k] == ws[k]);
                assert(a.contains(tag_of_word(init[k])));
                let j = choose|j: int| 0 <= j < a.len() && a[j] == tag_of_word(init[k]);
                if is_tag_word(ws.last()) {
                    assert(b[j] == a[j]);
                }
            } else {
                assert(ws[k] == ws.last());
                assert(b[b.len() - 1] == tag_of_word(ws.last()));
            }
        }
    }
}

proof fn lemma_lines_tags_complete(ls: Seq<Seq<char>>)
    ensures
        forall|i: int, k: int|
            #![trigger words_spec(ls[i])[k]]
            0 <= i < ls.len() && !(ls[i].len() > 0 && ls[i][0] == '#') && 0 <= k < words_spec(ls[i]).len()
                && is_tag_word(words_spec(ls[i])[k]) ==> lines_tags(ls).contains(tag_of_word(words_spec(ls[i])[k])),
    decreases ls.len(),
{
    if ls.len() > 0 {
        let init = ls.drop_last();
        lemma_lines_tags_complete(init);
        let a = lines_tags(init);
        let b = line_tags(ls.last());
        assert(lines_tags(ls) == a + b);
        assert forall|i: int, k: int|
            #![trigger words_spec(ls[i])[k]]
            0 <= i < ls.len() && !(ls[i].len() > 0 && ls[i][0] == '#') && 0 <= k < words_spec(ls[i]).len()
                && is_tag_word(words_spec(ls[i])[k]) implies lines_tags(ls).contains(
            tag_of_word(words_spec(ls[i])[k]),
        ) by {
            let t = tag_of_word(words_spec(ls[i])[k]);
            if i < init.len() {
                assert(init[i] == ls[i]);
                assert(words_spec(init[i])[k] == words_spec(ls[i])[k]);
                assert(a.contains(t));
                let j = choose|j: int| 0 <= j < a.len() && a[j] == t;
                assert((a + b)[j] == a[j]);
            } else {
                assert(ls[i] == ls.last());
                lemma_word_tags_complete(words_spec(ls.last()));
                assert(b.contains(t));
                let j = choose|j: int| 0 <= j < b.len() && b[j] == t;
                assert((a + b)[a.len() + j] == b[j]);
            }
        }
    }
}

/// Every tag written in a note is found: a whitespace-separated word of a
/// line that is not a heading, starting with `#` and longer than it, whose
/// tag (after its leading `#`s, the run of alphanumerics, `-` and `_`)
/// holds an alphanumeric, gives that tag.
pub proof fn law_tags_complete(content: Seq<char>)
    ensures
        forall|i: int, k: int|
            #![trigger words_spec(lines_spec(content)[i])[k]]
            0 <= i < lines_spec(content).len() && !(lines_spec(content)[i].len() > 0 && lines_spec(content)[i][0]
                == '#') && 0 <= k < words_spec(lines_spec(content)[i]).len() && {
                let w = words_spec(lines_spec(content)[i])[k];
                w.len() > 1 && w[0] == '#' && has_alnum(tag_of_word(w))
            } ==> tags_spec(content).contains(tag_of_word(words_spec(lines_spec(content)[i])[k])),
{
    let ls = lines_spec(content);
    lemma_lines_tags_complete(ls);
    lemma_dedup_members(lines_tags(ls));
}

} // verus!
