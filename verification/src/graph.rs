//! The link graph around one note: the notes its `[[wikilinks]]` name
//! (outgoing) and the notes whose text links to it (backlinks).

use vstd::prelude::*;
use crate::text::{
    lowercase, contains_spec, seqs_of, chars_of, string_of, to_lowercase, contains, same, concat,
    text,
};
use crate::error::{ErrorKind, StoreError, about};
use crate::slug::{resolve_spec, resolve_id};
use crate::tags::{wikilinks_spec, extract_wikilinks_chars};
use crate::fsplan::{
    FsOp, FsReply, Step, StepView, ReplyView, replies_view, probe, fail, succeed, note_path,
    probe_step, fail_step, note_path_exec,
};
use crate::store::Store;
use crate::note::{Note, NoteView};

verus! {

broadcast use vstd::string::group_string_axioms;

/// A note at one end of a link.
#[derive(Debug)]
pub struct LinkedNote {
    pub slug: String,
    pub title: String,
}

/// The links of one note.
#[derive(Debug)]
pub struct NoteGraph {
    /// The notes its wikilinks name, in list order.
    pub outgoing: Vec<LinkedNote>,
    /// The notes that link to it, in list order.
    pub backlinks: Vec<LinkedNote>,
}

/// The mathematical value of a linked note: its id and title.
pub type LinkView = (Seq<char>, Seq<char>);

impl View for LinkedNote {
    type V = LinkView;

    open spec fn view(&self) -> LinkView {
        (self.slug@, self.title@)
    }
}

/// The views of linked notes.
pub open spec fn links_view(v: Seq<LinkedNote>) -> Seq<LinkView> {
    v.map_values(|l: LinkedNote| l@)
}

/// The mathematical value of a link graph: outgoing, then backlinks.
pub struct GraphView {
    pub outgoing: Seq<LinkView>,
    pub backlinks: Seq<LinkView>,
}

impl View for NoteGraph {
    type V = GraphView;

    open spec fn view(&self) -> GraphView {
        GraphView { outgoing: links_view(self.outgoing@), backlinks: links_view(self.backlinks@) }
    }
}

/// The views of notes.
pub open spec fn notes_view(v: Seq<Note>) -> Seq<NoteView> {
    v.map_values(|n: Note| n@)
}

// ---------------------------------------------------------------------------
// Models
// ---------------------------------------------------------------------------

/// A character's code with ASCII capitals made small.
pub open spec fn ascii_lower_code(c: char) -> u32 {
    let n = c as u32;
    if 65 <= n <= 90 {
        (n + 32) as u32
    } else {
        n
    }
}

/// `str::eq_ignore_ascii_case`.
pub open spec fn ascii_eq(a: Seq<char>, b: Seq<char>) -> bool {
    a.len() == b.len() && forall|k: int| 0 <= k < a.len() ==> #[trigger] ascii_lower_code(a[k]) == ascii_lower_code(b[k])
}

/// One of the link targets names the note, by title or by id.
pub open spec fn named_by(links: Seq<Seq<char>>, n: NoteView) -> bool {
    exists|j: int| 0 <= j < links.len() && (ascii_eq(#[trigger] links[j], n.title) || ascii_eq(links[j], n.name))
}

/// The notes the link targets name, in list order.
pub open spec fn outgoing_spec(notes: Seq<NoteView>, links: Seq<Seq<char>>) -> Seq<LinkView>
    decreases notes.len(),
{
    if notes.len() == 0 {
        Seq::<LinkView>::empty()
    } else if named_by(links, notes.last()) {
        outgoing_spec(notes.drop_last(), links).push((notes.last().name, notes.last().title))
    } else {
        outgoing_spec(notes.drop_last(), links)
    }
}

/// The title of the note with id `id` among `notes` (the first such), or
/// the id itself.
pub open spec fn title_of(notes: Seq<NoteView>, id: Seq<char>) -> Seq<char>
    decreases notes.len(),
{
    if notes.len() == 0 {
        id
    } else if notes[0].name == id {
        notes[0].title
    } else {
        title_of(notes.drop_first(), id)
    }
}

/// `[[t]]`.
pub open spec fn marker(t: Seq<char>) -> Seq<char> {
    seq!['[', '['] + t + seq![']', ']']
}

/// The text links to the note titled `title` with id `id`: it holds
/// `[[title]]` or `[[id]]`, ignoring case.
pub open spec fn links_to(content: Seq<char>, title: Seq<char>, id: Seq<char>) -> bool {
    contains_spec(lowercase(content), lowercase(marker(title))) || contains_spec(
        lowercase(content),
        lowercase(marker(id)),
    )
}

/// The notes whose text is read to find backlinks: every other note whose
/// id is valid, in list order.
pub open spec fn candidates(notes: Seq<NoteView>, id: Seq<char>) -> Seq<NoteView>
    decreases notes.len(),
{
    if notes.len() == 0 {
        notes
    } else if notes.last().name != id && resolve_spec(notes.last().name) is Ok {
        candidates(notes.drop_last(), id).push(notes.last())
    } else {
        candidates(notes.drop_last(), id)
    }
}

/// The candidates whose text (the answer to reading it) links to the note.
pub open spec fn backlinks_spec(
    cands: Seq<NoteView>,
    answers: Seq<ReplyView>,
    title: Seq<char>,
    id: Seq<char>,
) -> Seq<LinkView>
    decreases cands.len(),
{
    if cands.len() == 0 {
        Seq::<LinkView>::empty()
    } else {
        let k = cands.len() - 1;
        let init = backlinks_spec(cands.drop_last(), answers, title, id);
        if answers[k] matches ReplyView::Text(c) && links_to(c, title, id) {
            init.push((cands[k].name, cands[k].title))
        } else {
            init
        }
    }
}

/// `note_graph`: read the note (it must exist), then the text of every
/// candidate; the graph pairs the notes its wikilinks name with the
/// candidates that link back to it.
pub open spec fn graph_plan(slug: Seq<char>, notes: Seq<NoteView>, r: Seq<ReplyView>) -> StepView<
    GraphView,
> {
    match resolve_spec(slug) {
        Err(e) => fail(e),
        Ok(id) => if r.len() == 0 {
            probe(FsOp::ReadText, note_path(id))
        } else {
            match r[0] {
                ReplyView::Text(current) => {
                    let cands = candidates(notes, id);
                    if r.len() - 1 < cands.len() {
                        probe(FsOp::ReadText, note_path(resolve_spec(cands[r.len() - 1].name)->Ok_0))
                    } else {
                        succeed(
                            GraphView {
                                outgoing: outgoing_spec(notes, wikilinks_spec(current)),
                                backlinks: backlinks_spec(cands, r.drop_first(), title_of(notes, id), id),
                            },
                        )
                    }
                },
                _ => fail(about(ErrorKind::NoteNotFound, id)),
            }
        },
    }
}

// ---------------------------------------------------------------------------
// Executable
// ---------------------------------------------------------------------------

/// `str::eq_ignore_ascii_case`.
pub fn eq_ignore_ascii_case(a: &Vec<char>, b: &Vec<char>) -> (res: bool)
    ensures
        res == ascii_eq(a@, b@),
{
    if a.len() != b.len() {
        return false;
    }
    let mut k: usize = 0;
    while k < a.len()
        invariant
            k <= a.len() == b.len(),
            forall|j: int| 0 <= j < k ==> #[trigger] ascii_lower_code(a@[j]) == ascii_lower_code(b@[j]),
        decreases a.len() - k,
    {
        let x = a[k] as u32;
        let y = b[k] as u32;
        let lx = if 65 <= x && x <= 90 {
            x + 32
        } else {
            x
        };
        let ly = if 65 <= y && y <= 90 {
            y + 32
        } else {
            y
        };
        if lx != ly {
            assert(ascii_lower_code(a@[k as int]) != ascii_lower_code(b@[k as int]));
            return false;
        }
        k = k + 1;
    }
    true
}

fn named_by_exec(links: &Vec<Vec<char>>, title: &Vec<char>, name: &Vec<char>) -> (res: bool)
    ensures
        res == exists|j: int|
            0 <= j < links.len() && (ascii_eq(#[trigger] seqs_of(links@)[j], title@) || ascii_eq(
                seqs_of(links@)[j],
                name@,
            )),
{
    let mut j: usize = 0;
    while j < links.len()
        invariant
            j <= links.len(),
            forall|i: int|
                0 <= i < j ==> !(ascii_eq(#[trigger] seqs_of(links@)[i], title@) || ascii_eq(
                    seqs_of(links@)[i],
                    name@,
                )),
        decreases links.len() - j,
    {
        assert(seqs_of(links@)[j as int] == links@[j as int]@);
        if eq_ignore_ascii_case(&links[j], title) || eq_ignore_ascii_case(&links[j], name) {
            return true;
        }
        j = j + 1;
    }
    false
}

fn linked(n: &Note) -> (res: LinkedNote)
    ensures
        res@ == (n.name@, n.title@),
{
    LinkedNote { slug: n.name.clone(), title: n.title.clone() }
}

fn outgoing_exec(notes: &Vec<Note>, links: &Vec<Vec<char>>) -> (res: Vec<LinkedNote>)
    ensures
        links_view(res@) == outgoing_spec(notes_view(notes@), seqs_of(links@)),
{
    let mut out: Vec<LinkedNote> = Vec::new();
    let mut k: usize = 0;
    while k < notes.len()
        invariant
            k <= notes.len(),
            links_view(out@) == outgoing_spec(notes_view(notes@).take(k as int), seqs_of(links@)),
        decreases notes.len() - k,
    {
        let ghost pre = notes_view(notes@).take(k + 1);
        assert(pre.drop_last() =~= notes_view(notes@).take(k as int));
        assert(pre.last() == notes@[k as int]@);
        let n = &notes[k];
        let hit = named_by_exec(links, &chars_of(n.title.as_str()), &chars_of(n.name.as_str()));
        if hit {
            let ghost before = links_view(out@);
            let l = linked(n);
            out.push(l);
            assert(links_view(out@) =~= before.push(l@));
        }
        k = k + 1;
    }
    assert(notes_view(notes@).take(notes.len() as int) =~= notes_view(notes@));
    out
}

fn title_of_exec(notes: &Vec<Note>, id: &Vec<char>) -> (res: Vec<char>)
    ensures
        res@ == title_of(notes_view(notes@), id@),
{
    let mut k: usize = 0;
    assert(notes_view(notes@).skip(0) =~= notes_view(notes@));
    while k < notes.len()
        invariant
            k <= notes.len(),
            title_of(notes_view(notes@), id@) == title_of(notes_view(notes@).skip(k as int), id@),
        decreases notes.len() - k,
    {
        let ghost rest = notes_view(notes@).skip(k as int);
        assert(rest[0] == notes@[k as int]@);
        if same(&chars_of(notes[k].name.as_str()), id) {
            return chars_of(notes[k].title.as_str());
        }
        assert(rest.drop_first() =~= notes_view(notes@).skip(k + 1));
        k = k + 1;
    }
    id.clone()
}

fn marker_exec(t: &Vec<char>) -> (res: Vec<char>)
    ensures
        res@ == marker(t@),
{
    let open: Vec<char> = vec!['[', '['];
    let close: Vec<char> = vec![']', ']'];
    assert(open@ =~= seq!['[', '[']);
    assert(close@ =~= seq![']', ']']);
    concat(&concat(&open, t), &close)
}

/// Whether `content` links to the note titled `title` with id `id`.
pub fn links_to_exec(content: &Vec<char>, title: &Vec<char>, id: &Vec<char>) -> (res: bool)
    ensures
        res == links_to(content@, title@, id@),
{
    let lc = to_lowercase(content);
    contains(&lc, &to_lowercase(&marker_exec(title))) || contains(&lc, &to_lowercase(&marker_exec(id)))
}

/// The candidates, each as a linked note with its resolved id.
fn candidates_exec(notes: &Vec<Note>, id: &Vec<char>) -> (res: Vec<(LinkedNote, Vec<char>)>)
    ensures
        res.len() == candidates(notes_view(notes@), id@).len(),
        forall|k: int|
            0 <= k < res.len() ==> {
                let c = #[trigger] candidates(notes_view(notes@), id@)[k];
                &&& res@[k].0@ == (c.name, c.title)
                &&& resolve_spec(c.name) == Ok::<Seq<char>, crate::error::ErrorView>(res@[k].1@)
            },
{
    let mut out: Vec<(LinkedNote, Vec<char>)> = Vec::new();
    let mut k: usize = 0;
    while k < notes.len()
        invariant
            k <= notes.len(),
            out.len() == candidates(notes_view(notes@).take(k as int), id@).len(),
            forall|j: int|
                0 <= j < out.len() ==> {
                    let c = #[trigger] candidates(notes_view(notes@).take(k as int), id@)[j];
                    &&& out@[j].0@ == (c.name, c.title)
                    &&& resolve_spec(c.name) == Ok::<Seq<char>, crate::error::ErrorView>(out@[j].1@)
                },
        decreases notes.len() - k,
    {
        let ghost pre = notes_view(notes@).take(k + 1);
        let ghost old_c = candidates(notes_view(notes@).take(k as int), id@);
        assert(pre.drop_last() =~= notes_view(notes@).take(k as int));
        assert(pre.last() == notes@[k as int]@);
        let name = chars_of(notes[k].name.as_str());
        if !same(&name, id) {
            match resolve_id(&name) {
                Ok(nid) => {
                    let l = linked(&notes[k]);
                    out.push((l, nid));
                    assert(candidates(pre, id@) == old_c.push(notes@[k as int]@));
                },
                Err(_) => {
                    assert(candidates(pre, id@) == old_c);
                },
            }
        } else {
            assert(candidates(pre, id@) == old_c);
        }
        k = k + 1;
    }
    assert(notes_view(notes@).take(notes.len() as int) =~= notes_view(notes@));
    out
}

impl Store {
    /// Outgoing wikilinks and backlinks for a note (for graph / info
    /// panels), given the vault's notes (`list_notes`): the note's text is
    /// read first, then the text of every other note.
    pub fn note_graph(&self, slug: &str, notes: &Vec<Note>, replies: &Vec<FsReply>) -> (res: Step<NoteGraph>)
        ensures
            res@ == graph_plan(slug@, notes_view(notes@), replies_view(replies@)),
    {
        let id = match resolve_id(&chars_of(slug)) {
            Ok(id) => id,
            Err(e) => {
                return fail_step(e);
            },
        };
        let ghost r = replies_view(replies@);
        if replies.len() == 0 {
            return probe_step(FsOp::ReadText, &note_path_exec(&id));
        }
        assert(r[0] == replies@[0]@);
        let current = match &replies[0] {
            FsReply::Text(c) => chars_of(c.as_str()),
            _ => {
                return fail_step(StoreError::about(ErrorKind::NoteNotFound, &id));
            },
        };
        let cs = candidates_exec(notes, &id);
        let ghost cands = candidates(notes_view(notes@), id@);
        let m = replies.len() - 1;
        if m < cs.len() {
            return probe_step(FsOp::ReadText, &note_path_exec(&cs[m].1));
        }
        let links = extract_wikilinks_chars(&current);
        let outgoing = outgoing_exec(notes, &links);
        let title = title_of_exec(notes, &id);
        let mut back: Vec<LinkedNote> = Vec::new();
        let mut k: usize = 0;
        while k < cs.len()
            invariant
                k <= cs.len() == cands.len(),
                cs.len() <= replies.len() - 1,
                r == replies_view(replies@),
                cands == candidates(notes_view(notes@), id@),
                forall|j: int| 0 <= j < cs.len() ==> #[trigger] cs@[j].0@ == (cands[j].name, cands[j].title),
                links_view(back@) == backlinks_spec(cands.take(k as int), r.drop_first(), title@, id@),
            decreases cs.len() - k,
        {
            let ghost pre = cands.take(k + 1);
            assert(pre.drop_last() =~= cands.take(k as int));
            assert(pre[k as int] == cands[k as int]);
            assert(r.drop_first()[k as int] == replies@[k + 1]@);
            let hit = match &replies[k + 1] {
                FsReply::Text(c) => links_to_exec(&chars_of(c.as_str()), &title, &id),
                _ => false,
            };
            if hit {
                let ghost before = links_view(back@);
                let l = LinkedNote { slug: cs[k].0.slug.clone(), title: cs[k].0.title.clone() };
                back.push(l);
                assert(links_view(back@) =~= before.push(l@));
            }
            k = k + 1;
        }
        assert(cands.take(cs.len() as int) =~= cands);
        Step::Finish(Ok(NoteGraph { outgoing, backlinks: back }))
    }
}

proof fn lemma_title_of(notes: Seq<NoteView>, id: Seq<char>, j: int)
    requires
        0 <= j < notes.len(),
        notes[j].name == id,
        forall|i: int| 0 <= i < j ==> (#[trigger] notes[i]).name != id,
    ensures
        title_of(notes, id) == notes[j].title,
    decreases j,
{
    if j > 0 {
        let rest = notes.drop_first();
        assert(notes[0].name != id);
        assert forall|i: int| 0 <= i < j - 1 implies (#[trigger] rest[i]).name != id by {
            assert(rest[i] == notes[i + 1]);
        }
        lemma_title_of(rest, id, j - 1);
    }
}

proof fn lemma_title_of_none(notes: Seq<NoteView>, id: Seq<char>)
    requires
        forall|i: int| 0 <= i < notes.len() ==> (#[trigger] notes[i]).name != id,
    ensures
        title_of(notes, id) == id,
    decreases notes.len(),
{
    if notes.len() > 0 {
        let rest = notes.drop_first();
        assert(notes[0].name != id);
        assert forall|i: int| 0 <= i < rest.len() implies (#[trigger] rest[i]).name != id by {
            assert(rest[i] == notes[i + 1]);
        }
        lemma_title_of_none(rest, id);
    }
}

/// The title a note's backlinks are looked for by: the title of the first
/// listed note with that id, or the id itself when none is listed.
pub proof fn law_title_of_listed_note(notes: Seq<NoteView>, id: Seq<char>)
    ensures
        forall|j: int|
            0 <= j < notes.len() && (#[trigger] notes[j]).name == id && (forall|i: int|
                0 <= i < j ==> notes[i].name != id) ==> title_of(notes, id) == notes[j].title,
        (forall|i: int| 0 <= i < notes.len() ==> (#[trigger] notes[i]).name != id) ==> title_of(notes, id)
            == id,
{
    assert forall|j: int|
        0 <= j < notes.len() && (#[trigger] notes[j]).name == id && (forall|i: int|
            0 <= i < j ==> notes[i].name != id) implies title_of(notes, id) == notes[j].title by {
        lemma_title_of(notes, id, j);
    }
    if forall|i: int| 0 <= i < notes.len() ==> (#[trigger] notes[i]).name != id {
        lemma_title_of_none(notes, id);
    }
}

proof fn lemma_backlinks_has(cands: Seq<NoteView>, answers: Seq<ReplyView>, title: Seq<char>, id: Seq<char>, k: int)
    requires
        0 <= k < cands.len(),
        answers[k] matches ReplyView::Text(c) && links_to(c, title, id),
    ensures
        backlinks_spec(cands, answers, title, id).contains((cands[k].name, cands[k].title)),
    decreases cands.len(),
{
    let last = cands.len() - 1;
    let init = backlinks_spec(cands.drop_last(), answers, title, id);
    let b = backlinks_spec(cands, answers, title, id);
    if k == last {
        assert(b[b.len() - 1] == (cands[k].name, cands[k].title));
    } else {
        assert(cands.drop_last()[k] == cands[k]);
        lemma_backlinks_has(cands.drop_last(), answers, title, id, k);
        let i = choose|i: int| 0 <= i < init.len() && init[i] == (cands[k].name, cands[k].title);
        assert(b[i] == init[i]);
    }
}

/// A note links back to the note `id` when its text holds `[[T]]` or
/// `[[id]]`, ignoring case, where `T` is the title of the first listed note
/// with that id: every other listed note whose text (as read) holds either
/// marker is among the backlinks.
pub proof fn law_backlink_by_title_or_id(
    notes: Seq<NoteView>,
    id: Seq<char>,
    answers: Seq<ReplyView>,
    j: int,
    k: int,
    text: Seq<char>,
)
    requires
        0 <= j < notes.len(),
        notes[j].name == id,
        forall|i: int| 0 <= i < j ==> (#[trigger] notes[i]).name != id,
        0 <= k < candidates(notes, id).len(),
        answers[k] == ReplyView::Text(text),
        contains_spec(lowercase(text), lowercase(marker(notes[j].title))) || contains_spec(
            lowercase(text),
            lowercase(marker(id)),
        ),
    ensures
        backlinks_spec(candidates(notes, id), answers, title_of(notes, id), id).contains(
            (candidates(notes, id)[k].name, candidates(notes, id)[k].title),
        ),
{
    lemma_title_of(notes, id, j);
    lemma_backlinks_has(candidates(notes, id), answers, title_of(notes, id), id, k);
}

proof fn lemma_outgoing_members(notes: Seq<NoteView>, links: Seq<Seq<char>>)
    ensures
        forall|i: int| 0 <= i < notes.len() && named_by(links, notes[i]) ==> #[trigger] outgoing_spec(
            notes,
            links,
        ).contains((notes[i].name, notes[i].title)),
        forall|x: LinkView| #[trigger] outgoing_spec(notes, links).contains(x) ==> exists|i: int|
            0 <= i < notes.len() && named_by(links, #[trigger] notes[i]) && x == (notes[i].name, notes[i].title),
    decreases notes.len(),
{
    if notes.len() > 0 {
        let init = notes.drop_last();
        lemma_outgoing_members(init, links);
        let f = outgoing_spec(notes, links);
        let fi = outgoing_spec(init, links);
        let l = notes.last();
        assert forall|i: int| 0 <= i < notes.len() && named_by(links, notes[i]) implies #[trigger] outgoing_spec(
            notes,
            links,
        ).contains((notes[i].name, notes[i].title)) by {
            if i < init.len() {
                assert(init[i] == notes[i]);
                assert(fi.contains((init[i].name, init[i].title)));
                let j = choose|j: int| 0 <= j < fi.len() && fi[j] == (init[i].name, init[i].title);
                if named_by(links, l) {
                    assert(f[j] == fi[j]);
                }
            } else {
                assert(notes[i] == l);
                assert(f[f.len() - 1] == (l.name, l.title));
            }
        }
        assert forall|x: LinkView| #[trigger] outgoing_spec(notes, links).contains(x) implies exists|i: int|
            0 <= i < notes.len() && named_by(links, #[trigger] notes[i]) && x == (notes[i].name, notes[i].title) by {
            let j = choose|j: int| 0 <= j < f.len() && f[j] == x;
            if named_by(links, l) && j == f.len() - 1 {
                assert(notes[notes.len() - 1] == l);
            } else {
                assert(fi[j] == x);
                assert(fi.contains(x));
                let k = choose|k: int|
                    0 <= k < init.len() && named_by(links, #[trigger] init[k]) && x == (init[k].name, init[k].title);
                assert(notes[k] == init[k]);
            }
        }
    }
}

/// The outgoing links of a note are exactly the listed notes that one of
/// its link targets names, by title or by id, ignoring ASCII case.
pub proof fn law_outgoing_named_notes(notes: Seq<NoteView>, links: Seq<Seq<char>>)
    ensures
        forall|i: int, j: int|
            #![trigger notes[i], links[j]]
            0 <= i < notes.len() && 0 <= j < links.len() && (ascii_eq(links[j], notes[i].title) || ascii_eq(
                links[j],
                notes[i].name,
            )) ==> outgoing_spec(notes, links).contains((notes[i].name, notes[i].title)),
        forall|x: LinkView| #[trigger] outgoing_spec(notes, links).contains(x) ==> exists|i: int, j: int|
            #![trigger notes[i], links[j]]
            0 <= i < notes.len() && 0 <= j < links.len() && (ascii_eq(links[j], notes[i].title) || ascii_eq(
                links[j],
                notes[i].name,
            )) && x == (notes[i].name, notes[i].title),
{
    lemma_outgoing_members(notes, links);
    assert forall|x: LinkView| #[trigger] outgoing_spec(notes, links).contains(x) implies exists|i: int, j: int|
        #![trigger notes[i], links[j]]
        0 <= i < notes.len() && 0 <= j < links.len() && (ascii_eq(links[j], notes[i].title) || ascii_eq(
            links[j],
            notes[i].name,
        )) && x == (notes[i].name, notes[i].title) by {
        let i = choose|i: int|
            0 <= i < notes.len() && named_by(links, #[trigger] notes[i]) && x == (notes[i].name, notes[i].title);
        let j = choose|j: int|
            0 <= j < links.len() && (ascii_eq(#[trigger] links[j], notes[i].title) || ascii_eq(links[j], notes[i].name));
        assert(notes[i].name == x.0);
    }
}

} // verus!
