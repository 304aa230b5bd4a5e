//! The interactive terminal viewer: its state (the notes, the selection,
//! the search filter, the mode) and how it answers each key and each
//! result of the work it asks for. The caller draws the state, reads keys,
//! and does the work (listing, writing, deleting, opening the editor).

use vstd::prelude::*;
use crate::text::{
    lowercase, trim_spec, contains_spec, chars_of, string_of, to_lowercase, contains, trim, concat,
    text, push_char,
};
use crate::slug::slug_of;
use crate::note::{Note, NoteView};
use crate::graph::notes_view;

verus! {

broadcast use vstd::string::group_string_axioms;

/// What the viewer is doing.
#[derive(Debug)]
pub enum UiMode {
    Normal,
    /// Typing a search filter.
    Search,
    /// Asking whether to delete a note.
    Confirm { note_name: String },
    /// Typing the title of a new note.
    NewNote { title_buf: String },
    /// Showing a message until a key is pressed.
    Message { text: String },
}

/// The mathematical value of a mode.
pub enum ModeView {
    Normal,
    Search,
    Confirm(Seq<char>),
    NewNote(Seq<char>),
    Message(Seq<char>),
}

impl View for UiMode {
    type V = ModeView;

    open spec fn view(&self) -> ModeView {
        match self {
            UiMode::Normal => ModeView::Normal,
            UiMode::Search => ModeView::Search,
            UiMode::Confirm { note_name } => ModeView::Confirm(note_name@),
            UiMode::NewNote { title_buf } => ModeView::NewNote(title_buf@),
            UiMode::Message { text } => ModeView::Message(text@),
        }
    }
}

/// A key.
#[derive(Clone, Copy, PartialEq, Eq, Structural, Debug)]
pub enum KeyCode {
    Char(char),
    Up,
    Down,
    PageUp,
    PageDown,
    Esc,
    Enter,
    Backspace,
    Other,
}

/// A key press; `control` says that Control, and no other modifier, was
/// held.
#[derive(Clone, Copy, PartialEq, Eq, Structural, Debug)]
pub struct KeyPress {
    pub code: KeyCode,
    pub control: bool,
}

/// Work the viewer asks the caller to do; the caller answers with an
/// `Event`.
#[derive(Debug)]
pub enum Action {
    /// Nothing to do.
    Nothing,
    /// Leave the viewer.
    Quit,
    /// Open the note in the editor (answer: `Edited`).
    Edit(String),
    /// Say whether the note exists (answer: `Exists`).
    CheckExists(String),
    /// Write the note (answer: `Written`).
    Write { name: String, content: String },
    /// Delete the note (answer: `Deleted`).
    Delete(String),
    /// List the notes again (answer: `Listed`).
    Refresh,
}

/// The mathematical value of an action.
pub enum ActionView {
    Nothing,
    Quit,
    Edit(Seq<char>),
    CheckExists(Seq<char>),
    Write(Seq<char>, Seq<char>),
    Delete(Seq<char>),
    Refresh,
}

impl View for Action {
    type V = ActionView;

    open spec fn view(&self) -> ActionView {
        match self {
            Action::Nothing => ActionView::Nothing,
            Action::Quit => ActionView::Quit,
            Action::Edit(n) => ActionView::Edit(n@),
            Action::CheckExists(n) => ActionView::CheckExists(n@),
            Action::Write { name, content } => ActionView::Write(name@, content@),
            Action::Delete(n) => ActionView::Delete(n@),
            Action::Refresh => ActionView::Refresh,
        }
    }
}

/// What happens to the viewer: a key, or the outcome of the work asked
/// for (an error as its message).
#[derive(Debug)]
pub enum Event {
    Key(KeyPress),
    Exists(bool),
    Written(Result<(), String>),
    Edited(Result<(), String>),
    Deleted(Result<(), String>),
    Listed(Result<Vec<Note>, String>),
}

/// The mathematical value of an event.
pub enum EventView {
    Key(KeyPress),
    Exists(bool),
    Written(Result<(), Seq<char>>),
    Edited(Result<(), Seq<char>>),
    Deleted(Result<(), Seq<char>>),
    Listed(Result<Seq<NoteView>, Seq<char>>),
}

/// The mathematical value of a result that carries nothing.
pub open spec fn unit_view(r: Result<(), String>) -> Result<(), Seq<char>> {
    match r {
        Ok(()) => Ok(()),
        Err(e) => Err(e@),
    }
}

impl View for Event {
    type V = EventView;

    open spec fn view(&self) -> EventView {
        match self {
            Event::Key(k) => EventView::Key(*k),
            Event::Exists(b) => EventView::Exists(*b),
            Event::Written(r) => EventView::Written(unit_view(*r)),
            Event::Edited(r) => EventView::Edited(unit_view(*r)),
            Event::Deleted(r) => EventView::Deleted(unit_view(*r)),
            Event::Listed(r) => EventView::Listed(
                match r {
                    Ok(v) => Ok(notes_view(v@)),
                    Err(e) => Err(e@),
                },
            ),
        }
    }
}

/// The work under way, and what its answer is for.
#[derive(Debug)]
pub enum Pending {
    Idle,
    /// Editing the selected note.
    Editing,
    /// Listing after an edit.
    EditRefresh,
    /// Checking that a new note's id is free.
    Creating { name: String, title: String },
    /// Writing a new note.
    CreateWrite { name: String },
    /// Listing after writing a new note.
    CreateRefresh { name: String },
    /// Editing a new note.
    CreateEdit,
    /// Listing after editing a new note.
    CreateFinalRefresh,
    /// Deleting a note.
    Deleting,
    /// Listing after a delete.
    DeleteRefresh,
}

/// The mathematical value of the work under way.
pub enum PendingView {
    Idle,
    Editing,
    EditRefresh,
    Creating(Seq<char>, Seq<char>),
    CreateWrite(Seq<char>),
    CreateRefresh(Seq<char>),
    CreateEdit,
    CreateFinalRefresh,
    Deleting,
    DeleteRefresh,
}

impl View for Pending {
    type V = PendingView;

    open spec fn view(&self) -> PendingView {
        match self {
            Pending::Idle => PendingView::Idle,
            Pending::Editing => PendingView::Editing,
            Pending::EditRefresh => PendingView::EditRefresh,
            Pending::Creating { name, title } => PendingView::Creating(name@, title@),
            Pending::CreateWrite { name } => PendingView::CreateWrite(name@),
            Pending::CreateRefresh { name } => PendingView::CreateRefresh(name@),
            Pending::CreateEdit => PendingView::CreateEdit,
            Pending::CreateFinalRefresh => PendingView::CreateFinalRefresh,
            Pending::Deleting => PendingView::Deleting,
            Pending::DeleteRefresh => PendingView::DeleteRefresh,
        }
    }
}

/// The viewer's state.
#[derive(Debug)]
pub struct App {
    /// All notes, newest first.
    pub notes: Vec<Note>,
    /// The index of the selected note among the shown ones.
    pub selected: usize,
    /// How far the preview pane is scrolled.
    pub scroll: u16,
    pub mode: UiMode,
    /// The search filter.
    pub search: String,
    pub pending: Pending,
}

/// The mathematical value of the viewer's state.
pub struct AppView {
    pub notes: Seq<NoteView>,
    pub selected: usize,
    pub scroll: u16,
    pub mode: ModeView,
    pub search: Seq<char>,
    pub pending: PendingView,
}

impl View for App {
    type V = AppView;

    open spec fn view(&self) -> AppView {
        AppView {
            notes: notes_view(self.notes@),
            selected: self.selected,
            scroll: self.scroll,
            mode: self.mode@,
            search: self.search@,
            pending: self.pending@,
        }
    }
}

// ---------------------------------------------------------------------------
// Models
// ---------------------------------------------------------------------------

/// A note the (lower-cased) filter finds: in its title or preview ignoring
/// case, or in its id as it is.
pub open spec fn found_by(n: NoteView, q: Seq<char>) -> bool {
    contains_spec(lowercase(n.title), q) || contains_spec(n.name, q) || contains_spec(
        lowercase(n.preview),
        q,
    )
}

/// The notes the filter finds, in order.
pub open spec fn filtered(notes: Seq<NoteView>, q: Seq<char>) -> Seq<NoteView>
    decreases notes.len(),
{
    if notes.len() == 0 {
        notes
    } else if found_by(notes.last(), q) {
        filtered(notes.drop_last(), q).push(notes.last())
    } else {
        filtered(notes.drop_last(), q)
    }
}

proof fn lemma_filtered_shorter(notes: Seq<NoteView>, q: Seq<char>)
    ensures
        filtered(notes, q).len() <= notes.len(),
    decreases notes.len(),
{
    if notes.len() > 0 {
        lemma_filtered_shorter(notes.drop_last(), q);
    }
}

/// No more notes are shown than there are.
proof fn lemma_filtered_len(notes: Seq<NoteView>, search: Seq<char>)
    ensures
        visible_spec(notes, search).len() <= notes.len(),
{
    if search.len() > 0 {
        lemma_filtered_shorter(notes, lowercase(search));
    }
}

/// The notes shown: all of them without a filter.
pub open spec fn visible_spec(notes: Seq<NoteView>, search: Seq<char>) -> Seq<NoteView> {
    if search.len() == 0 {
        notes
    } else {
        filtered(notes, lowercase(search))
    }
}

/// The id of the selected note, if one is shown there.
pub open spec fn current_name(a: AppView) -> Option<Seq<char>> {
    let v = visible_spec(a.notes, a.search);
    if a.selected < v.len() {
        Some(v[a.selected as int].name)
    } else {
        None
    }
}

/// The first index of the note with id `name`.
pub open spec fn position_of(notes: Seq<NoteView>, name: Seq<char>) -> Option<int>
    decreases notes.len(),
{
    if notes.len() == 0 {
        None
    } else if notes[0].name == name {
        Some(0)
    } else {
        match position_of(notes.drop_first(), name) {
            Some(i) => Some(i + 1),
            None => None,
        }
    }
}

/// The state with a fresh list of notes: the selection follows the note
/// it was on among the notes shown, or else stays where it was, within the
/// shown list.
pub open spec fn refreshed(a: AppView, notes: Seq<NoteView>) -> AppView {
    let v = visible_spec(notes, a.search);
    let sel = match current_name(a) {
        Some(name) => match position_of(v, name) {
            Some(i) => i as usize,
            None => clamp_sel(a.selected, v.len()),
        },
        None => clamp_sel(a.selected, v.len()),
    };
    AppView { notes, selected: sel, ..a }
}

/// `sel.min(len.saturating_sub(1))`.
pub open spec fn clamp_sel(sel: usize, len: nat) -> usize {
    if len == 0 {
        0
    } else if sel < len {
        sel
    } else {
        (len - 1) as usize
    }
}

/// Down one shown note (the preview scrolls back to the top).
pub open spec fn nav_down(a: AppView) -> AppView {
    let len = visible_spec(a.notes, a.search).len();
    if len > 0 && a.selected + 1 < len {
        AppView { selected: (a.selected + 1) as usize, scroll: 0, ..a }
    } else {
        a
    }
}

/// Up one shown note (the preview scrolls back to the top).
pub open spec fn nav_up(a: AppView) -> AppView {
    if a.selected > 0 {
        AppView { selected: (a.selected - 1) as usize, scroll: 0, ..a }
    } else {
        a
    }
}

/// The state showing an error.
pub open spec fn errored(a: AppView, e: Seq<char>) -> AppView {
    AppView { mode: ModeView::Message("Error: "@ + e), pending: PendingView::Idle, ..a }
}

/// Eight lines further down, at most to the end of the `u16` range.
pub open spec fn scroll_down(s: u16) -> u16 {
    if s > 65527 {
        65535
    } else {
        (s + 8) as u16
    }
}

/// Eight lines further up, at most to the top.
pub open spec fn scroll_up(s: u16) -> u16 {
    if s < 8 {
        0
    } else {
        (s - 8) as u16
    }
}

/// The text of a new note titled `t`.
pub open spec fn new_note_text(t: Seq<char>) -> Seq<char> {
    "# "@ + t + "\n\n"@
}

/// The answer to a key in normal mode.
pub open spec fn on_normal_key(a: AppView, k: KeyPress) -> (AppView, ActionView) {
    match k.code {
        KeyCode::Char(c) => if c == 'q' || (c == 'c' && k.control) {
            (a, ActionView::Quit)
        } else if c == 'j' {
            (nav_down(a), ActionView::Nothing)
        } else if c == 'k' {
            (nav_up(a), ActionView::Nothing)
        } else if c == 'd' && k.control {
            (AppView { scroll: scroll_down(a.scroll), ..a }, ActionView::Nothing)
        } else if c == 'u' && k.control {
            (AppView { scroll: scroll_up(a.scroll), ..a }, ActionView::Nothing)
        } else if c == '/' {
            (AppView { mode: ModeView::Search, search: Seq::<char>::empty(), selected: 0, ..a }, ActionView::Nothing)
        } else if c == 'n' {
            (AppView { mode: ModeView::NewNote(Seq::<char>::empty()), ..a }, ActionView::Nothing)
        } else if c == 'e' {
            match current_name(a) {
                Some(name) => (AppView { pending: PendingView::Editing, ..a }, ActionView::Edit(name)),
                None => (a, ActionView::Nothing),
            }
        } else if c == 'D' {
            match current_name(a) {
                Some(name) => (AppView { mode: ModeView::Confirm(name), ..a }, ActionView::Nothing),
                None => (a, ActionView::Nothing),
            }
        } else {
            (a, ActionView::Nothing)
        },
        KeyCode::Down => (nav_down(a), ActionView::Nothing),
        KeyCode::Up => (nav_up(a), ActionView::Nothing),
        KeyCode::PageDown => (AppView { scroll: scroll_down(a.scroll), ..a }, ActionView::Nothing),
        KeyCode::PageUp => (AppView { scroll: scroll_up(a.scroll), ..a }, ActionView::Nothing),
        _ => (a, ActionView::Nothing),
    }
}

/// The answer to a key.
pub open spec fn on_key(a: AppView, k: KeyPress) -> (AppView, ActionView) {
    match a.mode {
        ModeView::Normal => on_normal_key(a, k),
        ModeView::Search => match k.code {
            KeyCode::Esc | KeyCode::Enter => (AppView { mode: ModeView::Normal, ..a }, ActionView::Nothing),
            KeyCode::Backspace => (
                AppView {
                    search: if a.search.len() > 0 {
                        a.search.drop_last()
                    } else {
                        a.search
                    },
                    selected: 0,
                    ..a
                },
                ActionView::Nothing,
            ),
            KeyCode::Char(c) => (AppView { search: a.search.push(c), selected: 0, ..a }, ActionView::Nothing),
            KeyCode::Down => (nav_down(a), ActionView::Nothing),
            KeyCode::Up => (nav_up(a), ActionView::Nothing),
            _ => (a, ActionView::Nothing),
        },
        ModeView::NewNote(buf) => match k.code {
            KeyCode::Esc => (AppView { mode: ModeView::Normal, ..a }, ActionView::Nothing),
            KeyCode::Enter => {
                let title = trim_spec(buf);
                let b = AppView { mode: ModeView::Normal, ..a };
                if title.len() == 0 {
                    (b, ActionView::Nothing)
                } else {
                    let name = slug_of(title);
                    (
                        AppView { pending: PendingView::Creating(name, title), ..b },
                        ActionView::CheckExists(name),
                    )
                }
            },
            KeyCode::Backspace => (
                AppView {
                    mode: ModeView::NewNote(
                        if buf.len() > 0 {
                            buf.drop_last()
                        } else {
                            buf
                        },
                    ),
                    ..a
                },
                ActionView::Nothing,
            ),
            KeyCode::Char(c) => (AppView { mode: ModeView::NewNote(buf.push(c)), ..a }, ActionView::Nothing),
            _ => (a, ActionView::Nothing),
        },
        ModeView::Confirm(name) => match k.code {
            KeyCode::Char(c) => if c == 'y' || c == 'Y' {
                (AppView { pending: PendingView::Deleting, ..a }, ActionView::Delete(name))
            } else {
                (AppView { mode: ModeView::Normal, ..a }, ActionView::Nothing)
            },
            _ => (AppView { mode: ModeView::Normal, ..a }, ActionView::Nothing),
        },
        ModeView::Message(_) => (AppView { mode: ModeView::Normal, ..a }, ActionView::Nothing),
    }
}

/// The viewer's answer to an event: its next state and the work it asks
/// for. A key is only taken when no work is under way; an outcome only
/// when it is the one awaited.
pub open spec fn step_spec(a: AppView, e: EventView) -> (AppView, ActionView) {
    let idle = AppView { pending: PendingView::Idle, ..a };
    match (a.pending, e) {
        (PendingView::Idle, EventView::Key(k)) => on_key(a, k),
        (PendingView::Creating(name, title), EventView::Exists(b)) => if b {
            (
                AppView {
                    mode: ModeView::Message("Note '"@ + name + "' already exists. Press 'e' to edit."@),
                    ..idle
                },
                ActionView::Nothing,
            )
        } else {
            (AppView { pending: PendingView::CreateWrite(name), ..a }, ActionView::Write(name, new_note_text(title)))
        },
        (PendingView::CreateWrite(name), EventView::Written(r)) => match r {
            Err(msg) => (errored(a, msg), ActionView::Nothing),
            Ok(()) => (AppView { pending: PendingView::CreateRefresh(name), ..a }, ActionView::Refresh),
        },
        (PendingView::CreateRefresh(name), EventView::Listed(r)) => {
            let b = match r {
                Ok(ns) => refreshed(a, ns),
                Err(_) => a,
            };
            let c = match position_of(visible_spec(b.notes, b.search), name) {
                Some(i) => AppView { selected: i as usize, ..b },
                None => b,
            };
            (AppView { pending: PendingView::CreateEdit, ..c }, ActionView::Edit(name))
        },
        (PendingView::CreateEdit, EventView::Edited(r)) => match r {
            Err(msg) => (errored(a, msg), ActionView::Nothing),
            Ok(()) => (AppView { pending: PendingView::CreateFinalRefresh, ..a }, ActionView::Refresh),
        },
        (PendingView::CreateFinalRefresh, EventView::Listed(r)) => match r {
            Ok(ns) => (refreshed(idle, ns), ActionView::Nothing),
            Err(_) => (idle, ActionView::Nothing),
        },
        (PendingView::Editing, EventView::Edited(r)) => match r {
            Err(msg) => (errored(a, msg), ActionView::Nothing),
            Ok(()) => (AppView { pending: PendingView::EditRefresh, ..a }, ActionView::Refresh),
        },
        (PendingView::EditRefresh, EventView::Listed(r)) => match r {
            Err(msg) => (errored(a, msg), ActionView::Nothing),
            Ok(ns) => (refreshed(idle, ns), ActionView::Nothing),
        },
        (PendingView::Deleting, EventView::Deleted(r)) => match r {
            Err(msg) => (errored(a, msg), ActionView::Nothing),
            Ok(()) => (AppView { pending: PendingView::DeleteRefresh, ..a }, ActionView::Refresh),
        },
        (PendingView::DeleteRefresh, EventView::Listed(r)) => match r {
            Err(msg) => (errored(a, msg), ActionView::Nothing),
            Ok(ns) => (AppView { mode: ModeView::Normal, ..refreshed(idle, ns) }, ActionView::Nothing),
        },
        _ => (a, ActionView::Nothing),
    }
}

// ---------------------------------------------------------------------------
// Executable
// ---------------------------------------------------------------------------

proof fn lemma_position_bounds(notes: Seq<NoteView>, name: Seq<char>)
    ensures
        position_of(notes, name) matches Some(i) ==> 0 <= i < notes.len() && notes[i].name == name,
    decreases notes.len(),
{
    if notes.len() > 0 && notes[0].name != name {
        lemma_position_bounds(notes.drop_first(), name);
    }
}

/// Without its last character.
fn pop_text(s: &String) -> (res: String)
    ensures
        res@ == (if s@.len() > 0 {
            s@.drop_last()
        } else {
            s@
        }),
{
    let v = chars_of(s.as_str());
    if v.len() > 0 {
        string_of(&crate::text::slice_of(&v, 0, v.len() - 1))
    } else {
        string_of(&v)
    }
}

/// With `c` added at the end.
fn push_text(s: &String, c: char) -> (res: String)
    ensures
        res@ == s@.push(c),
{
    let mut t = s.clone();
    push_char(&mut t, c);
    t
}

impl App {
    /// The viewer over `notes`, in normal mode, with the first note selected.
    pub fn new(notes: Vec<Note>) -> (res: App)
        ensures
            res@ == (AppView {
                notes: notes_view(notes@),
                selected: 0,
                scroll: 0,
                mode: ModeView::Normal,
                search: Seq::<char>::empty(),
                pending: PendingView::Idle,
            }),
    {
        App { notes, selected: 0, scroll: 0, mode: UiMode::Normal, search: String::new(), pending: Pending::Idle }
    }

    /// The indices (into `notes`) of the notes shown.
    pub fn visible_notes(&self) -> (res: Vec<usize>)
        ensures
            res.len() == visible_spec(self@.notes, self@.search).len(),
            forall|k: int| 0 <= k < res.len() ==> #[trigger] res@[k] < self.notes.len(),
            forall|k: int|
                0 <= k < res.len() ==> #[trigger] visible_spec(self@.notes, self@.search)[k]
                    == self.notes@[res@[k] as int]@,
    {
        let mut out: Vec<usize> = Vec::new();
        let sc = chars_of(self.search.as_str());
        let all = sc.len() == 0;
        let q = to_lowercase(&sc);
        let ghost nv = notes_view(self.notes@);
        let mut k: usize = 0;
        while k < self.notes.len()
            invariant
                k <= self.notes.len(),
                nv == notes_view(self.notes@),
                all == (self@.search.len() == 0),
                q@ == lowercase(self@.search),
                out.len() == visible_spec(nv.take(k as int), self@.search).len(),
                forall|j: int| 0 <= j < out.len() ==> #[trigger] out@[j] < self.notes.len(),
                forall|j: int|
                    0 <= j < out.len() ==> #[trigger] visible_spec(nv.take(k as int), self@.search)[j]
                        == self.notes@[out@[j] as int]@,
            decreases self.notes.len() - k,
        {
            let ghost pre = nv.take(k + 1);
            let ghost old_vis = visible_spec(nv.take(k as int), self@.search);
            let ghost old_out = out@;
            assert(pre.drop_last() =~= nv.take(k as int));
            assert(pre.last() == self.notes@[k as int]@);
            let n = &self.notes[k];
            let shown = all || contains(&to_lowercase(&chars_of(n.title.as_str())), &q) || contains(
                &chars_of(n.name.as_str()),
                &q,
            ) || contains(&to_lowercase(&chars_of(n.preview.as_str())), &q);
            if shown {
                out.push(k);
            }
            let ghost new_vis = visible_spec(pre, self@.search);
            proof {
                if all {
                    assert(new_vis == old_vis.push(pre.last()));
                } else {
                    assert(new_vis == filtered(pre, q@));
                    if shown {
                        assert(found_by(pre.last(), q@));
                        assert(new_vis == old_vis.push(pre.last()));
                    } else {
                        assert(!found_by(pre.last(), q@));
                        assert(new_vis == old_vis);
                    }
                }
                assert forall|j: int| 0 <= j < out.len() implies #[trigger] new_vis[j] == self.notes@[out@[j] as int]@ by {
                    if j < old_out.len() {
                        assert(out@[j] == old_out[j]);
                        assert(old_vis[j] == self.notes@[old_out[j] as int]@);
                    }
                }
            }
            k = k + 1;
            assert(nv.take(k as int) == pre);
            assert(visible_spec(nv.take(k as int), self@.search) == new_vis);
        }
        assert(nv.take(self.notes.len() as int) =~= nv);
        assert(visible_spec(nv.take(self.notes.len() as int), self@.search) == visible_spec(nv, self@.search));
        out
    }

    /// The id of the selected note, if one is shown there.
    pub fn current_note_name(&self) -> (res: Option<String>)
        ensures
            match res {
                Some(n) => current_name(self@) == Some(n@),
                None => current_name(self@) is None,
            },
    {
        let v = self.visible_notes();
        if self.selected < v.len() {
            Some(self.notes[v[self.selected]].name.clone())
        } else {
            None
        }
    }

    /// The position among the shown notes of the note with id `name`.
    fn position_shown(&self, name: &String) -> (res: Option<usize>)
        ensures
            match res {
                Some(i) => position_of(visible_spec(self@.notes, self@.search), name@) == Some(
                    i as int,
                ) && i < visible_spec(self@.notes, self@.search).len(),
                None => position_of(visible_spec(self@.notes, self@.search), name@) is None,
            },
    {
        let v = self.visible_notes();
        let ghost vis = visible_spec(self@.notes, self@.search);
        let target = chars_of(name.as_str());
        let mut k: usize = 0;
        assert(vis.skip(0) =~= vis);
        while k < v.len()
            invariant
                k <= v.len(),
                v.len() == vis.len(),
                vis == visible_spec(self@.notes, self@.search),
                forall|j: int| 0 <= j < v.len() ==> #[trigger] v@[j] < self.notes.len(),
                forall|j: int| 0 <= j < v.len() ==> #[trigger] vis[j] == self.notes@[v@[j] as int]@,
                target@ == name@,
                position_of(vis, name@) == match position_of(vis.skip(k as int), name@) {
                    Some(i) => Some(i + k),
                    None => None::<int>,
                },
            decreases v.len() - k,
        {
            let ghost rest = vis.skip(k as int);
            assert(rest[0] == vis[k as int]);
            assert(vis[k as int] == self.notes@[v@[k as int] as int]@);
            if crate::text::same(&chars_of(self.notes[v[k]].name.as_str()), &target) {
                return Some(k);
            }
            assert(rest.drop_first() =~= vis.skip(k + 1));
            k = k + 1;
        }
        None
    }

    /// Takes a fresh list of notes; the selection follows the note it was
    /// on among the notes shown.
    pub fn refresh(&mut self, notes: Vec<Note>)
        ensures
            final(self)@ == refreshed(old(self)@, notes_view(notes@)),
    {
        let prev = self.current_note_name();
        self.notes = notes;
        let len = self.visible_notes().len();
        let clamped = if len == 0 {
            0
        } else if self.selected < len {
            self.selected
        } else {
            len - 1
        };
        let sel = match &prev {
            Some(name) => match self.position_shown(name) {
                Some(i) => i,
                None => clamped,
            },
            None => clamped,
        };
        self.selected = sel;
    }

    /// Down one shown note.
    pub fn nav_down(&mut self)
        ensures
            final(self)@ == nav_down(old(self)@),
    {
        let len = self.visible_notes().len();
        if len == 0 {
            return;
        }
        if self.selected < len - 1 {
            self.selected = self.selected + 1;
            self.scroll = 0;
        }
    }

    /// Up one shown note.
    pub fn nav_up(&mut self)
        ensures
            final(self)@ == nav_up(old(self)@),
    {
        if self.selected > 0 {
            self.selected = self.selected - 1;
            self.scroll = 0;
        }
    }

    /// Shows an error message until the next key.
    pub fn show_error(&mut self, e: &str)
        ensures
            final(self)@ == errored(old(self)@, e@),
    {
        self.mode = UiMode::Message { text: string_of(&concat(&text("Error: "), &chars_of(e))) };
        self.pending = Pending::Idle;
    }

    fn on_normal_key(&mut self, k: KeyPress) -> (res: Action)
        requires
            old(self)@.mode == ModeView::Normal,
        ensures
            (final(self)@, res@) == on_normal_key(old(self)@, k),
    {
        match k.code {
            KeyCode::Char(c) => {
                if c == 'q' || (c == 'c' && k.control) {
                    Action::Quit
                } else if c == 'j' {
                    self.nav_down();
                    Action::Nothing
                } else if c == 'k' {
                    self.nav_up();
                    Action::Nothing
                } else if c == 'd' && k.control {
                    self.scroll = if self.scroll > 65527 { 65535 } else { self.scroll + 8 };
                    Action::Nothing
                } else if c == 'u' && k.control {
                    self.scroll = if self.scroll < 8 { 0 } else { self.scroll - 8 };
                    Action::Nothing
                } else if c == '/' {
                    self.mode = UiMode::Search;
                    self.search = String::new();
                    self.selected = 0;
                    Action::Nothing
                } else if c == 'n' {
                    self.mode = UiMode::NewNote { title_buf: String::new() };
                    Action::Nothing
                } else if c == 'e' {
                    match self.current_note_name() {
                        Some(name) => {
                            self.pending = Pending::Editing;
                            Action::Edit(name)
                        },
                        None => Action::Nothing,
                    }
                } else if c == 'D' {
                    match self.current_note_name() {
                        Some(name) => {
                            self.mode = UiMode::Confirm { note_name: name };
                            Action::Nothing
                        },
                        None => Action::Nothing,
                    }
                } else {
                    Action::Nothing
                }
            },
            KeyCode::Down => {
                self.nav_down();
                Action::Nothing
            },
            KeyCode::Up => {
                self.nav_up();
                Action::Nothing
            },
            KeyCode::PageDown => {
                self.scroll = if self.scroll > 65527 { 65535 } else { self.scroll + 8 };
                Action::Nothing
            },
            KeyCode::PageUp => {
                self.scroll = if self.scroll < 8 { 0 } else { self.scroll - 8 };
                Action::Nothing
            },
            _ => Action::Nothing,
        }
    }

    fn on_key(&mut self, k: KeyPress) -> (res: Action)
        ensures
            (final(self)@, res@) == on_key(old(self)@, k),
    {
        match &self.mode {
            UiMode::Normal => self.on_normal_key(k),
            UiMode::Search => match k.code {
                KeyCode::Esc | KeyCode::Enter => {
                    self.mode = UiMode::Normal;
                    Action::Nothing
                },
                KeyCode::Backspace => {
                    self.search = pop_text(&self.search);
                    self.selected = 0;
                    Action::Nothing
                },
                KeyCode::Char(c) => {
                    self.search = push_text(&self.search, c);
                    self.selected = 0;
                    Action::Nothing
                },
                KeyCode::Down => {
                    self.nav_down();
                    Action::Nothing
                },
                KeyCode::Up => {
                    self.nav_up();
                    Action::Nothing
                },
                _ => Action::Nothing,
            },
            UiMode::NewNote { title_buf } => match k.code {
                KeyCode::Esc => {
                    self.mode = UiMode::Normal;
                    Action::Nothing
                },
                KeyCode::Enter => {
                    let title = trim(&chars_of(title_buf.as_str()));
                    self.mode = UiMode::Normal;
                    if title.len() == 0 {
                        Action::Nothing
                    } else {
                        let name = string_of(&crate::slug::slug_chars(&title));
                        self.pending = Pending::Creating { name: name.clone(), title: string_of(&title) };
                        Action::CheckExists(name)
                    }
                },
                KeyCode::Backspace => {
                    let b = pop_text(title_buf);
                    self.mode = UiMode::NewNote { title_buf: b };
                    Action::Nothing
                },
                KeyCode::Char(c) => {
                    let b = push_text(title_buf, c);
                    self.mode = UiMode::NewNote { title_buf: b };
                    Action::Nothing
                },
                _ => Action::Nothing,
            },
            UiMode::Confirm { note_name } => match k.code {
                KeyCode::Char(c) => {
                    if c == 'y' || c == 'Y' {
                        let name = note_name.clone();
                        self.pending = Pending::Deleting;
                        Action::Delete(name)
                    } else {
                        self.mode = UiMode::Normal;
                        Action::Nothing
                    }
                },
                _ => {
                    self.mode = UiMode::Normal;
                    Action::Nothing
                },
            },
            UiMode::Message { .. } => {
                self.mode = UiMode::Normal;
                Action::Nothing
            },
        }
    }

    /// Answers an event: updates the state and says what work to do next.
    pub fn step(&mut self, ev: Event) -> (res: Action)
        ensures
            (final(self)@, res@) == step_spec(old(self)@, ev@),
    {
        match ev {
            Event::Key(k) => {
                if let Pending::Idle = self.pending {
                    self.on_key(k)
                } else {
                    Action::Nothing
                }
            },
            Event::Exists(b) => {
                let (name, title) = match &self.pending {
                    Pending::Creating { name, title } => (name.clone(), title.clone()),
                    _ => {
                        return Action::Nothing;
                    },
                };
                if b {
                    let msg = concat(
                        &concat(&text("Note '"), &chars_of(name.as_str())),
                        &text("' already exists. Press 'e' to edit."),
                    );
                    self.mode = UiMode::Message { text: string_of(&msg) };
                    self.pending = Pending::Idle;
                    Action::Nothing
                } else {
                    let content = concat(&concat(&text("# "), &chars_of(title.as_str())), &text("\n\n"));
                    self.pending = Pending::CreateWrite { name: name.clone() };
                    Action::Write { name, content: string_of(&content) }
                }
            },
            Event::Written(r) => {
                let name = match &self.pending {
                    Pending::CreateWrite { name } => name.clone(),
                    _ => {
                        return Action::Nothing;
                    },
                };
                match r {
                    Err(msg) => {
                        self.show_error(msg.as_str());
                        Action::Nothing
                    },
                    Ok(()) => {
                        self.pending = Pending::CreateRefresh { name };
                        Action::Refresh
                    },
                }
            },
            Event::Edited(r) => {
                let creating = match &self.pending {
                    Pending::CreateEdit => true,
                    Pending::Editing => false,
                    _ => {
                        return Action::Nothing;
                    },
                };
                match r {
                    Err(msg) => {
                        self.show_error(msg.as_str());
                        Action::Nothing
                    },
                    Ok(()) => {
                        self.pending = if creating {
                            Pending::CreateFinalRefresh
                        } else {
                            Pending::EditRefresh
                        };
                        Action::Refresh
                    },
                }
            },
            Event::Deleted(r) => {
                match &self.pending {
                    Pending::Deleting => {},
                    _ => {
                        return Action::Nothing;
                    },
                }
                match r {
                    Err(msg) => {
                        self.show_error(msg.as_str());
                        Action::Nothing
                    },
                    Ok(()) => {
                        self.pending = Pending::DeleteRefresh;
                        Action::Refresh
                    },
                }
            },
            Event::Listed(r) => self.on_listed(r),
        }
    }

    fn on_listed(&mut self, r: Result<Vec<Note>, String>) -> (res: Action)
        ensures
            (final(self)@, res@) == step_spec(
                old(self)@,
                EventView::Listed(
                    match r {
                        Ok(v) => Ok(notes_view(v@)),
                        Err(e) => Err(e@),
                    },
                ),
            ),
    {
        match &self.pending {
            Pending::CreateRefresh { name } => {
                let name = name.clone();
                match r {
                    Ok(ns) => self.refresh(ns),
                    Err(_) => {},
                }
                match self.position_shown(&name) {
                    Some(i) => {
                        self.selected = i;
                    },
                    None => {},
                }
                self.pending = Pending::CreateEdit;
                Action::Edit(name)
            },
            Pending::CreateFinalRefresh => {
                self.pending = Pending::Idle;
                match r {
                    Ok(ns) => self.refresh(ns),
                    Err(_) => {},
                }
                Action::Nothing
            },
            Pending::EditRefresh => {
                match r {
                    Err(msg) => self.show_error(msg.as_str()),
                    Ok(ns) => {
                        self.pending = Pending::Idle;
                        self.refresh(ns);
                    },
                }
                Action::Nothing
            },
            Pending::DeleteRefresh => {
                match r {
                    Err(msg) => self.show_error(msg.as_str()),
                    Ok(ns) => {
                        self.pending = Pending::Idle;
                        self.refresh(ns);
                        self.mode = UiMode::Normal;
                    },
                }
                Action::Nothing
            },
            _ => Action::Nothing,
        }
    }
}

// ---------------------------------------------------------------------------
// What is drawn
// ---------------------------------------------------------------------------

/// The kinds of pop-up boxes.
#[derive(Clone, Copy, PartialEq, Eq, Structural, Debug)]
pub enum PopupKind {
    NewNote,
    Confirm,
    Message,
}

/// A pop-up box: its kind, its size in percent of the screen, its title
/// and its text.
#[derive(Debug)]
pub struct Popup {
    pub kind: PopupKind,
    pub width_pct: u16,
    pub height_pct: u16,
    pub title: String,
    pub text: String,
}

/// The mathematical value of a pop-up box.
pub type PopupView = (PopupKind, u16, u16, Seq<char>, Seq<char>);

impl View for Popup {
    type V = PopupView;

    open spec fn view(&self) -> PopupView {
        (self.kind, self.width_pct, self.height_pct, self.title@, self.text@)
    }
}

/// The pop-up box of a mode, if it has one.
pub open spec fn popup_spec(m: ModeView) -> Option<PopupView> {
    match m {
        ModeView::NewNote(buf) => Some(
            (PopupKind::NewNote, 60, 20, " ✏  New Note "@, "New note title:\n\n> "@ + buf + "_"@),
        ),
        ModeView::Confirm(name) => Some(
            (
                PopupKind::Confirm,
                50,
                15,
                " ⚠  Confirm Delete "@,
                "Delete note '"@ + name + "'?\n\n  y  →  Yes, delete\n  any  →  Cancel"@,
            ),
        ),
        ModeView::Message(t) => Some((PopupKind::Message, 55, 14, " ℹ  Info  (any key) "@, t)),
        _ => None,
    }
}

/// The title of the list of notes.
pub open spec fn sidebar_title_spec(a: AppView) -> Seq<char> {
    match a.mode {
        ModeView::Search => " / "@ + a.search + " "@,
        _ => " 🪨  Notes ("@ + crate::text::decimal_spec(a.notes.len()) + ") "@,
    }
}

/// The status line of a mode.
pub open spec fn status_spec(m: ModeView) -> Seq<char> {
    match m {
        ModeView::Search => " ESC/ENTER: done  ↑↓: navigate "@,
        ModeView::NewNote(_) => " Type title and press ENTER  ·  ESC: cancel "@,
        ModeView::Confirm(_) => " y: delete  ·  any key: cancel "@,
        ModeView::Message(_) => " Press any key to dismiss "@,
        ModeView::Normal => " q:quit  n:new  e:edit  D:delete  /:search  j/k:navigate  ^D/^U:scroll "@,
    }
}

/// The title of the preview pane.
pub open spec fn content_title_spec(a: AppView) -> Seq<char> {
    let v = visible_spec(a.notes, a.search);
    if a.selected < v.len() {
        " "@ + v[a.selected as int].title + " "@
    } else {
        " Welcome "@
    }
}

/// What the preview pane shows: a fixed text, or the text of a note.
#[derive(Debug)]
pub enum ContentSource {
    Text(String),
    /// Read the note with this id and show its text.
    Read(String),
}

/// What the preview pane shows.
pub open spec fn content_source_spec(a: AppView) -> (bool, Seq<char>) {
    let v = visible_spec(a.notes, a.search);
    if v.len() == 0 {
        if a.notes.len() == 0 {
            (false, "No notes yet.\n\nPress  n  to create your first note."@)
        } else {
            (false, "No results for that search."@)
        }
    } else {
        (true, v[a.selected as int].name)
    }
}

impl App {
    /// The title of the list of notes: the filter while searching, else the
    /// number of notes.
    pub fn sidebar_title(&self) -> (res: String)
        ensures
            res@ == sidebar_title_spec(self@),
    {
        match &self.mode {
            UiMode::Search => string_of(&concat(&concat(&text(" / "), &chars_of(self.search.as_str())), &text(" "))),
            _ => {
                let n = crate::text::decimal(self.notes.len() as u64);
                string_of(&concat(&concat(&text(" 🪨  Notes ("), &n), &text(") ")))
            },
        }
    }

    /// The shown notes as list items: the title, and the modification time
    /// indented by two spaces.
    pub fn list_items(&self) -> (res: Vec<(String, String)>)
        ensures
            res.len() == visible_spec(self@.notes, self@.search).len(),
            forall|k: int|
                0 <= k < res.len() ==> {
                    let n = #[trigger] visible_spec(self@.notes, self@.search)[k];
                    res@[k].0@ == n.title && res@[k].1@ == "  "@ + n.modified
                },
    {
        let v = self.visible_notes();
        let mut out: Vec<(String, String)> = Vec::new();
        let mut k: usize = 0;
        while k < v.len()
            invariant
                k <= v.len() == visible_spec(self@.notes, self@.search).len(),
                forall|j: int| 0 <= j < v.len() ==> #[trigger] v@[j] < self.notes.len(),
                forall|j: int|
                    0 <= j < v.len() ==> #[trigger] visible_spec(self@.notes, self@.search)[j]
                        == self.notes@[v@[j] as int]@,
                out.len() == k,
                forall|j: int|
                    0 <= j < k ==> {
                        let n = #[trigger] visible_spec(self@.notes, self@.search)[j];
                        out@[j].0@ == n.title && out@[j].1@ == "  "@ + n.modified
                    },
            decreases v.len() - k,
        {
            assert(v@[k as int] < self.notes.len());
            let n = &self.notes[v[k]];
            assert(visible_spec(self@.notes, self@.search)[k as int] == n@);
            let item = (
                n.title.clone(),
                string_of(&concat(&text("  "), &chars_of(n.modified.as_str()))),
            );
            out.push(item);
            k = k + 1;
        }
        out
    }

    /// Which list item is highlighted: the selection, when any note is
    /// shown.
    pub fn list_selection(&self) -> (res: Option<usize>)
        ensures
            res == (if visible_spec(self@.notes, self@.search).len() > 0 {
                Some(self.selected)
            } else {
                None
            }),
    {
        if self.visible_notes().len() > 0 {
            Some(self.selected)
        } else {
            None
        }
    }

    /// The pop-up box to draw over the list, if any.
    pub fn popup(&self) -> (res: Option<Popup>)
        ensures
            match res {
                Some(p) => popup_spec(self@.mode) == Some(p@),
                None => popup_spec(self@.mode) is None,
            },
    {
        match &self.mode {
            UiMode::NewNote { title_buf } => Some(
                Popup {
                    kind: PopupKind::NewNote,
                    width_pct: 60,
                    height_pct: 20,
                    title: string_of(&text(" ✏  New Note ")),
                    text: string_of(
                        &concat(&concat(&text("New note title:\n\n> "), &chars_of(title_buf.as_str())), &text("_")),
                    ),
                },
            ),
            UiMode::Confirm { note_name } => Some(
                Popup {
                    kind: PopupKind::Confirm,
                    width_pct: 50,
                    height_pct: 15,
                    title: string_of(&text(" ⚠  Confirm Delete ")),
                    text: string_of(
                        &concat(
                            &concat(&text("Delete note '"), &chars_of(note_name.as_str())),
                            &text("'?\n\n  y  →  Yes, delete\n  any  →  Cancel"),
                        ),
                    ),
                },
            ),
            UiMode::Message { text: t } => Some(
                Popup {
                    kind: PopupKind::Message,
                    width_pct: 55,
                    height_pct: 14,
                    title: string_of(&text(" ℹ  Info  (any key) ")),
                    text: t.clone(),
                },
            ),
            _ => None,
        }
    }

    /// The status line: the keys the mode takes.
    pub fn status_text(&self) -> (res: String)
        ensures
            res@ == status_spec(self@.mode),
    {
        let t = match &self.mode {
            UiMode::Search => " ESC/ENTER: done  ↑↓: navigate ",
            UiMode::NewNote { .. } => " Type title and press ENTER  ·  ESC: cancel ",
            UiMode::Confirm { .. } => " y: delete  ·  any key: cancel ",
            UiMode::Message { .. } => " Press any key to dismiss ",
            UiMode::Normal => " q:quit  n:new  e:edit  D:delete  /:search  j/k:navigate  ^D/^U:scroll ",
        };
        string_of(&text(t))
    }

    /// The title of the preview pane: the selected note's title, or a
    /// welcome.
    pub fn content_title(&self) -> (res: String)
        ensures
            res@ == content_title_spec(self@),
    {
        let v = self.visible_notes();
        if self.selected < v.len() {
            let n = &self.notes[v[self.selected]];
            string_of(&concat(&concat(&text(" "), &chars_of(n.title.as_str())), &text(" ")))
        } else {
            string_of(&text(" Welcome "))
        }
    }

    /// What the preview pane shows: a hint when no note is shown, else the
    /// selected note's text (which the caller reads).
    pub fn content_source(&self) -> (res: ContentSource)
        requires
            visible_spec(self@.notes, self@.search).len() == 0 || self.selected < visible_spec(
                self@.notes,
                self@.search,
            ).len(),
        ensures
            match res {
                ContentSource::Text(t) => content_source_spec(self@) == (false, t@),
                ContentSource::Read(n) => content_source_spec(self@) == (true, n@),
            },
    {
        let v = self.visible_notes();
        if v.len() == 0 {
            if self.notes.len() == 0 {
                ContentSource::Text(string_of(&text("No notes yet.\n\nPress  n  to create your first note.")))
            } else {
                ContentSource::Text(string_of(&text("No results for that search.")))
            }
        } else {
            ContentSource::Read(self.notes[v[self.selected]].name.clone())
        }
    }
}

/// What the preview pane shows when the selected note cannot be read.
pub fn read_failure_text(e: &str) -> (res: String)
    ensures
        res@ == "(error reading note: "@ + e@ + ")"@,
{
    string_of(&concat(&concat(&text("(error reading note: "), &chars_of(e)), &text(")")))
}

// ---------------------------------------------------------------------------
// Laws
// ---------------------------------------------------------------------------

/// The selection is on a shown note whenever a note is shown.
pub open spec fn selection_shown(a: AppView) -> bool {
    visible_spec(a.notes, a.search).len() == 0 || a.selected < visible_spec(a.notes, a.search).len()
}

/// Every step of the viewer keeps the selection on a shown note whenever
/// one is shown, so the preview always has a note to show.
pub proof fn law_step_keeps_selection_shown(a: AppView, e: EventView)
    requires
        selection_shown(a),
        a.notes.len() <= usize::MAX,
        e matches EventView::Listed(Ok(ns)) ==> ns.len() <= usize::MAX,
    ensures
        selection_shown(step_spec(a, e).0),
{
    let notes = match e {
        EventView::Listed(Ok(ns)) => ns,
        _ => a.notes,
    };
    law_refresh_keeps_note(a, notes);
    law_refresh_keeps_note(AppView { pending: PendingView::Idle, ..a }, notes);
    lemma_filtered_len(notes, a.search);
    if let PendingView::CreateRefresh(name) = a.pending {
        lemma_position_bounds(visible_spec(notes, a.search), name);
    }
}

/// Moving down or up keeps the selection on a shown note.
pub proof fn law_nav_stays_in_list(a: AppView)
    requires
        a.selected < visible_spec(a.notes, a.search).len(),
    ensures
        nav_down(a).selected < visible_spec(a.notes, a.search).len(),
        nav_up(a).selected < visible_spec(a.notes, a.search).len(),
{
}

/// After the notes are listed again, the cursor is on a shown note
/// whenever one is shown, and it stays on the note it was on when that
/// note is still shown.
pub proof fn law_refresh_keeps_note(a: AppView, notes: Seq<NoteView>)
    requires
        notes.len() <= usize::MAX,
    ensures
        ({
            let b = refreshed(a, notes);
            let v = visible_spec(notes, a.search);
            &&& v.len() == 0 || b.selected < v.len()
            &&& (current_name(a) is Some && position_of(v, current_name(a)->Some_0) is Some)
                ==> current_name(b) == current_name(a)
        }),
{
    let v = visible_spec(notes, a.search);
    lemma_filtered_len(notes, a.search);
    match current_name(a) {
        Some(x) => lemma_position_bounds(v, x),
        None => {},
    }
}

/// The modes that wait for keys have no work under way: searching and
/// typing a new title happen only while idle, and a deletion is confirmed
/// while idle or while that deletion runs.
pub open spec fn modes_consistent(a: AppView) -> bool {
    &&& (a.mode is Search || a.mode is NewNote) ==> a.pending is Idle
    &&& a.mode is Confirm ==> (a.pending is Idle || a.pending is Deleting || a.pending is DeleteRefresh)
}

/// Every step keeps the modes consistent with the work under way (the
/// viewer starts in normal mode, idle).
pub proof fn law_step_keeps_modes_consistent(a: AppView, e: EventView)
    requires
        modes_consistent(a),
    ensures
        modes_consistent(step_spec(a, e).0),
{
}

/// The viewer asks to delete a note only when it is asking to confirm
/// deleting that very note, has nothing else under way, and the key is `y`
/// or `Y`.
pub proof fn law_delete_only_on_confirm(a: AppView, e: EventView)
    ensures
        step_spec(a, e).1 is Delete ==> (a.mode == ModeView::Confirm(step_spec(a, e).1->Delete_0)
            && a.pending is Idle && e is Key && (e->Key_0.code == KeyCode::Char('y') || e->Key_0.code
            == KeyCode::Char('Y'))),
{
}

/// A new note is written only after the viewer learned that nothing stands
/// at its id, and then with its title as a heading: an existing note is
/// never overwritten from the viewer.
pub proof fn law_write_only_when_free(a: AppView, e: EventView)
    ensures
        step_spec(a, e).1 is Write ==> (a.pending is Creating && e == EventView::Exists(false)
            && step_spec(a, e).1 == ActionView::Write(
            a.pending->Creating_0,
            new_note_text(a.pending->Creating_1),
        )),
{
}

/// While searching, no key asks for any work: a character extends the
/// filter, Backspace shortens it (both put the cursor on the first shown
/// note), Up and Down move, Esc and Enter leave the search with the filter
/// kept.
pub proof fn law_search_keys(a: AppView, k: KeyPress)
    requires
        a.mode is Search,
        modes_consistent(a),
    ensures
        ({
            let (b, act) = step_spec(a, EventView::Key(k));
            &&& act is Nothing
            &&& b.notes == a.notes
            &&& (k.code matches KeyCode::Char(c) ==> b.search == a.search.push(c) && b.selected == 0)
            &&& (k.code is Backspace ==> b.selected == 0 && b.search == (if a.search.len() > 0 {
                a.search.drop_last()
            } else {
                a.search
            }))
            &&& (k.code is Down ==> b == nav_down(a))
            &&& (k.code is Up ==> b == nav_up(a))
            &&& ((k.code is Esc || k.code is Enter) ==> b.mode is Normal && b.search == a.search)
        }),
{
}

/// Enter on a new note's title: a blank title changes nothing but the mode;
/// otherwise the viewer asks whether a note exists at the title's slug,
/// before anything is written.
pub proof fn law_new_note_enter(a: AppView, b: Seq<char>)
    requires
        a.mode == ModeView::NewNote(b),
        modes_consistent(a),
    ensures
        ({
            let (n, act) = step_spec(a, EventView::Key(KeyPress { code: KeyCode::Enter, control: false }));
            let t = trim_spec(b);
            &&& n.mode is Normal
            &&& t.len() == 0 ==> act is Nothing && n.pending is Idle
            &&& t.len() > 0 ==> act == ActionView::CheckExists(slug_of(t)) && n.pending
                == PendingView::Creating(slug_of(t), t)
        }),
{
}

proof fn lemma_filtered_members(notes: Seq<NoteView>, q: Seq<char>)
    ensures
        forall|i: int| 0 <= i < notes.len() && found_by(notes[i], q) ==> #[trigger] filtered(notes, q).contains(
            notes[i],
        ),
        forall|x: NoteView| #[trigger] filtered(notes, q).contains(x) ==> notes.contains(x) && found_by(x, q),
    decreases notes.len(),
{
    if notes.len() > 0 {
        let init = notes.drop_last();
        lemma_filtered_members(init, q);
        let f = filtered(notes, q);
        let fi = filtered(init, q);
        assert forall|i: int| 0 <= i < notes.len() && found_by(notes[i], q) implies #[trigger] filtered(
            notes,
            q,
        ).contains(notes[i]) by {
            if i < init.len() {
                assert(init[i] == notes[i]);
                assert(fi.contains(init[i]));
                let j = choose|j: int| 0 <= j < fi.len() && fi[j] == init[i];
                if found_by(notes.last(), q) {
                    assert(f[j] == fi[j]);
                }
            } else {
                assert(notes[i] == notes.last());
                assert(f[f.len() - 1] == notes.last());
            }
        }
        assert forall|x: NoteView| #[trigger] filtered(notes, q).contains(x) implies notes.contains(x) && found_by(
            x,
            q,
        ) by {
            let j = choose|j: int| 0 <= j < f.len() && f[j] == x;
            if found_by(notes.last(), q) && j == f.len() - 1 {
                assert(notes[notes.len() - 1] == x);
            } else {
                assert(fi[j] == x);
                assert(fi.contains(x));
                let k = choose|k: int| 0 <= k < init.len() && init[k] == x;
                assert(notes[k] == x);
            }
        }
    }
}

/// With a search under way, the viewer shows exactly the notes whose title
/// or preview holds the lower-cased search text ignoring case, or whose id
/// holds it as it is; without one it shows every note.
pub proof fn law_filter_shows_matches(notes: Seq<NoteView>, search: Seq<char>)
    ensures
        search.len() == 0 ==> visible_spec(notes, search) == notes,
        search.len() > 0 ==> forall|i: int|
            0 <= i < notes.len() && (contains_spec(lowercase(notes[i].title), lowercase(search)) || contains_spec(
                notes[i].name,
                lowercase(search),
            ) || contains_spec(lowercase(notes[i].preview), lowercase(search))) ==> #[trigger] visible_spec(
                notes,
                search,
            ).contains(notes[i]),
        search.len() > 0 ==> forall|x: NoteView| #[trigger] visible_spec(notes, search).contains(x) ==> notes.contains(x)
            && (contains_spec(lowercase(x.title), lowercase(search)) || contains_spec(x.name, lowercase(search))
            || contains_spec(lowercase(x.preview), lowercase(search))),
{
    lemma_filtered_members(notes, lowercase(search));
}

} // verus!
