//! The desktop window: the state behind its sidebar, toolbar and editor,
//! how it answers the user and the results of the commands it sends to the
//! vault, and the labels it shows.

use vstd::prelude::*;
use crate::text::{lowercase, contains_spec, decimal_spec, chars_of, string_of, to_lowercase, contains, concat, text, decimal};
use crate::note::{Note, strings_view};
use crate::content::{title_from_content_spec, title_from_content};

verus! {

broadcast use vstd::string::group_string_axioms;

/// A note as the window lists it.
#[derive(Debug)]
pub struct NoteInfo {
    pub slug: String,
    pub title: String,
    pub modified: String,
    pub size: u64,
    pub preview: String,
    pub tags: Vec<String>,
}

/// The mathematical value of a listed note.
pub struct InfoView {
    pub slug: Seq<char>,
    pub title: Seq<char>,
    pub modified: Seq<char>,
    pub size: u64,
    pub preview: Seq<char>,
    pub tags: Seq<Seq<char>>,
}

impl View for NoteInfo {
    type V = InfoView;

    open spec fn view(&self) -> InfoView {
        InfoView {
            slug: self.slug@,
            title: self.title@,
            modified: self.modified@,
            size: self.size,
            preview: self.preview@,
            tags: strings_view(self.tags@),
        }
    }
}

/// The views of listed notes.
pub open spec fn infos_view(v: Seq<NoteInfo>) -> Seq<InfoView> {
    v.map_values(|n: NoteInfo| n@)
}

/// A note opened in the window: its id, title and text.
#[derive(Debug)]
pub struct NoteContent {
    pub slug: String,
    pub title: String,
    pub content: String,
}

fn clone_strings(v: &Vec<String>) -> (res: Vec<String>)
    ensures
        strings_view(res@) == strings_view(v@),
{
    let mut out: Vec<String> = Vec::new();
    let mut k: usize = 0;
    while k < v.len()
        invariant
            k <= v.len(),
            strings_view(out@) == strings_view(v@).take(k as int),
        decreases v.len() - k,
    {
        let ghost before = strings_view(out@);
        let s = v[k].clone();
        out.push(s);
        assert(strings_view(out@) =~= before.push(s@));
        assert(strings_view(v@).take(k + 1) =~= strings_view(v@).take(k as int).push(v@[k as int]@));
        k = k + 1;
    }
    assert(strings_view(v@).take(v.len() as int) =~= strings_view(v@));
    out
}

impl NoteInfo {
    /// The listing of a note.
    pub fn from_note(n: &Note) -> (res: NoteInfo)
        ensures
            res@ == (InfoView {
                slug: n.name@,
                title: n.title@,
                modified: n.modified@,
                size: n.size,
                preview: n.preview@,
                tags: strings_view(n.tags@),
            }),
    {
        NoteInfo {
            slug: n.name.clone(),
            title: n.title.clone(),
            modified: n.modified.clone(),
            size: n.size,
            preview: n.preview.clone(),
            tags: clone_strings(&n.tags),
        }
    }
}

impl NoteContent {
    /// A note opened by id: its title is its first `# ` line without the
    /// marker, or the id.
    pub fn of(slug: String, content: String) -> (res: NoteContent)
        ensures
            res.slug@ == slug@,
            res.content@ == content@,
            res.title@ == title_from_content_spec(content@, slug@),
    {
        let title = title_from_content(content.as_str(), slug.as_str());
        NoteContent { slug, title, content }
    }
}

// ---------------------------------------------------------------------------
// State
// ---------------------------------------------------------------------------

/// What the window holds.
#[derive(Debug)]
pub struct DesktopState {
    pub notes: Vec<NoteInfo>,
    /// The id of the open note.
    pub active_slug: Option<String>,
    pub title: String,
    pub content: String,
    /// The editor (rather than the preview) is shown.
    pub is_editing: bool,
    /// There are changes not saved.
    pub is_dirty: bool,
    /// The error shown in a toast.
    pub error_msg: Option<String>,
}

/// What happens to the window: the user's acts and the commands' results.
#[derive(Debug)]
pub enum DesktopEvent {
    NotesLoaded(Result<Vec<NoteInfo>, String>),
    /// A note was picked in the sidebar.
    Select(String),
    Opened { slug: String, result: Result<NoteContent, String> },
    /// "+ New note" with this title.
    NewNote(String),
    Created(Result<String, String>),
    SavePressed,
    /// A key went down, with Control or Command held or not.
    KeyDown { ctrl_or_meta: bool, key: String },
    Saved(Result<(), String>),
    DeletePressed,
    Deleted(Result<(), String>),
    ContentChanged(String),
    TitleChanged(String),
    ToggleMode,
    DismissError,
}

/// A command the window sends to the vault; its result comes back as an
/// event.
#[derive(Debug)]
pub enum DesktopCommand {
    LoadNotes,
    GetNote(String),
    CreateNote(String),
    SaveNote { slug: String, content: String },
    DeleteNote(String),
}

/// The mathematical value of a command.
pub enum CommandView {
    LoadNotes,
    GetNote(Seq<char>),
    CreateNote(Seq<char>),
    SaveNote(Seq<char>, Seq<char>),
    DeleteNote(Seq<char>),
}

impl View for DesktopCommand {
    type V = CommandView;

    open spec fn view(&self) -> CommandView {
        match self {
            DesktopCommand::LoadNotes => CommandView::LoadNotes,
            DesktopCommand::GetNote(s) => CommandView::GetNote(s@),
            DesktopCommand::CreateNote(t) => CommandView::CreateNote(t@),
            DesktopCommand::SaveNote { slug, content } => CommandView::SaveNote(slug@, content@),
            DesktopCommand::DeleteNote(s) => CommandView::DeleteNote(s@),
        }
    }
}

/// The views of commands.
pub open spec fn commands_view(v: Seq<DesktopCommand>) -> Seq<CommandView> {
    v.map_values(|c: DesktopCommand| c@)
}

/// The mathematical value of the window's state.
pub struct DesktopView {
    pub notes: Seq<InfoView>,
    pub active_slug: Option<Seq<char>>,
    pub title: Seq<char>,
    pub content: Seq<char>,
    pub is_editing: bool,
    pub is_dirty: bool,
    pub error_msg: Option<Seq<char>>,
}

/// The mathematical value of an optional text.
pub open spec fn opt_text(o: Option<String>) -> Option<Seq<char>> {
    match o {
        Some(s) => Some(s@),
        None => None,
    }
}

impl View for DesktopState {
    type V = DesktopView;

    open spec fn view(&self) -> DesktopView {
        DesktopView {
            notes: infos_view(self.notes@),
            active_slug: opt_text(self.active_slug),
            title: self.title@,
            content: self.content@,
            is_editing: self.is_editing,
            is_dirty: self.is_dirty,
            error_msg: opt_text(self.error_msg),
        }
    }
}

/// The mathematical value of an event.
pub enum DesktopEventView {
    NotesLoaded(Result<Seq<InfoView>, Seq<char>>),
    Select(Seq<char>),
    Opened(Seq<char>, Result<(Seq<char>, Seq<char>), Seq<char>>),
    NewNote(Seq<char>),
    Created(Result<Seq<char>, Seq<char>>),
    SavePressed,
    KeyDown(bool, Seq<char>),
    Saved(Result<(), Seq<char>>),
    DeletePressed,
    Deleted(Result<(), Seq<char>>),
    ContentChanged(Seq<char>),
    TitleChanged(Seq<char>),
    ToggleMode,
    DismissError,
}

/// The mathematical value of a result that carries nothing.
pub open spec fn done_view(r: Result<(), String>) -> Result<(), Seq<char>> {
    match r {
        Ok(()) => Ok(()),
        Err(e) => Err(e@),
    }
}

impl View for DesktopEvent {
    type V = DesktopEventView;

    open spec fn view(&self) -> DesktopEventView {
        match self {
            DesktopEvent::NotesLoaded(r) => DesktopEventView::NotesLoaded(
                match r {
                    Ok(v) => Ok(infos_view(v@)),
                    Err(e) => Err(e@),
                },
            ),
            DesktopEvent::Select(s) => DesktopEventView::Select(s@),
            DesktopEvent::Opened { slug, result } => DesktopEventView::Opened(
                slug@,
                match result {
                    Ok(n) => Ok((n.title@, n.content@)),
                    Err(e) => Err(e@),
                },
            ),
            DesktopEvent::NewNote(t) => DesktopEventView::NewNote(t@),
            DesktopEvent::Created(r) => DesktopEventView::Created(
                match r {
                    Ok(s) => Ok(s@),
                    Err(e) => Err(e@),
                },
            ),
            DesktopEvent::SavePressed => DesktopEventView::SavePressed,
            DesktopEvent::KeyDown { ctrl_or_meta, key } => DesktopEventView::KeyDown(*ctrl_or_meta, key@),
            DesktopEvent::Saved(r) => DesktopEventView::Saved(done_view(*r)),
            DesktopEvent::DeletePressed => DesktopEventView::DeletePressed,
            DesktopEvent::Deleted(r) => DesktopEventView::Deleted(done_view(*r)),
            DesktopEvent::ContentChanged(v) => DesktopEventView::ContentChanged(v@),
            DesktopEvent::TitleChanged(v) => DesktopEventView::TitleChanged(v@),
            DesktopEvent::ToggleMode => DesktopEventView::ToggleMode,
            DesktopEvent::DismissError => DesktopEventView::DismissError,
        }
    }
}

/// Saving the open note, if there is one.
pub open spec fn save_cmds(d: DesktopView) -> Seq<CommandView> {
    match d.active_slug {
        Some(slug) => seq![CommandView::SaveNote(slug, d.content)],
        None => Seq::<CommandView>::empty(),
    }
}

/// The window's answer to an event: its next state and the commands it
/// sends.
pub open spec fn desktop_step(d: DesktopView, e: DesktopEventView) -> (DesktopView, Seq<CommandView>) {
    let none = Seq::<CommandView>::empty();
    match e {
        DesktopEventView::NotesLoaded(r) => match r {
            Ok(list) => (DesktopView { notes: list, ..d }, none),
            Err(msg) => (DesktopView { error_msg: Some(msg), ..d }, none),
        },
        DesktopEventView::Select(slug) => (d, seq![CommandView::GetNote(slug)]),
        DesktopEventView::Opened(slug, r) => match r {
            Ok((title, content)) => (
                DesktopView {
                    active_slug: Some(slug),
                    title,
                    content,
                    is_editing: false,
                    is_dirty: false,
                    ..d
                },
                none,
            ),
            Err(msg) => (DesktopView { error_msg: Some(msg), ..d }, none),
        },
        DesktopEventView::NewNote(title) => (d, seq![CommandView::CreateNote(title)]),
        DesktopEventView::Created(r) => match r {
            Ok(slug) => (
                DesktopView { is_editing: true, ..d },
                seq![CommandView::LoadNotes, CommandView::GetNote(slug)],
            ),
            Err(msg) => (DesktopView { error_msg: Some(msg), ..d }, none),
        },
        DesktopEventView::SavePressed => (d, save_cmds(d)),
        DesktopEventView::KeyDown(mod_held, key) => if mod_held && key == seq!['s'] {
            (d, save_cmds(d))
        } else {
            (d, none)
        },
        DesktopEventView::Saved(r) => match r {
            Ok(()) => (DesktopView { is_dirty: false, ..d }, seq![CommandView::LoadNotes]),
            Err(msg) => (DesktopView { error_msg: Some(msg), ..d }, none),
        },
        DesktopEventView::DeletePressed => match d.active_slug {
            Some(slug) => (d, seq![CommandView::DeleteNote(slug)]),
            None => (d, none),
        },
        DesktopEventView::Deleted(r) => match r {
            Ok(()) => (
                DesktopView {
                    active_slug: None,
                    title: Seq::<char>::empty(),
                    content: Seq::<char>::empty(),
                    is_dirty: false,
                    ..d
                },
                seq![CommandView::LoadNotes],
            ),
            Err(msg) => (DesktopView { error_msg: Some(msg), ..d }, none),
        },
        DesktopEventView::ContentChanged(v) => (DesktopView { content: v, is_dirty: true, ..d }, none),
        DesktopEventView::TitleChanged(v) => (DesktopView { title: v, is_dirty: true, ..d }, none),
        DesktopEventView::ToggleMode => (DesktopView { is_editing: !d.is_editing, ..d }, none),
        DesktopEventView::DismissError => (DesktopView { error_msg: None, ..d }, none),
    }
}

impl DesktopState {
    /// The window at start: no notes, nothing open, no error.
    pub fn new() -> (res: DesktopState)
        ensures
            res@ == (DesktopView {
                notes: Seq::<InfoView>::empty(),
                active_slug: None,
                title: Seq::<char>::empty(),
                content: Seq::<char>::empty(),
                is_editing: false,
                is_dirty: false,
                error_msg: None,
            }),
    {
        let s = DesktopState {
            notes: Vec::new(),
            active_slug: None,
            title: String::new(),
            content: String::new(),
            is_editing: false,
            is_dirty: false,
            error_msg: None,
        };
        assert(infos_view(s.notes@) =~= Seq::<InfoView>::empty());
        s
    }

    /// The commands the window sends when it opens: list the notes.
    pub fn start() -> (res: Vec<DesktopCommand>)
        ensures
            commands_view(res@) == seq![CommandView::LoadNotes],
    {
        let v = vec![DesktopCommand::LoadNotes];
        assert(commands_view(v@) =~= seq![CommandView::LoadNotes]);
        v
    }

    fn save(&self) -> (res: Vec<DesktopCommand>)
        ensures
            commands_view(res@) == save_cmds(self@),
    {
        match &self.active_slug {
            Some(slug) => {
                let v = vec![DesktopCommand::SaveNote { slug: slug.clone(), content: self.content.clone() }];
                assert(commands_view(v@) =~= save_cmds(self@));
                v
            },
            None => {
                let v: Vec<DesktopCommand> = Vec::new();
                assert(commands_view(v@) =~= save_cmds(self@));
                v
            },
        }
    }

    /// Answers an event: updates the state and gives the commands to send.
    pub fn step(&mut self, e: DesktopEvent) -> (res: Vec<DesktopCommand>)
        ensures
            (final(self)@, commands_view(res@)) == desktop_step(old(self)@, e@),
    {
        let none: Vec<DesktopCommand> = Vec::new();
        assert(commands_view(none@) =~= Seq::<CommandView>::empty());
        match e {
            DesktopEvent::NotesLoaded(r) => {
                match r {
                    Ok(list) => {
                        self.notes = list;
                    },
                    Err(msg) => {
                        self.error_msg = Some(msg);
                    },
                }
                none
            },
            DesktopEvent::Select(slug) => {
                let v = vec![DesktopCommand::GetNote(slug)];
                assert(commands_view(v@) =~= seq![CommandView::GetNote(v@[0]->GetNote_0@)]);
                v
            },
            DesktopEvent::Opened { slug, result } => {
                match result {
                    Ok(n) => {
                        self.active_slug = Some(slug);
                        self.title = n.title;
                        self.content = n.content;
                        self.is_editing = false;
                        self.is_dirty = false;
                    },
                    Err(msg) => {
                        self.error_msg = Some(msg);
                    },
                }
                none
            },
            DesktopEvent::NewNote(title) => {
                let v = vec![DesktopCommand::CreateNote(title)];
                assert(commands_view(v@) =~= seq![CommandView::CreateNote(v@[0]->CreateNote_0@)]);
                v
            },
            DesktopEvent::Created(r) => match r {
                Ok(slug) => {
                    self.is_editing = true;
                    let v = vec![DesktopCommand::LoadNotes, DesktopCommand::GetNote(slug)];
                    assert(commands_view(v@) =~= seq![
                        CommandView::LoadNotes,
                        CommandView::GetNote(v@[1]->GetNote_0@),
                    ]);
                    v
                },
                Err(msg) => {
                    self.error_msg = Some(msg);
                    none
                },
            },
            DesktopEvent::SavePressed => self.save(),
            DesktopEvent::KeyDown { ctrl_or_meta, key } => {
                let k = chars_of(key.as_str());
                let is_s = k.len() == 1 && k[0] == 's';
                proof {
                    if is_s {
                        assert(k@ =~= seq!['s']);
                    }
                    if k@ == seq!['s'] {
                        assert(k@[0] == 's');
                    }
                }
                if ctrl_or_meta && is_s {
                    self.save()
                } else {
                    none
                }
            },
            DesktopEvent::Saved(r) => match r {
                Ok(()) => {
                    self.is_dirty = false;
                    let v = vec![DesktopCommand::LoadNotes];
                    assert(commands_view(v@) =~= seq![CommandView::LoadNotes]);
                    v
                },
                Err(msg) => {
                    self.error_msg = Some(msg);
                    none
                },
            },
            DesktopEvent::DeletePressed => match &self.active_slug {
                Some(slug) => {
                    let v = vec![DesktopCommand::DeleteNote(slug.clone())];
                    assert(commands_view(v@) =~= seq![CommandView::DeleteNote(slug@)]);
                    v
                },
                None => none,
            },
            DesktopEvent::Deleted(r) => match r {
                Ok(()) => {
                    self.active_slug = None;
                    self.title = String::new();
                    self.content = String::new();
                    self.is_dirty = false;
                    let v = vec![DesktopCommand::LoadNotes];
                    assert(commands_view(v@) =~= seq![CommandView::LoadNotes]);
                    v
                },
                Err(msg) => {
                    self.error_msg = Some(msg);
                    none
                },
            },
            DesktopEvent::ContentChanged(v) => {
                self.content = v;
                self.is_dirty = true;
                none
            },
            DesktopEvent::TitleChanged(v) => {
                self.title = v;
                self.is_dirty = true;
                none
            },
            DesktopEvent::ToggleMode => {
                self.is_editing = !self.is_editing;
                none
            },
            DesktopEvent::DismissError => {
                self.error_msg = None;
                none
            },
        }
    }
}

// ---------------------------------------------------------------------------
// Sidebar and toolbar
// ---------------------------------------------------------------------------

/// A listed note the sidebar's (lower-cased) filter finds, in its title or
/// preview.
pub open spec fn info_found(n: InfoView, q: Seq<char>) -> bool {
    q.len() == 0 || contains_spec(lowercase(n.title), q) || contains_spec(lowercase(n.preview), q)
}

/// The listed notes the sidebar shows for the search text, in order.
pub open spec fn sidebar_visible(notes: Seq<InfoView>, search: Seq<char>) -> Seq<InfoView>
    decreases notes.len(),
{
    if notes.len() == 0 {
        notes
    } else if info_found(notes.last(), lowercase(search)) {
        sidebar_visible(notes.drop_last(), search).push(notes.last())
    } else {
        sidebar_visible(notes.drop_last(), search)
    }
}

/// The listed notes the sidebar shows for the search text.
pub fn sidebar_visible_notes(notes: &Vec<NoteInfo>, search: &str) -> (res: Vec<usize>)
    ensures
        res.len() == sidebar_visible(infos_view(notes@), search@).len(),
        forall|k: int| 0 <= k < res.len() ==> #[trigger] res@[k] < notes.len(),
        forall|k: int|
            0 <= k < res.len() ==> #[trigger] sidebar_visible(infos_view(notes@), search@)[k]
                == notes@[res@[k] as int]@,
{
    let q = to_lowercase(&chars_of(search));
    let ghost nv = infos_view(notes@);
    let mut out: Vec<usize> = Vec::new();
    let mut k: usize = 0;
    while k < notes.len()
        invariant
            k <= notes.len(),
            nv == infos_view(notes@),
            q@ == lowercase(search@),
            out.len() == sidebar_visible(nv.take(k as int), search@).len(),
            forall|j: int| 0 <= j < out.len() ==> #[trigger] out@[j] < notes.len(),
            forall|j: int|
                0 <= j < out.len() ==> #[trigger] sidebar_visible(nv.take(k as int), search@)[j]
                    == notes@[out@[j] as int]@,
        decreases notes.len() - k,
    {
        let ghost pre = nv.take(k + 1);
        let ghost old_vis = sidebar_visible(nv.take(k as int), search@);
        let ghost old_out = out@;
        assert(pre.drop_last() =~= nv.take(k as int));
        assert(pre.last() == notes@[k as int]@);
        let n = &notes[k];
        let shown = q.len() == 0 || contains(&to_lowercase(&chars_of(n.title.as_str())), &q) || contains(
            &to_lowercase(&chars_of(n.preview.as_str())),
            &q,
        );
        if shown {
            out.push(k);
        }
        let ghost new_vis = sidebar_visible(pre, search@);
        proof {
            if shown {
                assert(info_found(pre.last(), q@));
                assert(new_vis == old_vis.push(pre.last()));
            } else {
                assert(new_vis == old_vis);
            }
            assert forall|j: int| 0 <= j < out.len() implies #[trigger] new_vis[j] == notes@[out@[j] as int]@ by {
                if j < old_out.len() {
                    assert(out@[j] == old_out[j]);
                    assert(old_vis[j] == notes@[old_out[j] as int]@);
                }
            }
        }
        k = k + 1;
        assert(nv.take(k as int) == pre);
    }
    assert(nv.take(notes.len() as int) =~= nv);
    out
}

/// The title of a note made with "+ New note": the search text, or `Note`
/// and the time in milliseconds when the search is empty.
pub fn new_note_title(search: &str, now_ms: u64) -> (res: String)
    ensures
        res@ == (if search@.len() == 0 {
            "Note "@ + decimal_spec(now_ms as nat)
        } else {
            search@
        }),
{
    let s = chars_of(search);
    if s.len() == 0 {
        string_of(&concat(&text("Note "), &decimal(now_ms)))
    } else {
        string_of(&s)
    }
}

/// The class of a sidebar item: marked when it is the open note.
pub fn item_class(active: bool) -> (res: &'static str)
    ensures
        res@ == (if active {
            "note-item active"@
        } else {
            "note-item"@
        }),
{
    if active {
        "note-item active"
    } else {
        "note-item"
    }
}

/// The line under a sidebar item's title: the modification time, and the
/// size when it is not zero.
pub fn item_meta(modified: &str, size: u64) -> (res: String)
    ensures
        res@ == modified@ + (if size > 0 {
            " · "@ + decimal_spec(size as nat) + " B"@
        } else {
            Seq::<char>::empty()
        }),
{
    let m = chars_of(modified);
    if size > 0 {
        string_of(&concat(&concat(&concat(&m, &text(" · ")), &decimal(size)), &text(" B")))
    } else {
        let r = string_of(&m);
        assert(m@ + Seq::<char>::empty() =~= m@);
        r
    }
}

/// A tag as the sidebar shows it.
pub fn tag_label(t: &str) -> (res: String)
    ensures
        res@ == "#"@ + t@,
{
    string_of(&concat(&text("#"), &chars_of(t)))
}

/// The theme after a toggle: light after dark, dark after anything else.
pub fn next_theme(current: &str) -> (res: &'static str)
    ensures
        res@ == (if current@ == "dark"@ {
            "light"@
        } else {
            "dark"@
        }),
{
    if crate::text::same(&chars_of(current), &text("dark")) {
        "light"
    } else {
        "dark"
    }
}

/// The save button's label.
pub fn save_label(is_dirty: bool) -> (res: &'static str)
    ensures
        res@ == (if is_dirty {
            "● Save"@
        } else {
            "Saved"@
        }),
{
    if is_dirty {
        "● Save"
    } else {
        "Saved"
    }
}

/// The class of the saved/unsaved indicator.
pub fn indicator_class(is_dirty: bool) -> (res: &'static str)
    ensures
        res@ == (if is_dirty {
            "edit-indicator unsaved"@
        } else {
            "edit-indicator"@
        }),
{
    if is_dirty {
        "edit-indicator unsaved"
    } else {
        "edit-indicator"
    }
}

/// The text of the saved/unsaved indicator.
pub fn indicator_text(is_dirty: bool) -> (res: &'static str)
    ensures
        res@ == (if is_dirty {
            "unsaved"@
        } else {
            "saved"@
        }),
{
    if is_dirty {
        "unsaved"
    } else {
        "saved"
    }
}

/// The class of the edit/preview button: marked while previewing.
pub fn mode_button_class(is_editing: bool) -> (res: &'static str)
    ensures
        res@ == (if is_editing {
            "tb-btn"@
        } else {
            "tb-btn active"@
        }),
{
    if is_editing {
        "tb-btn"
    } else {
        "tb-btn active"
    }
}

/// The label of the edit/preview button: what a click switches to.
pub fn mode_button_text(is_editing: bool) -> (res: &'static str)
    ensures
        res@ == (if is_editing {
            "Preview"@
        } else {
            "Edit"@
        }),
{
    if is_editing {
        "Preview"
    } else {
        "Edit"
    }
}

/// The class of the save button: dimmed when there is nothing to save.
pub fn save_button_class(is_dirty: bool) -> (res: &'static str)
    ensures
        res@ == (if is_dirty {
            "tb-btn primary"@
        } else {
            "tb-btn primary dimmed"@
        }),
{
    if is_dirty {
        "tb-btn primary"
    } else {
        "tb-btn primary dimmed"
    }
}

// ---------------------------------------------------------------------------
// Laws
// ---------------------------------------------------------------------------

/// Switching between editor and preview twice changes nothing.
pub proof fn law_toggle_twice(d: DesktopView)
    ensures
        desktop_step(desktop_step(d, DesktopEventView::ToggleMode).0, DesktopEventView::ToggleMode).0 == d,
{
}

/// Editing marks the note unsaved, and a successful save marks it saved and
/// lists the notes again.
pub proof fn law_edit_then_save(d: DesktopView, v: Seq<char>)
    ensures
        desktop_step(d, DesktopEventView::ContentChanged(v)).0.is_dirty,
        desktop_step(d, DesktopEventView::ContentChanged(v)).0.content == v,
        !desktop_step(d, DesktopEventView::Saved(Ok(()))).0.is_dirty,
        desktop_step(d, DesktopEventView::Saved(Ok(()))).1 == seq![CommandView::LoadNotes],
{
}

/// After a successful delete no note is open.
pub proof fn law_delete_closes_note(d: DesktopView)
    ensures
        desktop_step(d, DesktopEventView::Deleted(Ok(()))).0.active_slug is None,
{
}

proof fn lemma_sidebar_members(notes: Seq<InfoView>, search: Seq<char>)
    ensures
        forall|i: int| 0 <= i < notes.len() && info_found(notes[i], lowercase(search)) ==> #[trigger] sidebar_visible(
            notes,
            search,
        ).contains(notes[i]),
        forall|x: InfoView| #[trigger] sidebar_visible(notes, search).contains(x) ==> notes.contains(x) && info_found(
            x,
            lowercase(search),
        ),
    decreases notes.len(),
{
    if notes.len() > 0 {
        let init = notes.drop_last();
        lemma_sidebar_members(init, search);
        let q = lowercase(search);
        let f = sidebar_visible(notes, search);
        let fi = sidebar_visible(init, search);
        assert forall|i: int| 0 <= i < notes.len() && info_found(notes[i], q) implies #[trigger] sidebar_visible(
            notes,
            search,
        ).contains(notes[i]) by {
            if i < init.len() {
                assert(init[i] == notes[i]);
                assert(fi.contains(init[i]));
                let j = choose|j: int| 0 <= j < fi.len() && fi[j] == init[i];
                if info_found(notes.last(), q) {
                    assert(f[j] == fi[j]);
                }
            } else {
                assert(notes[i] == notes.last());
                assert(f[f.len() - 1] == notes.last());
            }
        }
        assert forall|x: InfoView| #[trigger] sidebar_visible(notes, search).contains(x) implies notes.contains(x)
            && info_found(x, q) by {
            let j = choose|j: int| 0 <= j < f.len() && f[j] == x;
            if info_found(notes.last(), q) && j == f.len() - 1 {
                assert(notes[notes.len() - 1] == x);
            } else {
                assert(fi[j] == x);
                assert(fi.contains(x));
                let k = choose|k: int| 0 <= k < init.len() && init[k] == x;
                assert(notes[k] == x);
            }
        }
    }
}

/// The sidebar shows exactly the listed notes whose title or preview holds
/// the search text, ignoring case (all of them for an empty search).
pub proof fn law_sidebar_shows_matches(notes: Seq<InfoView>, search: Seq<char>)
    ensures
        forall|i: int|
            0 <= i < notes.len() && (lowercase(search).len() == 0 || contains_spec(
                lowercase(notes[i].title),
                lowercase(search),
            ) || contains_spec(lowercase(notes[i].preview), lowercase(search))) ==> #[trigger] sidebar_visible(
                notes,
                search,
            ).contains(notes[i]),
        forall|x: InfoView| #[trigger] sidebar_visible(notes, search).contains(x) ==> notes.contains(x) && (
        lowercase(search).len() == 0 || contains_spec(lowercase(x.title), lowercase(search)) || contains_spec(
            lowercase(x.preview),
            lowercase(search),
        )),
{
    lemma_sidebar_members(notes, search);
}

} // verus!
