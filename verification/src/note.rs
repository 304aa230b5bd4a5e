//! A note as listed: its id, title, preview, tags and file metadata, made
//! from the text of its Markdown file and what the file system says of it.

use vstd::prelude::*;
use chrono::TimeZone;
use crate::text::{
    lines_spec, join_spec, trim_spec, trim_start_matches_spec, last_segment, replace_char_spec,
    seqs_of, chars_of, string_of, lines, join, trim, trim_start_matches, text, replace_char,
    slice_of, push_new,
};
use crate::content::{h1_marker, first_h1_from, is_created_stamp_spec, first_h1, is_created_stamp};
use crate::error::{ErrorKind, ErrorView, StoreError, about};
use crate::tags::{tags_spec, extract_tags_chars};
use crate::fsplan::last_segment_exec;

verus! {

broadcast use vstd::string::group_string_axioms;

// ---------------------------------------------------------------------------
// File metadata
// ---------------------------------------------------------------------------

/// A point in time: whole seconds since the Unix epoch (negative before it)
/// and the nanoseconds after that second.
#[derive(Clone, Copy, PartialEq, Eq, Structural, Debug)]
pub struct FileTime {
    pub secs: i64,
    pub nanos: u32,
}

/// What the file system says of a note's file.
#[derive(Clone, Copy, PartialEq, Eq, Structural, Debug)]
pub struct FileMeta {
    /// The length in bytes.
    pub size: u64,
    /// When the file was created, where the platform records it.
    pub created: Option<FileTime>,
    /// When the file was last modified.
    pub modified: Option<FileTime>,
}

/// A time that calendar formatting can show (within about 250,000 years of
/// the epoch, with a valid sub-second part).
pub open spec fn time_in_range(t: FileTime) -> bool {
    -8_000_000_000_000 <= t.secs <= 8_000_000_000_000 && t.nanos < 1_000_000_000
}

/// Both recorded times can be shown.
pub open spec fn meta_in_range(m: FileMeta) -> bool {
    (m.created matches Some(t) ==> time_in_range(t)) && (m.modified matches Some(t) ==> time_in_range(
        t,
    ))
}

/// The whole seconds since the epoch of a modification time, 0 for a time
/// before the epoch or none.
pub open spec fn epoch_secs(t: Option<FileTime>) -> u64 {
    match t {
        Some(ft) => if ft.secs >= 0 {
            ft.secs as u64
        } else {
            0
        },
        None => 0,
    }
}

/// An ASCII decimal digit.
pub open spec fn is_digit(c: char) -> bool {
    '0' <= c <= '9'
}

/// Every character of `s` is a digit.
pub open spec fn all_digits(s: Seq<char>) -> bool {
    forall|i: int| 0 <= i < s.len() ==> #[trigger] is_digit(s[i])
}

/// A year as `%Y` writes it: at least four digits, with a sign in front
/// when the year is negative or above 9999.
pub open spec fn year_text(y: Seq<char>) -> bool {
    ||| y.len() >= 4 && all_digits(y)
    ||| y.len() >= 5 && (y[0] == '+' || y[0] == '-') && all_digits(y.skip(1))
}

/// The shape of `%Y-%m-%d %H:%M`: a year, then `-MM-DD HH:MM` with each
/// field two digits.
pub open spec fn stamp_shape(s: Seq<char>) -> bool {
    let n = s.len() as int;
    &&& n >= 16
    &&& year_text(s.take(n - 12))
    &&& s[n - 12] == '-'
    &&& s[n - 9] == '-'
    &&& s[n - 6] == ' '
    &&& s[n - 3] == ':'
    &&& is_digit(s[n - 11]) && is_digit(s[n - 10])
    &&& is_digit(s[n - 8]) && is_digit(s[n - 7])
    &&& is_digit(s[n - 5]) && is_digit(s[n - 4])
    &&& is_digit(s[n - 2]) && is_digit(s[n - 1])
}

/// Formats `secs`/`nanos` since the epoch as `%Y-%m-%d %H:%M` in the
/// machine's local time zone, through chrono's `Utc.timestamp_opt`,
/// `with_timezone(&Local)` and `format`. Which date and time come out
/// depends on the time zone the machine is set to, so only the shape that
/// chrono's formatting of these fields always writes is stated: the year
/// (four digits at least, signed outside 0 to 9999), then two-digit month,
/// day, hour and minute with their separators.
#[verifier::external_body]
fn format_file_time(secs: i64, nanos: u32) -> (res: String)
    requires
        -8_000_000_000_000 <= secs <= 8_000_000_000_000,
        nanos < 1_000_000_000,
    ensures
        stamp_shape(res@),
{
    chrono::Utc.timestamp_opt(secs, nanos).unwrap().with_timezone(&chrono::Local).format(
        "%Y-%m-%d %H:%M",
    ).to_string()
}

fn format_opt(t: Option<FileTime>) -> (res: String)
    requires
        t matches Some(ft) ==> time_in_range(ft),
    ensures
        t is None ==> res@ == Seq::<char>::empty(),
        t is Some ==> stamp_shape(res@),
{
    match t {
        Some(ft) => format_file_time(ft.secs, ft.nanos),
        None => String::new(),
    }
}

// ---------------------------------------------------------------------------
// Note ids from paths
// ---------------------------------------------------------------------------

/// What `Path::strip_prefix` gives for `path` under `root`, as text: the
/// rest of the path when `root` is a prefix of it (component by component),
/// none otherwise.
pub uninterp spec fn stripped_path(path: Seq<char>, root: Seq<char>) -> Option<Seq<char>>;

/// What `Path::with_extension("")` gives for `path`, as text: the path with
/// the extension of its last component removed.
pub uninterp spec fn without_extension(path: Seq<char>) -> Seq<char>;

/// The mathematical value of an optional text.
pub open spec fn opt_seq(o: Option<String>) -> Option<Seq<char>> {
    match o {
        Some(s) => Some(s@),
        None => None,
    }
}

/// Calls `Path::strip_prefix` and turns the remaining path into text;
/// the contract names the result (component-wise path comparison is not
/// restated here).
#[verifier::external_body]
fn strip_path_prefix(path: &str, root: &str) -> (res: Option<String>)
    ensures
        opt_seq(res) == stripped_path(path@, root@),
{
    match std::path::Path::new(path).strip_prefix(root) {
        Ok(rest) => Some(rest.to_string_lossy().into_owned()),
        Err(_) => None,
    }
}

/// Calls `Path::with_extension("")` and turns the path into text; the
/// contract names the result (what counts as an extension is not restated
/// here).
#[verifier::external_body]
fn path_without_extension(path: &str) -> (res: String)
    ensures
        res@ == without_extension(path@),
{
    std::path::Path::new(path).with_extension("").to_string_lossy().into_owned()
}

/// The note id of a vault-relative path without extension: backslashes
/// become slashes.
pub open spec fn id_of_stem(stem: Seq<char>) -> Seq<char> {
    replace_char_spec(stem, '\\', '/')
}

/// The note id of a file inside the vault, if it is inside.
pub open spec fn relative_id_spec(root: Seq<char>, path: Seq<char>) -> Result<Seq<char>, ErrorView> {
    match stripped_path(path, root) {
        Some(rel) => Ok(id_of_stem(without_extension(rel))),
        None => Err(about(ErrorKind::OutsideVault, path)),
    }
}

/// The note id of a vault-relative path whose extension is already gone.
pub fn id_from_stem(stem: &str) -> (res: String)
    ensures
        res@ == id_of_stem(stem@),
{
    string_of(&replace_char(&chars_of(stem), '\\', '/'))
}

/// The note id of the file at `path` in the vault at `root`: the path
/// relative to the root, without extension, with `/` between folders.
pub fn relative_note_id(root: &str, path: &str) -> (res: Result<String, StoreError>)
    ensures
        crate::error::rview(res) == relative_id_spec(root@, path@),
{
    match strip_path_prefix(path, root) {
        Some(rel) => {
            let stem = path_without_extension(rel.as_str());
            Ok(id_from_stem(stem.as_str()))
        },
        None => Err(StoreError::about(ErrorKind::OutsideVault, &chars_of(path))),
    }
}

/// The path of a folder inside the vault, relative to the root, with `/`
/// between folders and nothing removed from its name.
pub open spec fn relative_dir_spec(root: Seq<char>, path: Seq<char>) -> Result<Seq<char>, ErrorView> {
    match stripped_path(path, root) {
        Some(rel) => Ok(id_of_stem(rel)),
        None => Err(about(ErrorKind::OutsideVault, path)),
    }
}

/// The path of the folder at `path` relative to the vault at `root`.
pub fn relative_dir_path(root: &str, path: &str) -> (res: Result<String, StoreError>)
    ensures
        crate::error::rview(res) == relative_dir_spec(root@, path@),
{
    match strip_path_prefix(path, root) {
        Some(rel) => Ok(id_from_stem(rel.as_str())),
        None => Err(StoreError::about(ErrorKind::OutsideVault, &chars_of(path))),
    }
}

// ---------------------------------------------------------------------------
// Title and preview
// ---------------------------------------------------------------------------

/// The title of a note: the first line that starts with `# `, without its
/// leading `# `s and trimmed; the last segment of the id when there is no
/// such line or it is empty.
pub open spec fn note_title_spec(content: Seq<char>, name: Seq<char>) -> Seq<char> {
    match first_h1_from(lines_spec(content), 0) {
        Some(l) => {
            let t = trim_spec(trim_start_matches_spec(l, h1_marker()));
            if t.len() > 0 {
                t
            } else {
                last_segment(name, '/')
            }
        },
        None => last_segment(name, '/'),
    }
}

/// A line the preview shows: not a heading, not blank, not the creation
/// stamp.
pub open spec fn previewable(l: Seq<char>) -> bool {
    !(l.len() > 0 && l[0] == '#') && trim_spec(l).len() > 0 && !is_created_stamp_spec(l)
}

/// The lines the preview may show, in order.
pub open spec fn preview_lines(ls: Seq<Seq<char>>) -> Seq<Seq<char>>
    decreases ls.len(),
{
    if ls.len() == 0 {
        ls
    } else if previewable(ls.last()) {
        preview_lines(ls.drop_last()).push(ls.last())
    } else {
        preview_lines(ls.drop_last())
    }
}

/// At most the first `n` items.
pub open spec fn first_n<A>(s: Seq<A>, n: int) -> Seq<A> {
    if s.len() <= n {
        s
    } else {
        s.take(n)
    }
}

/// The preview of a note: its first two shown lines joined by a space, cut
/// to 120 characters.
pub open spec fn preview_spec(content: Seq<char>) -> Seq<char> {
    first_n(join_spec(first_n(preview_lines(lines_spec(content)), 2), ' '), 120)
}

/// The title of a note with text `content` and id `name`.
pub fn note_title(content: &Vec<char>, name: &Vec<char>) -> (res: Vec<char>)
    ensures
        res@ == note_title_spec(content@, name@),
{
    let ls = lines(content);
    match first_h1(&ls, 0) {
        Some(j) => {
            proof {
                reveal_strlit("# ");
                assert("# "@ =~= h1_marker());
            }
            let t = trim(&trim_start_matches(&ls[j], &text("# ")));
            if t.len() > 0 {
                t
            } else {
                last_segment_exec(name, '/')
            }
        },
        None => last_segment_exec(name, '/'),
    }
}

/// The preview of a note with text `content`.
pub fn preview(content: &Vec<char>) -> (res: Vec<char>)
    ensures
        res@ == preview_spec(content@),
{
    let ls = lines(content);
    let mut kept: Vec<Vec<char>> = Vec::new();
    let mut k: usize = 0;
    while k < ls.len()
        invariant
            k <= ls.len(),
            seqs_of(ls@) == lines_spec(content@),
            seqs_of(kept@) == preview_lines(seqs_of(ls@).take(k as int)),
        decreases ls.len() - k,
    {
        let l = &ls[k];
        assert(l@ == seqs_of(ls@)[k as int]);
        assert(seqs_of(ls@).take(k + 1).drop_last() =~= seqs_of(ls@).take(k as int));
        let shown = !(l.len() > 0 && l[0] == '#') && trim(l).len() > 0 && !is_created_stamp(l);
        if shown {
            let ghost before = seqs_of(kept@);
            kept.push(l.clone());
            assert(seqs_of(kept@) =~= before.push(l@));
        }
        k = k + 1;
    }
    assert(seqs_of(ls@).take(ls.len() as int) =~= seqs_of(ls@));
    let mut two: Vec<Vec<char>> = Vec::new();
    let mut j: usize = 0;
    while j < kept.len() && j < 2
        invariant
            j <= kept.len(),
            j <= 2,
            seqs_of(two@) == seqs_of(kept@).take(j as int),
        decreases kept.len() - j,
    {
        let ghost before = seqs_of(two@);
        let item = kept[j].clone();
        assert(item@ == seqs_of(kept@)[j as int]);
        two.push(item);
        assert(seqs_of(two@) =~= before.push(item@));
        assert(seqs_of(kept@).take(j + 1) =~= seqs_of(kept@).take(j as int).push(
            seqs_of(kept@)[j as int],
        ));
        j = j + 1;
    }
    assert(seqs_of(two@) =~= first_n(seqs_of(kept@), 2));
    let joined = join(&two, ' ');
    if joined.len() <= 120 {
        joined
    } else {
        slice_of(&joined, 0, 120)
    }
}

// ---------------------------------------------------------------------------
// Notes
// ---------------------------------------------------------------------------

/// A note with its metadata, as lists and searches show it.
#[derive(Debug)]
pub struct Note {
    /// The note id: its path in the vault without `.md`.
    pub name: String,
    pub title: String,
    /// The file's path.
    pub path: String,
    /// Creation time, formatted; empty when unknown.
    pub created: String,
    /// Modification time, formatted; empty when unknown.
    pub modified: String,
    /// Modification time in whole seconds since the epoch (0 when unknown).
    pub modified_raw: u64,
    /// File size in bytes.
    pub size: u64,
    /// The first lines of text, cut to 120 characters.
    pub preview: String,
    pub tags: Vec<String>,
}

/// The mathematical value of a note.
pub struct NoteView {
    pub name: Seq<char>,
    pub title: Seq<char>,
    pub path: Seq<char>,
    pub created: Seq<char>,
    pub modified: Seq<char>,
    pub modified_raw: u64,
    pub size: u64,
    pub preview: Seq<char>,
    pub tags: Seq<Seq<char>>,
}

/// The views of a list of texts.
pub open spec fn strings_view(v: Seq<String>) -> Seq<Seq<char>> {
    v.map_values(|s: String| s@)
}

impl View for Note {
    type V = NoteView;

    open spec fn view(&self) -> NoteView {
        NoteView {
            name: self.name@,
            title: self.title@,
            path: self.path@,
            created: self.created@,
            modified: self.modified@,
            modified_raw: self.modified_raw,
            size: self.size,
            preview: self.preview@,
            tags: strings_view(self.tags@),
        }
    }
}

/// What a note made from `content` and `meta` holds for the file at `path`
/// whose id is `name`, its times as text aside.
pub open spec fn note_fields(n: NoteView, name: Seq<char>, path: Seq<char>, content: Seq<char>, meta: FileMeta) -> bool {
    &&& n.name == name
    &&& n.title == note_title_spec(content, name)
    &&& n.path == path
    &&& n.modified_raw == epoch_secs(meta.modified)
    &&& n.size == meta.size
    &&& n.preview == preview_spec(content)
    &&& n.tags == tags_spec(content)
}

/// The recorded times a note shows, creation first: the creation time, or
/// the modification time when no creation time is recorded; and the
/// modification time.
pub open spec fn shown_times_spec(meta: FileMeta) -> (Option<FileTime>, Option<FileTime>) {
    (
        match meta.created {
            Some(t) => Some(t),
            None => meta.modified,
        },
        meta.modified,
    )
}

/// The recorded times a note shows, creation first.
pub fn shown_times(meta: &FileMeta) -> (res: (Option<FileTime>, Option<FileTime>))
    ensures
        res == shown_times_spec(*meta),
{
    let created = match meta.created {
        Some(t) => Some(t),
        None => meta.modified,
    };
    (created, meta.modified)
}

/// What a note made from `content` and `meta` holds, for the file at
/// `path` whose id is `name`. Of the two times as text, which date and time
/// they show depends on the machine's time zone; their shape, and that the
/// creation time falls back to the modification time, are fixed.
pub open spec fn note_made(n: NoteView, name: Seq<char>, path: Seq<char>, content: Seq<char>, meta: FileMeta) -> bool {
    &&& note_fields(n, name, path, content, meta)
    &&& (meta.modified is None ==> n.modified == Seq::<char>::empty())
    &&& (meta.modified is Some ==> stamp_shape(n.modified))
    &&& (meta.created is Some ==> stamp_shape(n.created))
    &&& (meta.created is None ==> n.created == n.modified)
}

/// The outcome of reading a note, as far as it is stated: which error, or
/// the note's id.
pub open spec fn note_outcome(
    root: Seq<char>,
    path: Seq<char>,
    content: Option<Seq<char>>,
    meta: Option<FileMeta>,
) -> Result<Seq<char>, ErrorView> {
    if content is None {
        Err(about(ErrorKind::FileUnreadable, path))
    } else if meta is None {
        Err(about(ErrorKind::FileUnstatable, path))
    } else {
        relative_id_spec(root, path)
    }
}

/// Copies a list of texts into `String`s.
pub fn to_strings(v: &Vec<Vec<char>>) -> (res: Vec<String>)
    ensures
        strings_view(res@) == seqs_of(v@),
{
    let mut out: Vec<String> = Vec::new();
    let mut k: usize = 0;
    while k < v.len()
        invariant
            k <= v.len(),
            strings_view(out@) == seqs_of(v@).take(k as int),
        decreases v.len() - k,
    {
        let ghost before = strings_view(out@);
        let s = string_of(&v[k]);
        out.push(s);
        assert(strings_view(out@) =~= before.push(s@));
        assert(seqs_of(v@).take(k + 1) =~= seqs_of(v@).take(k as int).push(v@[k as int]@));
        k = k + 1;
    }
    assert(seqs_of(v@).take(v.len() as int) =~= seqs_of(v@));
    out
}

impl Note {
    /// A note read from the file at `path` in the vault at `root`, given
    /// the file's text (`None` when it could not be read) and metadata
    /// (`None` when it could not be had).
    pub fn from_path(root: &str, path: &str, content: Option<String>, meta: Option<FileMeta>) -> (res:
        Result<Note, StoreError>)
        requires
            meta matches Some(m) ==> meta_in_range(m),
        ensures
            match res {
                Ok(n) => note_outcome(root@, path@, opt_seq(content), meta) == Ok::<Seq<char>, ErrorView>(
                    n.name@,
                ) && note_made(n@, n.name@, path@, content->Some_0@, meta->Some_0),
                Err(e) => note_outcome(root@, path@, opt_seq(content), meta) == Err::<Seq<char>, ErrorView>(
                    e@,
                ),
            },
    {
        match Note::from_path_with_content(root, path, content, meta) {
            Ok((n, _)) => Ok(n),
            Err(e) => Err(e),
        }
    }

    /// Like `from_path`, but also gives back the file's text.
    pub fn from_path_with_content(
        root: &str,
        path: &str,
        content: Option<String>,
        meta: Option<FileMeta>,
    ) -> (res: Result<(Note, String), StoreError>)
        requires
            meta matches Some(m) ==> meta_in_range(m),
        ensures
            match res {
                Ok((n, c)) => note_outcome(root@, path@, opt_seq(content), meta) == Ok::<
                    Seq<char>,
                    ErrorView,
                >(n.name@) && content == Some(c) && note_made(n@, n.name@, path@, c@, meta->Some_0),
                Err(e) => note_outcome(root@, path@, opt_seq(content), meta) == Err::<Seq<char>, ErrorView>(
                    e@,
                ),
            },
    {
        let content = match content {
            Some(c) => c,
            None => {
                return Err(StoreError::about(ErrorKind::FileUnreadable, &chars_of(path)));
            },
        };
        let meta = match meta {
            Some(m) => m,
            None => {
                return Err(StoreError::about(ErrorKind::FileUnstatable, &chars_of(path)));
            },
        };
        let (ct, mt) = shown_times(&meta);
        let modified = format_opt(mt);
        let created = match meta.created {
            Some(_) => format_opt(ct),
            None => modified.clone(),
        };
        Note::from_stamps(root, path, content, meta, created, modified)
    }

    /// The note for the file at `path` in the vault at `root`, from its
    /// text, its recorded metadata and its two times already written out
    /// (`created` for the creation time, `modified` for the modification
    /// time, as `shown_times` picks them).
    pub fn from_stamps(
        root: &str,
        path: &str,
        content: String,
        meta: FileMeta,
        created: String,
        modified: String,
    ) -> (res: Result<(Note, String), StoreError>)
        ensures
            match res {
                Ok((n, c)) => relative_id_spec(root@, path@) == Ok::<Seq<char>, ErrorView>(n.name@) && c
                    == content && note_fields(n@, n.name@, path@, c@, meta) && n.created@ == created@
                    && n.modified@ == modified@,
                Err(e) => relative_id_spec(root@, path@) == Err::<Seq<char>, ErrorView>(e@),
            },
    {
        let name = match relative_note_id(root, path) {
            Ok(n) => n,
            Err(e) => {
                return Err(e);
            },
        };
        let c = chars_of(content.as_str());
        let name_chars = chars_of(name.as_str());
        let title = string_of(&note_title(&c, &name_chars));
        let preview = string_of(&preview(&c));
        let tags = to_strings(&extract_tags_chars(&c));
        let modified_raw: u64 = match meta.modified {
            Some(t) => if t.secs >= 0 {
                t.secs as u64
            } else {
                0
            },
            None => 0,
        };
        let note = Note {
            name,
            title,
            path: string_of(&chars_of(path)),
            created,
            modified,
            modified_raw,
            size: meta.size,
            preview,
            tags,
        };
        Ok((note, content))
    }
}

/// A line that starts with `#` and a space.
pub open spec fn is_h1_line(l: Seq<char>) -> bool {
    l.len() >= 2 && l[0] == '#' && l[1] == ' '
}

proof fn lemma_h1_marker(l: Seq<char>)
    ensures
        crate::text::is_prefix(h1_marker(), l) <==> is_h1_line(l),
{
    if is_h1_line(l) {
        assert(l.subrange(0, 2) =~= h1_marker());
    }
    if crate::text::is_prefix(h1_marker(), l) {
        assert(l.subrange(0, 2)[0] == l[0] && l.subrange(0, 2)[1] == l[1]);
    }
}

proof fn lemma_first_h1_from(ls: Seq<Seq<char>>, i: int, j: int)
    requires
        0 <= i <= j < ls.len(),
        is_h1_line(ls[j]),
        forall|k: int| i <= k < j ==> !is_h1_line(#[trigger] ls[k]),
    ensures
        first_h1_from(ls, i) == Some(ls[j]),
    decreases j - i,
{
    lemma_h1_marker(ls[i]);
    if i < j {
        lemma_first_h1_from(ls, i + 1, j);
    }
}

proof fn lemma_first_h1_none(ls: Seq<Seq<char>>, i: int)
    requires
        0 <= i,
        forall|k: int| i <= k < ls.len() ==> !is_h1_line(#[trigger] ls[k]),
    ensures
        first_h1_from(ls, i) is None,
    decreases ls.len() - i,
{
    if i < ls.len() {
        lemma_h1_marker(ls[i]);
        lemma_first_h1_none(ls, i + 1);
    }
}

/// A note's title comes from its first line that starts with `# `: that
/// line without its leading `# `s, trimmed, unless that leaves nothing; a
/// note with no such line, or an empty one, is titled by the last segment
/// of its id.
pub proof fn law_note_title(content: Seq<char>, name: Seq<char>)
    ensures
        forall|j: int|
            0 <= j < lines_spec(content).len() && is_h1_line(#[trigger] lines_spec(content)[j]) && (forall|i: int|
                0 <= i < j ==> !is_h1_line(lines_spec(content)[i])) ==> note_title_spec(content, name) == ({
                let t = trim_spec(trim_start_matches_spec(lines_spec(content)[j], seq!['#', ' ']));
                if t.len() > 0 {
                    t
                } else {
                    last_segment(name, '/')
                }
            }),
        (forall|i: int| 0 <= i < lines_spec(content).len() ==> !is_h1_line(#[trigger] lines_spec(content)[i]))
            ==> note_title_spec(content, name) == last_segment(name, '/'),
{
    let ls = lines_spec(content);
    assert forall|j: int|
        0 <= j < ls.len() && is_h1_line(#[trigger] ls[j]) && (forall|i: int| 0 <= i < j ==> !is_h1_line(ls[i]))
            implies note_title_spec(content, name) == ({
        let t = trim_spec(trim_start_matches_spec(ls[j], seq!['#', ' ']));
        if t.len() > 0 {
            t
        } else {
            last_segment(name, '/')
        }
    }) by {
        lemma_first_h1_from(ls, 0, j);
        assert(h1_marker() == seq!['#', ' ']);
    }
    if forall|i: int| 0 <= i < ls.len() ==> !is_h1_line(#[trigger] ls[i]) {
        lemma_first_h1_none(ls, 0);
    }
}

} // verus!
