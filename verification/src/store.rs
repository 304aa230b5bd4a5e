//! The vault of notes: what each operation asks of the file system and
//! decides from the answers (see `fsplan`).

use vstd::prelude::*;
use crate::text::{trim_spec, last_segment, rsplit_once_spec, is_prefix, chars_of, trim, same, starts_with};
use crate::error::{ErrorKind, StoreError, about, bare};
use crate::slug::{
    resolve_spec, normalize_spec, slug_of, child_path, components_valid, resolve_id,
    normalize_folder_path, slug_chars, child_path_exec, validate_path_components, bail_if_empty_slug,
    note_id_from_title_spec, note_id_from_title_chars,
};
use crate::content::{set_content_title_spec, set_content_title};
use crate::fsplan::{
    FsOp, FsReply, Step, StepView, ReplyView, replies_view, ask, probe, fail, succeed, yes, done,
    note_path, parent_of, request, probe_step, fail_step, is_yes, is_done, note_path_exec,
    rsplit_once, last_segment_exec, parent_exec,
};

verus! {

/// The vault: a directory of Markdown notes, nested in folders.
pub struct Store {
    /// The vault's directory.
    pub root: String,
}

/// The mathematical value of an optional text.
pub open spec fn opt_view(o: Option<&str>) -> Option<Seq<char>> {
    match o {
        Some(s) => Some(s@),
        None => None,
    }
}

/// The given destination, unless it is missing or blank.
pub open spec fn given(o: Option<Seq<char>>) -> Option<Seq<char>> {
    match o {
        Some(f) => if trim_spec(f).len() > 0 { Some(f) } else { None },
        None => None,
    }
}

// ---------------------------------------------------------------------------
// Plans
// ---------------------------------------------------------------------------

/// `create_folder`: create the folder with all missing ancestors.
pub open spec fn create_folder_plan(path: Seq<char>, r: Seq<ReplyView>) -> StepView<()> {
    match normalize_spec(path) {
        Err(e) => fail(e),
        Ok(p) => if r.len() == 0 {
            probe(FsOp::CreateDirAll, p)
        } else if done(r[0]) {
            succeed(())
        } else {
            fail(about(ErrorKind::CreateFolderFailed, p))
        },
    }
}

/// `read`: the text of the note.
pub open spec fn read_plan(name: Seq<char>, r: Seq<ReplyView>) -> StepView<Seq<char>> {
    match resolve_spec(name) {
        Err(e) => fail(e),
        Ok(id) => if r.len() == 0 {
            probe(FsOp::ReadText, note_path(id))
        } else {
            match r[0] {
                ReplyView::Text(s) => succeed(s),
                _ => fail(about(ErrorKind::NoteNotFound, id)),
            }
        },
    }
}

/// `write`: create the note's folder, then write its text.
pub open spec fn write_plan(name: Seq<char>, content: Seq<char>, r: Seq<ReplyView>) -> StepView<()> {
    match resolve_spec(name) {
        Err(e) => fail(e),
        Ok(id) => if r.len() == 0 {
            probe(FsOp::CreateDirAll, parent_of(note_path(id)))
        } else if !done(r[0]) {
            fail(about(ErrorKind::CreateParentFailed, id))
        } else if r.len() == 1 {
            ask(FsOp::WriteText, note_path(id), content)
        } else if !done(r[1]) {
            fail(about(ErrorKind::WriteFailed, id))
        } else {
            succeed(())
        },
    }
}

/// `delete`: remove the note's file.
pub open spec fn delete_plan(name: Seq<char>, r: Seq<ReplyView>) -> StepView<()> {
    match resolve_spec(name) {
        Err(e) => fail(e),
        Ok(id) => if r.len() == 0 {
            probe(FsOp::RemoveFile, note_path(id))
        } else if done(r[0]) {
            succeed(())
        } else {
            fail(about(ErrorKind::NoteNotFound, id))
        },
    }
}

/// `exists`: whether the note's file exists (false for a name that is not a
/// valid id).
pub open spec fn exists_plan(name: Seq<char>, r: Seq<ReplyView>) -> StepView<bool> {
    match resolve_spec(name) {
        Err(_) => succeed(false),
        Ok(id) => if r.len() == 0 {
            probe(FsOp::Exists, note_path(id))
        } else {
            succeed(yes(r[0]))
        },
    }
}

/// The id a note gets when moved into `dest` (the vault root when absent or
/// blank): its last segment under the normalized destination, resolved as
/// a note id (so at the root the segment is slugified, and the id names
/// the file the note is moved to).
pub open spec fn moved_note_id(from_id: Seq<char>, dest: Option<Seq<char>>) -> Result<
    Seq<char>,
    (ErrorKind, Seq<char>, Seq<char>),
> {
    let file = last_segment(from_id, '/');
    match given(dest) {
        Some(f) => match normalize_spec(f) {
            Ok(nf) => resolve_spec(child_path(nf, file)),
            Err(e) => Err(e),
        },
        None => resolve_spec(file),
    }
}

/// After the target is known to be free: create its folder and rename.
pub open spec fn move_file_plan(from_id: Seq<char>, new_id: Seq<char>, r: Seq<ReplyView>) -> StepView<
    Seq<char>,
> {
    if r.len() == 0 {
        probe(FsOp::CreateDirAll, parent_of(note_path(new_id)))
    } else if !done(r[0]) {
        fail(about(ErrorKind::CreateParentFailed, new_id))
    } else if r.len() == 1 {
        ask(FsOp::Rename, note_path(from_id), note_path(new_id))
    } else if !done(r[1]) {
        fail((ErrorKind::MoveNoteFailed, from_id, new_id))
    } else {
        succeed(new_id)
    }
}

/// Refuse a target note that exists (anything at its file path), then move.
pub open spec fn move_target_plan(from_id: Seq<char>, new_id: Seq<char>, r: Seq<ReplyView>) -> StepView<
    Seq<char>,
> {
    if r.len() == 0 {
        probe(FsOp::Exists, note_path(new_id))
    } else if yes(r[0]) {
        fail(about(ErrorKind::NoteExists, new_id))
    } else {
        move_file_plan(from_id, new_id, r.drop_first())
    }
}

/// `move_note`: move a note into `dest` (or the vault root); the result is
/// the new id.
pub open spec fn move_note_plan(from: Seq<char>, dest: Option<Seq<char>>, r: Seq<ReplyView>) -> StepView<
    Seq<char>,
> {
    match resolve_spec(from) {
        Err(e) => fail(e),
        Ok(from_id) => if r.len() == 0 {
            probe(FsOp::IsFile, note_path(from_id))
        } else if !yes(r[0]) {
            fail(about(ErrorKind::NoteNotFound, from_id))
        } else {
            match moved_note_id(from_id, dest) {
                Err(e) => fail(e),
                Ok(new_id) => if from_id == new_id {
                    succeed(new_id)
                } else {
                    move_target_plan(from_id, new_id, r.drop_first())
                },
            }
        },
    }
}

/// The path a folder gets when moved under `dest` (the vault root when
/// absent or blank); moving it into itself or below is refused.
pub open spec fn moved_folder_path(from: Seq<char>, dest: Option<Seq<char>>) -> Result<
    Seq<char>,
    (ErrorKind, Seq<char>, Seq<char>),
> {
    let name = last_segment(from, '/');
    match given(dest) {
        Some(p) => match normalize_spec(p) {
            Err(e) => Err(e),
            Ok(np) => if np == from || is_prefix(from.push('/'), np) {
                Err(bare(ErrorKind::MoveIntoItself))
            } else {
                Ok(child_path(np, name))
            },
        },
        None => Ok(name),
    }
}

/// `move_folder`: move a folder under `dest` (or the vault root); the result
/// is the new path.
pub open spec fn move_folder_plan(from: Seq<char>, dest: Option<Seq<char>>, r: Seq<ReplyView>) -> StepView<
    Seq<char>,
> {
    match normalize_spec(from) {
        Err(e) => fail(e),
        Ok(f) => if r.len() == 0 {
            probe(FsOp::IsDir, f)
        } else if !yes(r[0]) {
            fail(about(ErrorKind::FolderNotFound, f))
        } else {
            match moved_folder_path(f, dest) {
                Err(e) => fail(e),
                Ok(np) => if f == np {
                    succeed(np)
                } else if r.len() == 1 {
                    probe(FsOp::Exists, np)
                } else if yes(r[1]) {
                    fail(about(ErrorKind::FolderExists, np))
                } else if r.len() == 2 {
                    probe(FsOp::CreateDirAll, parent_of(np))
                } else if !done(r[2]) {
                    fail(about(ErrorKind::CreateParentFailed, np))
                } else if r.len() == 3 {
                    ask(FsOp::Rename, f, np)
                } else if !done(r[3]) {
                    fail((ErrorKind::MoveFolderFailed, f, np))
                } else {
                    succeed(np)
                },
            }
        },
    }
}

/// The id of a note renamed to the slug `file`, in the same folder.
pub open spec fn renamed_id(from_id: Seq<char>, file: Seq<char>) -> Seq<char> {
    match rsplit_once_spec(from_id, '/') {
        Some(pair) => child_path(pair.0, file),
        None => file,
    }
}

/// Writing the renamed note under its new id and removing the old file.
pub open spec fn rename_write_plan(
    from_id: Seq<char>,
    new_id: Seq<char>,
    text: Seq<char>,
    r: Seq<ReplyView>,
) -> StepView<Seq<char>> {
    if r.len() == 0 {
        probe(FsOp::CreateDirAll, parent_of(note_path(new_id)))
    } else if !done(r[0]) {
        fail(about(ErrorKind::CreateParentFailed, new_id))
    } else if r.len() == 1 {
        ask(FsOp::WriteText, note_path(new_id), text)
    } else if !done(r[1]) {
        fail(about(ErrorKind::WriteFailed, new_id))
    } else if r.len() == 2 {
        probe(FsOp::RemoveFile, note_path(from_id))
    } else if !done(r[2]) {
        fail(about(ErrorKind::RemoveFailed, from_id))
    } else {
        succeed(new_id)
    }
}

/// Refuse a new id that exists (as `exists` sees it), then write.
pub open spec fn rename_target_plan(
    from_id: Seq<char>,
    new_id: Seq<char>,
    text: Seq<char>,
    r: Seq<ReplyView>,
) -> StepView<Seq<char>> {
    match resolve_spec(new_id) {
        Err(_) => rename_write_plan(from_id, new_id, text, r),
        Ok(x) => if r.len() == 0 {
            probe(FsOp::Exists, note_path(x))
        } else if yes(r[0]) {
            fail(about(ErrorKind::NoteExists, new_id))
        } else {
            rename_write_plan(from_id, new_id, text, r.drop_first())
        },
    }
}

/// `rename_note`: a new title, which gives the note a new id (the slug of
/// the title, in the same folder) and a rewritten `# ` heading.
pub open spec fn rename_note_plan(from: Seq<char>, title: Seq<char>, r: Seq<ReplyView>) -> StepView<
    Seq<char>,
> {
    match resolve_spec(from) {
        Err(e) => fail(e),
        Ok(from_id) => {
            let t = trim_spec(title);
            if t.len() == 0 {
                fail(bare(ErrorKind::EmptyTitle))
            } else if slug_of(t).len() == 0 {
                fail(about(ErrorKind::EmptySlug, t))
            } else {
                let new_id = renamed_id(from_id, slug_of(t));
                if r.len() == 0 {
                    probe(FsOp::IsFile, note_path(from_id))
                } else if !yes(r[0]) {
                    fail(about(ErrorKind::NoteNotFound, from_id))
                } else if r.len() == 1 {
                    probe(FsOp::ReadText, note_path(from_id))
                } else {
                    match r[1] {
                        ReplyView::Text(c) => {
                            let text = set_content_title_spec(c, t);
                            if from_id == new_id {
                                if r.len() == 2 {
                                    ask(FsOp::WriteText, note_path(from_id), text)
                                } else if !done(r[2]) {
                                    fail(about(ErrorKind::WriteFailed, from_id))
                                } else {
                                    succeed(new_id)
                                }
                            } else {
                                rename_target_plan(from_id, new_id, text, r.skip(2))
                            }
                        },
                        _ => fail(about(ErrorKind::ReadFailed, from_id)),
                    }
                }
            }
        },
    }
}

/// The path a folder gets when renamed to `name` in place.
pub open spec fn renamed_folder_path(from: Seq<char>, name: Seq<char>) -> Seq<char> {
    match rsplit_once_spec(from, '/') {
        Some(pair) => child_path(pair.0, name),
        None => name,
    }
}

/// `rename_folder`: a new name in the same parent; the result is the new
/// path.
pub open spec fn rename_folder_plan(from: Seq<char>, new_name: Seq<char>, r: Seq<ReplyView>) -> StepView<
    Seq<char>,
> {
    match normalize_spec(from) {
        Err(e) => fail(e),
        Ok(f) => {
            let n = trim_spec(new_name);
            if n.len() == 0 {
                fail(bare(ErrorKind::EmptyFolderName))
            } else if !components_valid(n) {
                fail(about(ErrorKind::InvalidPathComponent, n))
            } else {
                let np = renamed_folder_path(f, n);
                if f == np {
                    succeed(np)
                } else if r.len() == 0 {
                    probe(FsOp::IsDir, f)
                } else if !yes(r[0]) {
                    fail(about(ErrorKind::FolderNotFound, f))
                } else if r.len() == 1 {
                    probe(FsOp::Exists, np)
                } else if yes(r[1]) {
                    fail(about(ErrorKind::FolderExists, np))
                } else if r.len() == 2 {
                    ask(FsOp::Rename, f, np)
                } else if !done(r[2]) {
                    fail((ErrorKind::RenameFolderFailed, f, np))
                } else {
                    succeed(np)
                }
            }
        },
    }
}

/// `delete_folder`: remove a folder with all it holds.
pub open spec fn delete_folder_plan(path: Seq<char>, r: Seq<ReplyView>) -> StepView<()> {
    match normalize_spec(path) {
        Err(e) => fail(e),
        Ok(p) => if r.len() == 0 {
            probe(FsOp::IsDir, p)
        } else if !yes(r[0]) {
            fail(about(ErrorKind::FolderNotFound, p))
        } else if r.len() == 1 {
            probe(FsOp::RemoveDirAll, p)
        } else if !done(r[1]) {
            fail(about(ErrorKind::DeleteFolderFailed, p))
        } else {
            succeed(())
        },
    }
}

/// A finished step of a write, turned into a step that gives `id`.
pub open spec fn giving_id(s: StepView<()>, id: Seq<char>) -> StepView<Seq<char>> {
    match s {
        StepView::Ask(q) => StepView::Ask(q),
        StepView::Finish(Ok(())) => succeed(id),
        StepView::Finish(Err(e)) => fail(e),
    }
}

/// `create_note`: the id made from the title (in `folder`), refused when a
/// note with it exists (as `exists` sees it), then the note written with
/// `content`; the result is the new id.
pub open spec fn create_note_plan(
    folder: Option<Seq<char>>,
    title: Seq<char>,
    content: Seq<char>,
    r: Seq<ReplyView>,
) -> StepView<Seq<char>> {
    match note_id_from_title_spec(folder, title) {
        Err(e) => fail(e),
        Ok(id) => match resolve_spec(id) {
            Err(_) => giving_id(write_plan(id, content, r), id),
            Ok(x) => if r.len() == 0 {
                probe(FsOp::Exists, note_path(x))
            } else if yes(r[0]) {
                fail(about(ErrorKind::NoteExists, id))
            } else {
                giving_id(write_plan(id, content, r.drop_first()), id)
            },
        },
    }
}

// ---------------------------------------------------------------------------
// Executable
// ---------------------------------------------------------------------------

fn opt_chars(o: Option<&str>) -> (res: Option<Vec<char>>)
    ensures
        match res {
            Some(v) => opt_view(o) == Some(v@),
            None => opt_view(o) is None,
        },
{
    match o {
        Some(s) => Some(chars_of(s)),
        None => None,
    }
}

/// The given destination unless missing or blank.
fn given_exec(o: Option<&str>) -> (res: Option<Vec<char>>)
    ensures
        match res {
            Some(v) => given(opt_view(o)) == Some(v@),
            None => given(opt_view(o)) is None,
        },
{
    match opt_chars(o) {
        Some(v) => if trim(&v).len() > 0 {
            Some(v)
        } else {
            None
        },
        None => None,
    }
}

fn moved_note_id_exec(from_id: &Vec<char>, dest: Option<&str>) -> (res: Result<Vec<char>, StoreError>)
    ensures
        crate::error::rview(res) == moved_note_id(from_id@, opt_view(dest)),
{
    let file = last_segment_exec(from_id, '/');
    match given_exec(dest) {
        Some(f) => match normalize_folder_path(&f) {
            Ok(nf) => resolve_id(&child_path_exec(&nf, &file)),
            Err(e) => Err(e),
        },
        None => resolve_id(&file),
    }
}

fn move_file_exec(from_id: &Vec<char>, new_id: &Vec<char>, replies: &Vec<FsReply>, k: usize) -> (res: Step<
    String,
>)
    requires
        k <= replies.len(),
    ensures
        res@ == move_file_plan(from_id@, new_id@, replies_view(replies@).skip(k as int)),
{
    let ghost r = replies_view(replies@).skip(k as int);
    if k == replies.len() {
        return probe_step(FsOp::CreateDirAll, &parent_exec(&note_path_exec(new_id)));
    }
    assert(r[0] == replies@[k as int]@);
    if !is_done(&replies[k]) {
        return fail_step(StoreError::about(ErrorKind::CreateParentFailed, new_id));
    }
    if k + 1 == replies.len() {
        return Step::Ask(request(FsOp::Rename, &note_path_exec(from_id), &note_path_exec(new_id)));
    }
    assert(r[1] == replies@[k + 1]@);
    if !is_done(&replies[k + 1]) {
        return fail_step(StoreError::between(ErrorKind::MoveNoteFailed, from_id, new_id));
    }
    Step::Finish(Ok(crate::text::string_of(new_id)))
}

fn move_target_exec(from_id: &Vec<char>, new_id: &Vec<char>, replies: &Vec<FsReply>, k: usize) -> (res: Step<
    String,
>)
    requires
        k <= replies.len(),
    ensures
        res@ == move_target_plan(from_id@, new_id@, replies_view(replies@).skip(k as int)),
{
    let ghost r = replies_view(replies@).skip(k as int);
    if k == replies.len() {
        return probe_step(FsOp::Exists, &note_path_exec(new_id));
    }
    assert(r[0] == replies@[k as int]@);
    if is_yes(&replies[k]) {
        return fail_step(StoreError::about(ErrorKind::NoteExists, new_id));
    }
    assert(r.drop_first() =~= replies_view(replies@).skip(k + 1));
    move_file_exec(from_id, new_id, replies, k + 1)
}

fn moved_folder_path_exec(from: &Vec<char>, dest: Option<&str>) -> (res: Result<Vec<char>, StoreError>)
    ensures
        crate::error::rview(res) == moved_folder_path(from@, opt_view(dest)),
{
    let name = last_segment_exec(from, '/');
    match given_exec(dest) {
        Some(p) => match normalize_folder_path(&p) {
            Err(e) => Err(e),
            Ok(np) => {
                let mut prefix = from.clone();
                prefix.push('/');
                if same(&np, from) || starts_with(&np, &prefix) {
                    Err(StoreError::bare(ErrorKind::MoveIntoItself))
                } else {
                    Ok(child_path_exec(&np, &name))
                }
            },
        },
        None => Ok(name),
    }
}

fn renamed_id_exec(from_id: &Vec<char>, file: &Vec<char>) -> (res: Vec<char>)
    ensures
        res@ == renamed_id(from_id@, file@),
{
    match rsplit_once(from_id, '/') {
        Some((parent, _)) => child_path_exec(&parent, file),
        None => file.clone(),
    }
}

fn rename_write_exec(
    from_id: &Vec<char>,
    new_id: &Vec<char>,
    text: &Vec<char>,
    replies: &Vec<FsReply>,
    k: usize,
) -> (res: Step<String>)
    requires
        k <= replies.len(),
    ensures
        res@ == rename_write_plan(from_id@, new_id@, text@, replies_view(replies@).skip(k as int)),
{
    let ghost r = replies_view(replies@).skip(k as int);
    if k == replies.len() {
        return probe_step(FsOp::CreateDirAll, &parent_exec(&note_path_exec(new_id)));
    }
    assert(r[0] == replies@[k as int]@);
    if !is_done(&replies[k]) {
        return fail_step(StoreError::about(ErrorKind::CreateParentFailed, new_id));
    }
    if k + 1 == replies.len() {
        return Step::Ask(request(FsOp::WriteText, &note_path_exec(new_id), text));
    }
    assert(r[1] == replies@[k + 1]@);
    if !is_done(&replies[k + 1]) {
        return fail_step(StoreError::about(ErrorKind::WriteFailed, new_id));
    }
    if k + 2 == replies.len() {
        return probe_step(FsOp::RemoveFile, &note_path_exec(from_id));
    }
    assert(r[2] == replies@[k + 2]@);
    if !is_done(&replies[k + 2]) {
        return fail_step(StoreError::about(ErrorKind::RemoveFailed, from_id));
    }
    Step::Finish(Ok(crate::text::string_of(new_id)))
}

fn rename_target_exec(
    from_id: &Vec<char>,
    new_id: &Vec<char>,
    text: &Vec<char>,
    replies: &Vec<FsReply>,
    k: usize,
) -> (res: Step<String>)
    requires
        k <= replies.len(),
    ensures
        res@ == rename_target_plan(from_id@, new_id@, text@, replies_view(replies@).skip(k as int)),
{
    let ghost r = replies_view(replies@).skip(k as int);
    match resolve_id(new_id) {
        Err(_) => rename_write_exec(from_id, new_id, text, replies, k),
        Ok(x) => {
            if k == replies.len() {
                return probe_step(FsOp::Exists, &note_path_exec(&x));
            }
            assert(r[0] == replies@[k as int]@);
            if is_yes(&replies[k]) {
                return fail_step(StoreError::about(ErrorKind::NoteExists, new_id));
            }
            assert(r.drop_first() =~= replies_view(replies@).skip(k + 1));
            rename_write_exec(from_id, new_id, text, replies, k + 1)
        },
    }
}

/// The write plan from the `k`-th answer on, for an id already resolved.
fn write_from(id: &Vec<char>, x: &Vec<char>, content: &Vec<char>, replies: &Vec<FsReply>, k: usize) -> (res:
    Step<String>)
    requires
        k <= replies.len(),
        resolve_spec(id@) == Ok::<Seq<char>, crate::error::ErrorView>(x@),
    ensures
        res@ == giving_id(
            write_plan(id@, content@, replies_view(replies@).skip(k as int)),
            id@,
        ),
{
    let ghost r = replies_view(replies@).skip(k as int);
    let path = note_path_exec(x);
    if k == replies.len() {
        return probe_step(FsOp::CreateDirAll, &parent_exec(&path));
    }
    assert(r[0] == replies@[k as int]@);
    if !is_done(&replies[k]) {
        return fail_step(StoreError::about(ErrorKind::CreateParentFailed, x));
    }
    if k + 1 == replies.len() {
        return Step::Ask(request(FsOp::WriteText, &path, content));
    }
    assert(r[1] == replies@[k + 1]@);
    if !is_done(&replies[k + 1]) {
        return fail_step(StoreError::about(ErrorKind::WriteFailed, x));
    }
    Step::Finish(Ok(crate::text::string_of(id)))
}

impl Store {
    /// Create a note from a title (in `folder`, or the vault root when it
    /// is missing or blank): refused when the note exists, else written
    /// with `content`. Returns the new id.
    pub fn create_note(
        &self,
        folder: Option<&str>,
        title: &str,
        content: &str,
        replies: &Vec<FsReply>,
    ) -> (res: Step<String>)
        ensures
            res@ == create_note_plan(opt_view(folder), title@, content@, replies_view(replies@)),
    {
        let f = opt_chars(folder);
        let made = match &f {
            Some(v) => note_id_from_title_chars(Some(v), &chars_of(title)),
            None => note_id_from_title_chars(None, &chars_of(title)),
        };
        let id = match made {
            Ok(id) => id,
            Err(e) => {
                return fail_step(e);
            },
        };
        let c = chars_of(content);
        match resolve_id(&id) {
            Err(e) => {
                proof {
                    assert(write_plan(id@, c@, replies_view(replies@)) == fail::<()>(e@));
                }
                fail_step(e)
            },
            Ok(x) => {
                if replies.len() == 0 {
                    return probe_step(FsOp::Exists, &note_path_exec(&x));
                }
                assert(replies_view(replies@)[0] == replies@[0]@);
                if is_yes(&replies[0]) {
                    return fail_step(StoreError::about(ErrorKind::NoteExists, &id));
                }
                assert(replies_view(replies@).drop_first() =~= replies_view(replies@).skip(1));
                write_from(&id, &x, &c, replies, 1)
            },
        }
    }

    /// A vault rooted at `root`.
    pub fn with_root(root: String) -> (res: Store)
        ensures
            res.root@ == root@,
    {
        Store { root }
    }

    /// Create a folder (and its missing ancestors); creating one that exists
    /// succeeds.
    pub fn create_folder(&self, path: &str, replies: &Vec<FsReply>) -> (res: Step<()>)
        ensures
            res@ == create_folder_plan(path@, replies_view(replies@)),
    {
        let p = match normalize_folder_path(&chars_of(path)) {
            Ok(p) => p,
            Err(e) => {
                return fail_step(e);
            },
        };
        if replies.len() == 0 {
            return probe_step(FsOp::CreateDirAll, &p);
        }
        assert(replies_view(replies@)[0] == replies@[0]@);
        if is_done(&replies[0]) {
            Step::Finish(Ok(()))
        } else {
            fail_step(StoreError::about(ErrorKind::CreateFolderFailed, &p))
        }
    }

    /// The text of a note.
    pub fn read(&self, name: &str, replies: &Vec<FsReply>) -> (res: Step<String>)
        ensures
            res@ == read_plan(name@, replies_view(replies@)),
    {
        let id = match resolve_id(&chars_of(name)) {
            Ok(id) => id,
            Err(e) => {
                return fail_step(e);
            },
        };
        if replies.len() == 0 {
            return probe_step(FsOp::ReadText, &note_path_exec(&id));
        }
        assert(replies_view(replies@)[0] == replies@[0]@);
        match &replies[0] {
            FsReply::Text(s) => Step::Finish(Ok(s.clone())),
            _ => fail_step(StoreError::about(ErrorKind::NoteNotFound, &id)),
        }
    }

    /// Write the whole text of a note, creating its folder when missing.
    pub fn write(&self, name: &str, content: &str, replies: &Vec<FsReply>) -> (res: Step<()>)
        ensures
            res@ == write_plan(name@, content@, replies_view(replies@)),
    {
        let id = match resolve_id(&chars_of(name)) {
            Ok(id) => id,
            Err(e) => {
                return fail_step(e);
            },
        };
        let path = note_path_exec(&id);
        if replies.len() == 0 {
            return probe_step(FsOp::CreateDirAll, &parent_exec(&path));
        }
        assert(replies_view(replies@)[0] == replies@[0]@);
        if !is_done(&replies[0]) {
            return fail_step(StoreError::about(ErrorKind::CreateParentFailed, &id));
        }
        if replies.len() == 1 {
            return Step::Ask(request(FsOp::WriteText, &path, &chars_of(content)));
        }
        assert(replies_view(replies@)[1] == replies@[1]@);
        if !is_done(&replies[1]) {
            return fail_step(StoreError::about(ErrorKind::WriteFailed, &id));
        }
        Step::Finish(Ok(()))
    }

    /// Remove a note.
    pub fn delete(&self, name: &str, replies: &Vec<FsReply>) -> (res: Step<()>)
        ensures
            res@ == delete_plan(name@, replies_view(replies@)),
    {
        let id = match resolve_id(&chars_of(name)) {
            Ok(id) => id,
            Err(e) => {
                return fail_step(e);
            },
        };
        if replies.len() == 0 {
            return probe_step(FsOp::RemoveFile, &note_path_exec(&id));
        }
        assert(replies_view(replies@)[0] == replies@[0]@);
        if is_done(&replies[0]) {
            Step::Finish(Ok(()))
        } else {
            fail_step(StoreError::about(ErrorKind::NoteNotFound, &id))
        }
    }

    /// Whether a note exists (false for a name that is not a valid id).
    pub fn note_exists(&self, name: &str, replies: &Vec<FsReply>) -> (res: Step<bool>)
        ensures
            res@ == exists_plan(name@, replies_view(replies@)),
    {
        let id = match resolve_id(&chars_of(name)) {
            Ok(id) => id,
            Err(_) => {
                return Step::Finish(Ok(false));
            },
        };
        if replies.len() == 0 {
            return probe_step(FsOp::Exists, &note_path_exec(&id));
        }
        assert(replies_view(replies@)[0] == replies@[0]@);
        Step::Finish(Ok(is_yes(&replies[0])))
    }

    /// Move a note into `dest_folder` (or vault root when `None`/empty).
    /// Returns the new note id.
    pub fn move_note(&self, from: &str, dest_folder: Option<&str>, replies: &Vec<FsReply>) -> (res: Step<
        String,
    >)
        ensures
            res@ == move_note_plan(from@, opt_view(dest_folder), replies_view(replies@)),
    {
        let from_id = match resolve_id(&chars_of(from)) {
            Ok(id) => id,
            Err(e) => {
                return fail_step(e);
            },
        };
        if replies.len() == 0 {
            return probe_step(FsOp::IsFile, &note_path_exec(&from_id));
        }
        assert(replies_view(replies@)[0] == replies@[0]@);
        if !is_yes(&replies[0]) {
            return fail_step(StoreError::about(ErrorKind::NoteNotFound, &from_id));
        }
        match moved_note_id_exec(&from_id, dest_folder) {
            Err(e) => fail_step(e),
            Ok(new_id) => {
                if same(&from_id, &new_id) {
                    Step::Finish(Ok(crate::text::string_of(&new_id)))
                } else {
                    assert(replies_view(replies@).drop_first() =~= replies_view(replies@).skip(1));
                    move_target_exec(&from_id, &new_id, replies, 1)
                }
            },
        }
    }

    /// Move a folder into `dest_parent` (or vault root when `None`/empty).
    /// Returns the new folder path.
    pub fn move_folder(&self, from: &str, dest_parent: Option<&str>, replies: &Vec<FsReply>) -> (res: Step<
        String,
    >)
        ensures
            res@ == move_folder_plan(from@, opt_view(dest_parent), replies_view(replies@)),
    {
        let f = match normalize_folder_path(&chars_of(from)) {
            Ok(f) => f,
            Err(e) => {
                return fail_step(e);
            },
        };
        let ghost r = replies_view(replies@);
        if replies.len() == 0 {
            return probe_step(FsOp::IsDir, &f);
        }
        assert(r[0] == replies@[0]@);
        if !is_yes(&replies[0]) {
            return fail_step(StoreError::about(ErrorKind::FolderNotFound, &f));
        }
        let np = match moved_folder_path_exec(&f, dest_parent) {
            Err(e) => {
                return fail_step(e);
            },
            Ok(np) => np,
        };
        if same(&f, &np) {
            return Step::Finish(Ok(crate::text::string_of(&np)));
        }
        if replies.len() == 1 {
            return probe_step(FsOp::Exists, &np);
        }
        assert(r[1] == replies@[1]@);
        if is_yes(&replies[1]) {
            return fail_step(StoreError::about(ErrorKind::FolderExists, &np));
        }
        if replies.len() == 2 {
            return probe_step(FsOp::CreateDirAll, &parent_exec(&np));
        }
        assert(r[2] == replies@[2]@);
        if !is_done(&replies[2]) {
            return fail_step(StoreError::about(ErrorKind::CreateParentFailed, &np));
        }
        if replies.len() == 3 {
            return Step::Ask(request(FsOp::Rename, &f, &np));
        }
        assert(r[3] == replies@[3]@);
        if !is_done(&replies[3]) {
            return fail_step(StoreError::between(ErrorKind::MoveFolderFailed, &f, &np));
        }
        Step::Finish(Ok(crate::text::string_of(&np)))
    }

    /// Rename a note (updates file id from title and `#` heading in content).
    pub fn rename_note(&self, from: &str, new_title: &str, replies: &Vec<FsReply>) -> (res: Step<String>)
        ensures
            res@ == rename_note_plan(from@, new_title@, replies_view(replies@)),
    {
        let from_id = match resolve_id(&chars_of(from)) {
            Ok(id) => id,
            Err(e) => {
                return fail_step(e);
            },
        };
        let t = trim(&chars_of(new_title));
        if t.len() == 0 {
            return fail_step(StoreError::bare(ErrorKind::EmptyTitle));
        }
        let new_file = slug_chars(&t);
        match bail_if_empty_slug(&new_file, &t) {
            Ok(()) => {},
            Err(e) => {
                return fail_step(e);
            },
        }
        let new_id = renamed_id_exec(&from_id, &new_file);
        let ghost r = replies_view(replies@);
        if replies.len() == 0 {
            return probe_step(FsOp::IsFile, &note_path_exec(&from_id));
        }
        assert(r[0] == replies@[0]@);
        if !is_yes(&replies[0]) {
            return fail_step(StoreError::about(ErrorKind::NoteNotFound, &from_id));
        }
        if replies.len() == 1 {
            return probe_step(FsOp::ReadText, &note_path_exec(&from_id));
        }
        assert(r[1] == replies@[1]@);
        match &replies[1] {
            FsReply::Text(c) => {
                let text = set_content_title(&chars_of(c.as_str()), &t);
                if same(&from_id, &new_id) {
                    if replies.len() == 2 {
                        return Step::Ask(request(FsOp::WriteText, &note_path_exec(&from_id), &text));
                    }
                    assert(r[2] == replies@[2]@);
                    if !is_done(&replies[2]) {
                        return fail_step(StoreError::about(ErrorKind::WriteFailed, &from_id));
                    }
                    Step::Finish(Ok(crate::text::string_of(&new_id)))
                } else {
                    rename_target_exec(&from_id, &new_id, &text, replies, 2)
                }
            },
            _ => fail_step(StoreError::about(ErrorKind::ReadFailed, &from_id)),
        }
    }

    /// Rename a folder in place (same parent, new name). Returns the new path.
    pub fn rename_folder(&self, from: &str, new_name: &str, replies: &Vec<FsReply>) -> (res: Step<String>)
        ensures
            res@ == rename_folder_plan(from@, new_name@, replies_view(replies@)),
    {
        let f = match normalize_folder_path(&chars_of(from)) {
            Ok(f) => f,
            Err(e) => {
                return fail_step(e);
            },
        };
        let n = trim(&chars_of(new_name));
        if n.len() == 0 {
            return fail_step(StoreError::bare(ErrorKind::EmptyFolderName));
        }
        match validate_path_components(&n) {
            Ok(()) => {},
            Err(e) => {
                return fail_step(e);
            },
        }
        let np = match rsplit_once(&f, '/') {
            Some((parent, _)) => child_path_exec(&parent, &n),
            None => n.clone(),
        };
        if same(&f, &np) {
            return Step::Finish(Ok(crate::text::string_of(&np)));
        }
        let ghost r = replies_view(replies@);
        if replies.len() == 0 {
            return probe_step(FsOp::IsDir, &f);
        }
        assert(r[0] == replies@[0]@);
        if !is_yes(&replies[0]) {
            return fail_step(StoreError::about(ErrorKind::FolderNotFound, &f));
        }
        if replies.len() == 1 {
            return probe_step(FsOp::Exists, &np);
        }
        assert(r[1] == replies@[1]@);
        if is_yes(&replies[1]) {
            return fail_step(StoreError::about(ErrorKind::FolderExists, &np));
        }
        if replies.len() == 2 {
            return Step::Ask(request(FsOp::Rename, &f, &np));
        }
        assert(r[2] == replies@[2]@);
        if !is_done(&replies[2]) {
            return fail_step(StoreError::between(ErrorKind::RenameFolderFailed, &f, &np));
        }
        Step::Finish(Ok(crate::text::string_of(&np)))
    }

    /// Delete a folder and all contents recursively.
    pub fn delete_folder(&self, path: &str, replies: &Vec<FsReply>) -> (res: Step<()>)
        ensures
            res@ == delete_folder_plan(path@, replies_view(replies@)),
    {
        let p = match normalize_folder_path(&chars_of(path)) {
            Ok(p) => p,
            Err(e) => {
                return fail_step(e);
            },
        };
        let ghost r = replies_view(replies@);
        if replies.len() == 0 {
            return probe_step(FsOp::IsDir, &p);
        }
        assert(r[0] == replies@[0]@);
        if !is_yes(&replies[0]) {
            return fail_step(StoreError::about(ErrorKind::FolderNotFound, &p));
        }
        if replies.len() == 1 {
            return probe_step(FsOp::RemoveDirAll, &p);
        }
        assert(r[1] == replies@[1]@);
        if !is_done(&replies[1]) {
            return fail_step(StoreError::about(ErrorKind::DeleteFolderFailed, &p));
        }
        Step::Finish(Ok(()))
    }
}

} // verus!
