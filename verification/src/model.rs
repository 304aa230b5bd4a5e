//! A mathematical file system, and the laws the vault operations obey when
//! their requests are answered by it: what a read gives back of a write,
//! what `exists` says, which files a write or a delete touches, where a
//! moved or renamed note's text goes, when moves and renames are refused
//! with the vault left as it was, and what a note's graph holds.

use vstd::prelude::*;
use crate::text::{is_prefix, trim_spec};
use crate::error::{ErrorKind, ErrorView, about, bare};
use crate::slug::{resolve_spec, normalize_spec, slug_of, components_valid};
use crate::content::set_content_title_spec;
use crate::note::NoteView;
use crate::tags::wikilinks_spec;
use crate::graph::{
    GraphView, LinkView, graph_plan, candidates, outgoing_spec, backlinks_spec, title_of, links_to,
};
use crate::fsplan::{FsOp, ReplyView, StepView, RequestView, note_path, parent_of, md_ext};
use crate::store::{
    read_plan, write_plan, delete_plan, exists_plan, create_folder_plan, move_note_plan,
    move_folder_plan, rename_note_plan, delete_folder_plan, moved_folder_path, given, renamed_id,
    rename_folder_plan, renamed_folder_path,
};

verus! {

/// The vault's directory tree: the text of each file and the set of
/// directories, by path relative to the root (the root itself is the empty
/// path).
pub struct Vault {
    pub files: Map<Seq<char>, Seq<char>>,
    pub dirs: Set<Seq<char>>,
}

/// Whether `p` is a directory (the root always is).
pub open spec fn is_dir(m: Vault, p: Seq<char>) -> bool {
    p.len() == 0 || m.dirs.contains(p)
}

/// Whether `p` is a file.
pub open spec fn is_file(m: Vault, p: Seq<char>) -> bool {
    m.files.dom().contains(p)
}

/// `q` is `p` or one of its ancestors (the root excluded).
pub open spec fn on_path(q: Seq<char>, p: Seq<char>) -> bool {
    q.len() > 0 && (q == p || is_prefix(q.push('/'), p))
}

/// `q` lies strictly inside the directory `p`.
pub open spec fn inside(q: Seq<char>, p: Seq<char>) -> bool {
    is_prefix(p.push('/'), q)
}

/// A consistent tree: nothing is both a file and a directory.
pub open spec fn wf(m: Vault) -> bool {
    forall|p: Seq<char>| #[trigger] is_file(m, p) ==> !is_dir(m, p)
}

/// What the file system answers to a request, and its state afterwards.
pub open spec fn answer(m: Vault, q: RequestView) -> (ReplyView, Vault) {
    let p = q.1;
    let arg = q.2;
    match q.0 {
        FsOp::IsFile => (ReplyView::Flag(is_file(m, p)), m),
        FsOp::IsDir => (ReplyView::Flag(is_dir(m, p)), m),
        FsOp::Exists => (ReplyView::Flag(is_file(m, p) || is_dir(m, p)), m),
        FsOp::ReadText => if is_file(m, p) {
            (ReplyView::Text(m.files[p]), m)
        } else {
            (ReplyView::Failed, m)
        },
        FsOp::CreateDirAll => if exists|x: Seq<char>| on_path(x, p) && #[trigger] is_file(m, x) {
            (ReplyView::Failed, m)
        } else {
            (ReplyView::Done, Vault { files: m.files, dirs: m.dirs.union(Set::new(|x: Seq<char>| on_path(x, p))) })
        },
        FsOp::WriteText => if is_dir(m, p) || !is_dir(m, parent_of(p)) {
            (ReplyView::Failed, m)
        } else {
            (ReplyView::Done, Vault { files: m.files.insert(p, arg), dirs: m.dirs })
        },
        FsOp::Rename => if is_file(m, p) {
            if is_dir(m, arg) || !is_dir(m, parent_of(arg)) {
                (ReplyView::Failed, m)
            } else {
                (ReplyView::Done, Vault { files: m.files.remove(p).insert(arg, m.files[p]), dirs: m.dirs })
            }
        } else if p.len() > 0 && is_dir(m, p) && !is_file(m, arg) && !is_dir(m, arg)
            && is_dir(m, parent_of(arg)) && !inside(arg, p) {
            (
                ReplyView::Done,
                Vault {
                    files: Map::new(
                        |x: Seq<char>|
                            (is_file(m, x) && !inside(x, p)) || (inside(x, arg) && is_file(
                                m,
                                p + x.skip(arg.len() as int),
                            )),
                        |x: Seq<char>|
                            if inside(x, arg) {
                                m.files[p + x.skip(arg.len() as int)]
                            } else {
                                m.files[x]
                            },
                    ),
                    dirs: Set::new(
                        |x: Seq<char>|
                            (m.dirs.contains(x) && x != p && !inside(x, p)) || x == arg || (inside(
                                x,
                                arg,
                            ) && m.dirs.contains(p + x.skip(arg.len() as int))),
                    ),
                },
            )
        } else {
            (ReplyView::Failed, m)
        },
        FsOp::RemoveFile => if is_file(m, p) {
            (ReplyView::Done, Vault { files: m.files.remove(p), dirs: m.dirs })
        } else {
            (ReplyView::Failed, m)
        },
        FsOp::RemoveDirAll => if p.len() > 0 && is_dir(m, p) {
            (
                ReplyView::Done,
                Vault {
                    files: m.files.restrict(m.files.dom().filter(|x: Seq<char>| !inside(x, p))),
                    dirs: m.dirs.filter(|x: Seq<char>| x != p && !inside(x, p)),
                },
            )
        } else {
            (ReplyView::Failed, m)
        },
    }
}

/// Carries out an operation on the file system `m`: its requests are
/// answered one after another (at most `fuel` of them) until it finishes.
pub open spec fn run<V>(
    plan: spec_fn(Seq<ReplyView>) -> StepView<V>,
    m: Vault,
    r: Seq<ReplyView>,
    fuel: nat,
) -> (Option<Result<V, ErrorView>>, Vault)
    decreases fuel,
{
    match plan(r) {
        StepView::Finish(res) => (Some(res), m),
        StepView::Ask(q) => if fuel == 0 {
            (None, m)
        } else {
            run(plan, answer(m, q).1, r.push(answer(m, q).0), (fuel - 1) as nat)
        },
    }
}

/// `write` carried out on `m`.
pub open spec fn do_write(m: Vault, name: Seq<char>, content: Seq<char>) -> (Option<Result<(), ErrorView>>, Vault) {
    run(|r: Seq<ReplyView>| write_plan(name, content, r), m, seq![], 2)
}

/// `read` carried out on `m`.
pub open spec fn do_read(m: Vault, name: Seq<char>) -> Option<Result<Seq<char>, ErrorView>> {
    run(|r: Seq<ReplyView>| read_plan(name, r), m, seq![], 1).0
}

/// `exists` carried out on `m`.
pub open spec fn do_exists(m: Vault, name: Seq<char>) -> Option<Result<bool, ErrorView>> {
    run(|r: Seq<ReplyView>| exists_plan(name, r), m, seq![], 1).0
}

/// `delete` carried out on `m`.
pub open spec fn do_delete(m: Vault, name: Seq<char>) -> (Option<Result<(), ErrorView>>, Vault) {
    run(|r: Seq<ReplyView>| delete_plan(name, r), m, seq![], 1)
}

/// A read after a successful write gives back what was written.
pub proof fn law_read_after_write(m: Vault, name: Seq<char>, content: Seq<char>)
    ensures
        do_write(m, name, content).0 == Some(Ok::<(), ErrorView>(()))
            ==> do_read(do_write(m, name, content).1, name) == Some(Ok::<Seq<char>, ErrorView>(content)),
{
    reveal_with_fuel(run, 3);
}

/// After a successful write, the note exists.
pub proof fn law_exists_after_write(m: Vault, name: Seq<char>, content: Seq<char>)
    ensures
        do_write(m, name, content).0 == Some(Ok::<(), ErrorView>(()))
            ==> do_exists(do_write(m, name, content).1, name) == Some(Ok::<bool, ErrorView>(true)),
{
    reveal_with_fuel(run, 3);
}

/// A write succeeds for a valid id whose folders can be created and whose
/// file is not a directory, and fails with the resolution error for an
/// invalid one.
pub proof fn law_write_outcome(m: Vault, name: Seq<char>, content: Seq<char>)
    ensures
        resolve_spec(name) is Err ==> do_write(m, name, content).0 == Some(
            Err::<(), ErrorView>(resolve_spec(name)->Err_0),
        ),
        resolve_spec(name) is Ok ==> {
            let p = note_path(resolve_spec(name)->Ok_0);
            (!(exists|x: Seq<char>| on_path(x, parent_of(p)) && #[trigger] is_file(m, x))
                && !m.dirs.contains(p)) ==> do_write(m, name, content).0 == Some(Ok::<(), ErrorView>(()))
        },
{
    reveal_with_fuel(run, 3);
    if resolve_spec(name) is Ok {
        let id = resolve_spec(name)->Ok_0;
        let p = note_path(id);
        assert(p.len() > 0);
        let pp = parent_of(p);
        if !(exists|x: Seq<char>| on_path(x, pp) && #[trigger] is_file(m, x)) && !m.dirs.contains(p) {
            let m2 = answer(m, (FsOp::CreateDirAll, pp, Seq::<char>::empty())).1;
            assert(is_dir(m2, pp)) by {
                if pp.len() > 0 {
                    assert(on_path(pp, pp));
                }
            }
            assert(!is_dir(m2, p)) by {
                if m2.dirs.contains(p) {
                    assert(on_path(p, pp));
                    lemma_parent_shorter(p);
                }
            }
        }
    }
}

/// The directory part of a path is shorter than the path.
pub proof fn lemma_parent_shorter(p: Seq<char>)
    ensures
        parent_of(p).len() < p.len() || p.len() == 0,
{
    crate::text::lemma_split_len(p, '/');
    crate::text::lemma_join_split(p, '/');
    lemma_join_len(crate::text::split_spec(p, '/'), '/');
}

proof fn lemma_join_len(ps: Seq<Seq<char>>, d: char)
    requires
        ps.len() >= 1,
    ensures
        ps.len() >= 2 ==> crate::text::join_spec(ps.drop_last(), d).len() < crate::text::join_spec(ps, d).len(),
    decreases ps.len(),
{
}


/// `create_folder` carried out on `m`.
pub open spec fn do_create_folder(m: Vault, path: Seq<char>) -> (Option<Result<(), ErrorView>>, Vault) {
    run(|r: Seq<ReplyView>| create_folder_plan(path, r), m, seq![], 1)
}

/// `move_note` carried out on `m`.
pub open spec fn do_move_note(m: Vault, from: Seq<char>, dest: Option<Seq<char>>) -> (
    Option<Result<Seq<char>, ErrorView>>,
    Vault,
) {
    run(|r: Seq<ReplyView>| move_note_plan(from, dest, r), m, seq![], 4)
}

/// `move_folder` carried out on `m`.
pub open spec fn do_move_folder(m: Vault, from: Seq<char>, dest: Option<Seq<char>>) -> (
    Option<Result<Seq<char>, ErrorView>>,
    Vault,
) {
    run(|r: Seq<ReplyView>| move_folder_plan(from, dest, r), m, seq![], 4)
}

/// `rename_note` carried out on `m`.
pub open spec fn do_rename_note(m: Vault, from: Seq<char>, title: Seq<char>) -> (
    Option<Result<Seq<char>, ErrorView>>,
    Vault,
) {
    run(|r: Seq<ReplyView>| rename_note_plan(from, title, r), m, seq![], 6)
}

/// `rename_folder` carried out on `m`.
pub open spec fn do_rename_folder(m: Vault, from: Seq<char>, new_name: Seq<char>) -> (
    Option<Result<Seq<char>, ErrorView>>,
    Vault,
) {
    run(|r: Seq<ReplyView>| rename_folder_plan(from, new_name, r), m, seq![], 3)
}

/// `delete_folder` carried out on `m`.
pub open spec fn do_delete_folder(m: Vault, path: Seq<char>) -> (Option<Result<(), ErrorView>>, Vault) {
    run(|r: Seq<ReplyView>| delete_folder_plan(path, r), m, seq![], 2)
}

/// Different ids have different files.
proof fn lemma_note_path_injective(a: Seq<char>, b: Seq<char>)
    ensures
        a != b ==> note_path(a) != note_path(b),
{
    if a != b && note_path(a) == note_path(b) {
        assert(note_path(a).len() == note_path(b).len());
        assert(a =~= note_path(a).subrange(0, a.len() as int));
        assert(b =~= note_path(b).subrange(0, b.len() as int));
    }
}

/// After a successful delete, the note no longer exists.
pub proof fn law_gone_after_delete(m: Vault, name: Seq<char>)
    requires
        wf(m),
    ensures
        do_delete(m, name).0 == Some(Ok::<(), ErrorView>(()))
            ==> do_exists(do_delete(m, name).1, name) == Some(Ok::<bool, ErrorView>(false)),
{
    reveal_with_fuel(run, 2);
    if resolve_spec(name) is Ok {
        let p = note_path(resolve_spec(name)->Ok_0);
        assert(is_file(m, p) ==> !is_dir(m, p));
    }
}

/// Reading a note that has no file fails with "not found".
pub proof fn law_read_missing(m: Vault, name: Seq<char>)
    ensures
        resolve_spec(name) is Ok && !is_file(m, note_path(resolve_spec(name)->Ok_0)) ==> do_read(m, name)
            == Some(Err::<Seq<char>, ErrorView>(about(ErrorKind::NoteNotFound, resolve_spec(name)->Ok_0))),
{
    reveal_with_fuel(run, 2);
}

/// Creating a folder makes it a directory, and creating it again succeeds.
pub proof fn law_create_folder_idempotent(m: Vault, path: Seq<char>)
    ensures
        do_create_folder(m, path).0 == Some(Ok::<(), ErrorView>(())) ==> {
            &&& is_dir(do_create_folder(m, path).1, normalize_spec(path)->Ok_0)
            &&& do_create_folder(do_create_folder(m, path).1, path).0 == Some(Ok::<(), ErrorView>(()))
        },
{
    reveal_with_fuel(run, 2);
    if normalize_spec(path) is Ok {
        let p = normalize_spec(path)->Ok_0;
        assert(on_path(p, p));
        if !(exists|x: Seq<char>| on_path(x, p) && #[trigger] is_file(m, x)) {
            let m1 = answer(m, (FsOp::CreateDirAll, p, Seq::<char>::empty())).1;
            assert(m1.files == m.files);
            assert(is_dir(m1, p));
            assert forall|x: Seq<char>| on_path(x, p) implies !#[trigger] is_file(m1, x) by {
                assert(!is_file(m, x));
            }
        }
    }
}

/// A moved note keeps its text under its new id, and its old file is gone.
pub proof fn law_move_note_keeps_text(m: Vault, from: Seq<char>, dest: Option<Seq<char>>)
    ensures
        ({
            let (res, m2) = do_move_note(m, from, dest);
            res matches Some(Ok(new_id)) ==> {
                let old_id = resolve_spec(from)->Ok_0;
                &&& is_file(m2, note_path(new_id))
                &&& m2.files[note_path(new_id)] == m.files[note_path(old_id)]
                &&& (old_id != new_id ==> !is_file(m2, note_path(old_id)))
            }
        }),
{
    reveal_with_fuel(run, 5);
    if resolve_spec(from) is Ok {
        let old_id = resolve_spec(from)->Ok_0;
        match crate::store::moved_note_id(old_id, dest) {
            Ok(new_id) => {
                lemma_note_path_injective(old_id, new_id);
            },
            Err(_) => {},
        }
    }
}

/// Moving a folder into itself or one of its subfolders is refused.
pub proof fn law_move_folder_into_itself(m: Vault, from: Seq<char>, dest: Seq<char>)
    ensures
        ({
            let f = normalize_spec(from)->Ok_0;
            let d = normalize_spec(dest)->Ok_0;
            (normalize_spec(from) is Ok && is_dir(m, f) && normalize_spec(dest) is Ok && (d == f
                || is_prefix(f.push('/'), d))) ==> do_move_folder(m, from, Some(dest)).0 == Some(
                Err::<Seq<char>, ErrorView>(bare(ErrorKind::MoveIntoItself)),
            )
        }),
{
    reveal_with_fuel(run, 2);
    if normalize_spec(dest) is Ok {
        assert(trim_spec(dest).len() == crate::slug::cleaned(dest).len());
    }
}

/// A renamed note carries its new title in its heading, under its new id,
/// and its old file is gone when the id changed.
pub proof fn law_rename_note_retitles(m: Vault, from: Seq<char>, title: Seq<char>)
    ensures
        ({
            let (res, m2) = do_rename_note(m, from, title);
            res matches Some(Ok(new_id)) ==> {
                let old_id = resolve_spec(from)->Ok_0;
                &&& new_id == renamed_id(old_id, slug_of(trim_spec(title)))
                &&& is_file(m2, note_path(new_id))
                &&& m2.files[note_path(new_id)] == set_content_title_spec(
                    m.files[note_path(old_id)],
                    trim_spec(title),
                )
                &&& (old_id != new_id ==> !is_file(m2, note_path(old_id)))
            }
        }),
{
    reveal_with_fuel(run, 7);
    if resolve_spec(from) is Ok {
        let old_id = resolve_spec(from)->Ok_0;
        let new_id = renamed_id(old_id, slug_of(trim_spec(title)));
        lemma_note_path_injective(old_id, new_id);
    }
}

/// A deleted folder is gone, with everything it held.
pub proof fn law_delete_folder_removes_contents(m: Vault, path: Seq<char>)
    ensures
        ({
            let (res, m2) = do_delete_folder(m, path);
            let p = normalize_spec(path)->Ok_0;
            res == Some(Ok::<(), ErrorView>(())) ==> !is_dir(m2, p) && forall|x: Seq<char>|
                inside(x, p) ==> !#[trigger] is_file(m2, x)
        }),
{
    reveal_with_fuel(run, 3);
}

/// Names that resolve to the same id name the same note: reading, writing,
/// deleting and probing behave alike for them (`"My Note"` and `my-note`).
pub proof fn law_same_id_same_note(a: Seq<char>, b: Seq<char>, content: Seq<char>, r: Seq<ReplyView>)
    requires
        resolve_spec(a) == resolve_spec(b),
    ensures
        read_plan(a, r) == read_plan(b, r),
        write_plan(a, content, r) == write_plan(b, content, r),
        delete_plan(a, r) == delete_plan(b, r),
        exists_plan(a, r) == exists_plan(b, r),
{
}

/// A moved folder takes what it holds along: every file under it is found,
/// with the same text, under the new path, and no longer under the old one.
pub proof fn law_move_folder_keeps_contents(m: Vault, from: Seq<char>, dest: Option<Seq<char>>)
    requires
        wf(m),
    ensures
        ({
            let (res, m2) = do_move_folder(m, from, dest);
            let f = normalize_spec(from)->Ok_0;
            res matches Some(Ok(np)) ==> (np != f ==> forall|x: Seq<char>|
                inside(x, f) && #[trigger] is_file(m, x) ==> {
                    let y = np + x.skip(f.len() as int);
                    &&& is_file(m2, y)
                    &&& m2.files[y] == m.files[x]
                    &&& (!inside(x, np) ==> !is_file(m2, x))
                })
        }),
{
    reveal_with_fuel(run, 5);
    let (res, m2) = do_move_folder(m, from, dest);
    if normalize_spec(from) is Ok {
        let f = normalize_spec(from)->Ok_0;
        assert(is_file(m, f) ==> !is_dir(m, f));
        if res is Some && res->Some_0 is Ok && res->Some_0->Ok_0 != f {
            let np = res->Some_0->Ok_0;
            assert forall|x: Seq<char>| inside(x, f) && #[trigger] is_file(m, x) implies {
                let y = np + x.skip(f.len() as int);
                &&& is_file(m2, y)
                &&& m2.files[y] == m.files[x]
                &&& (!inside(x, np) ==> !is_file(m2, x))
            } by {
                let y = np + x.skip(f.len() as int);
                assert(x.subrange(0, f.len() + 1 as int) == f.push('/'));
                assert(x[f.len() as int] == x.subrange(0, f.len() + 1 as int)[f.len() as int]);
                assert(y.subrange(0, np.len() + 1 as int) =~= np.push('/'));
                assert(y.skip(np.len() as int) =~= x.skip(f.len() as int));
                assert forall|k: int| 0 <= k < f.len() implies x[k] == f[k] by {
                    assert(x.subrange(0, f.len() + 1 as int)[k] == x[k]);
                    assert(f.push('/')[k] == f[k]);
                }
                assert(f + x.skip(f.len() as int) =~= x);
            }
        }
    }
}

/// A write changes no file but its own note's: on success the note's file
/// holds exactly the text written and every other file is as it was; on
/// failure no file has changed.
pub proof fn law_write_touches_only_its_note(m: Vault, name: Seq<char>, content: Seq<char>)
    ensures
        ({
            let (res, m2) = do_write(m, name, content);
            &&& res == Some(Ok::<(), ErrorView>(())) ==> m2.files == m.files.insert(
                note_path(resolve_spec(name)->Ok_0),
                content,
            )
            &&& res != Some(Ok::<(), ErrorView>(())) ==> m2.files == m.files
        }),
{
    reveal_with_fuel(run, 3);
}

/// Deleting a note whose file exists succeeds and removes exactly that
/// file; deleting one with no file fails with "not found"; an invalid name
/// fails with its resolution error. Only a success changes the vault.
pub proof fn law_delete_outcome(m: Vault, name: Seq<char>)
    ensures
        ({
            let (res, m2) = do_delete(m, name);
            match resolve_spec(name) {
                Err(e) => res == Some(Err::<(), ErrorView>(e)) && m2 == m,
                Ok(id) => if is_file(m, note_path(id)) {
                    res == Some(Ok::<(), ErrorView>(())) && m2 == (Vault {
                        files: m.files.remove(note_path(id)),
                        dirs: m.dirs,
                    })
                } else {
                    res == Some(Err::<(), ErrorView>(about(ErrorKind::NoteNotFound, id))) && m2 == m
                },
            }
        }),
{
    reveal_with_fuel(run, 2);
}

/// Whether anything, file or directory, stands at `p`.
pub open spec fn occupied(m: Vault, p: Seq<char>) -> bool {
    is_file(m, p) || is_dir(m, p)
}

/// Moving a note is refused, with the vault left as it was, when the name
/// is invalid, when the note has no file, when the destination folder is
/// invalid, or when a note already stands at the new id; a move to where
/// the note already is succeeds and changes nothing.
pub proof fn law_move_note_refused(m: Vault, from: Seq<char>, dest: Option<Seq<char>>)
    ensures
        ({
            let (res, m2) = do_move_note(m, from, dest);
            match resolve_spec(from) {
                Err(e) => res == Some(Err::<Seq<char>, ErrorView>(e)) && m2 == m,
                Ok(f) => if !is_file(m, note_path(f)) {
                    res == Some(Err::<Seq<char>, ErrorView>(about(ErrorKind::NoteNotFound, f))) && m2 == m
                } else {
                    match crate::store::moved_note_id(f, dest) {
                        Err(e) => res == Some(Err::<Seq<char>, ErrorView>(e)) && m2 == m,
                        Ok(n) => if n == f {
                            res == Some(Ok::<Seq<char>, ErrorView>(n)) && m2 == m
                        } else {
                            occupied(m, note_path(n)) ==> (res == Some(
                                Err::<Seq<char>, ErrorView>(about(ErrorKind::NoteExists, n)),
                            ) && m2 == m)
                        },
                    }
                },
            }
        }),
{
    reveal_with_fuel(run, 3);
}

/// Renaming a note is refused, with the vault left as it was, when the
/// name is invalid, the new title is blank or has no slug, the note has no
/// file, or another note already stands at the new id.
pub proof fn law_rename_note_refused(m: Vault, from: Seq<char>, title: Seq<char>)
    ensures
        ({
            let (res, m2) = do_rename_note(m, from, title);
            let t = trim_spec(title);
            match resolve_spec(from) {
                Err(e) => res == Some(Err::<Seq<char>, ErrorView>(e)) && m2 == m,
                Ok(f) => if t.len() == 0 {
                    res == Some(Err::<Seq<char>, ErrorView>(bare(ErrorKind::EmptyTitle))) && m2 == m
                } else if slug_of(t).len() == 0 {
                    res == Some(Err::<Seq<char>, ErrorView>(about(ErrorKind::EmptySlug, t))) && m2 == m
                } else if !is_file(m, note_path(f)) {
                    res == Some(Err::<Seq<char>, ErrorView>(about(ErrorKind::NoteNotFound, f))) && m2 == m
                } else {
                    let n = renamed_id(f, slug_of(t));
                    n != f ==> ((resolve_spec(n) matches Ok(x) && occupied(m, note_path(x))) ==> (res == Some(
                        Err::<Seq<char>, ErrorView>(about(ErrorKind::NoteExists, n)),
                    ) && m2 == m))
                },
            }
        }),
{
    reveal_with_fuel(run, 4);
}

/// Moving a folder is refused, with the vault left as it was, when its
/// path is invalid or names no folder, when the destination is invalid or
/// lies inside the folder, or when something already stands at the new
/// path; a move to where the folder already is succeeds and changes
/// nothing.
pub proof fn law_move_folder_refused(m: Vault, from: Seq<char>, dest: Option<Seq<char>>)
    ensures
        ({
            let (res, m2) = do_move_folder(m, from, dest);
            match normalize_spec(from) {
                Err(e) => res == Some(Err::<Seq<char>, ErrorView>(e)) && m2 == m,
                Ok(f) => if !is_dir(m, f) {
                    res == Some(Err::<Seq<char>, ErrorView>(about(ErrorKind::FolderNotFound, f))) && m2 == m
                } else {
                    match moved_folder_path(f, dest) {
                        Err(e) => res == Some(Err::<Seq<char>, ErrorView>(e)) && m2 == m,
                        Ok(np) => if np == f {
                            res == Some(Ok::<Seq<char>, ErrorView>(np)) && m2 == m
                        } else {
                            occupied(m, np) ==> (res == Some(
                                Err::<Seq<char>, ErrorView>(about(ErrorKind::FolderExists, np)),
                            ) && m2 == m)
                        },
                    }
                },
            }
        }),
{
    reveal_with_fuel(run, 3);
}

/// Renaming a folder is refused, with the vault left as it was, when its
/// path is invalid, the new name is blank or holds an invalid component,
/// the folder does not exist, or something already stands at the new
/// path; a rename to the same name succeeds and changes nothing.
pub proof fn law_rename_folder_refused(m: Vault, from: Seq<char>, new_name: Seq<char>)
    ensures
        ({
            let (res, m2) = do_rename_folder(m, from, new_name);
            let n = trim_spec(new_name);
            match normalize_spec(from) {
                Err(e) => res == Some(Err::<Seq<char>, ErrorView>(e)) && m2 == m,
                Ok(f) => if n.len() == 0 {
                    res == Some(Err::<Seq<char>, ErrorView>(bare(ErrorKind::EmptyFolderName))) && m2 == m
                } else if !components_valid(n) {
                    res == Some(Err::<Seq<char>, ErrorView>(about(ErrorKind::InvalidPathComponent, n))) && m2
                        == m
                } else {
                    let np = renamed_folder_path(f, n);
                    if np == f {
                        res == Some(Ok::<Seq<char>, ErrorView>(np)) && m2 == m
                    } else if !is_dir(m, f) {
                        res == Some(Err::<Seq<char>, ErrorView>(about(ErrorKind::FolderNotFound, f))) && m2 == m
                    } else {
                        occupied(m, np) ==> (res == Some(
                            Err::<Seq<char>, ErrorView>(about(ErrorKind::FolderExists, np)),
                        ) && m2 == m)
                    }
                },
            }
        }),
{
    reveal_with_fuel(run, 3);
}

/// Renaming a folder that exists to a free name beside it, outside the
/// folder itself, succeeds with the new path.
pub proof fn law_rename_folder_succeeds(m: Vault, from: Seq<char>, new_name: Seq<char>)
    requires
        wf(m),
    ensures
        ({
            let (res, m2) = do_rename_folder(m, from, new_name);
            let n = trim_spec(new_name);
            let f = normalize_spec(from)->Ok_0;
            let np = renamed_folder_path(f, n);
            (normalize_spec(from) is Ok && n.len() > 0 && components_valid(n) && f.len() > 0 && is_dir(
                m,
                f,
            ) && !occupied(m, np) && is_dir(m, parent_of(np)) && !inside(np, f)) ==> res == Some(
                Ok::<Seq<char>, ErrorView>(np),
            )
        }),
{
    reveal_with_fuel(run, 4);
    if normalize_spec(from) is Ok {
        let f = normalize_spec(from)->Ok_0;
        assert(is_file(m, f) ==> !is_dir(m, f));
    }
}

/// What reading the file at `p` answers.
pub open spec fn read_reply(m: Vault, p: Seq<char>) -> ReplyView {
    if is_file(m, p) {
        ReplyView::Text(m.files[p])
    } else {
        ReplyView::Failed
    }
}

/// The file of a listed note.
pub open spec fn listed_path(n: NoteView) -> Seq<char> {
    note_path(resolve_spec(n.name)->Ok_0)
}

/// The notes among `cands` whose file in `m` links to the note titled
/// `title` with id `id`, in order.
pub open spec fn backlinks_in(m: Vault, cands: Seq<NoteView>, title: Seq<char>, id: Seq<char>) -> Seq<
    LinkView,
>
    decreases cands.len(),
{
    if cands.len() == 0 {
        Seq::<LinkView>::empty()
    } else {
        let init = backlinks_in(m, cands.drop_last(), title, id);
        let n = cands.last();
        let p = listed_path(n);
        if is_file(m, p) && links_to(m.files[p], title, id) {
            init.push((n.name, n.title))
        } else {
            init
        }
    }
}

/// `note_graph` carried out on `m`, over the notes listed.
pub open spec fn do_note_graph(m: Vault, slug: Seq<char>, notes: Seq<NoteView>) -> Option<
    Result<GraphView, ErrorView>,
> {
    run(|r: Seq<ReplyView>| graph_plan(slug, notes, r), m, seq![], notes.len() + 1).0
}

proof fn lemma_candidates_len(notes: Seq<NoteView>, id: Seq<char>)
    ensures
        candidates(notes, id).len() <= notes.len(),
        forall|k: int| 0 <= k < candidates(notes, id).len() ==> (#[trigger] candidates(notes, id)[k]).name != id,
    decreases notes.len(),
{
    if notes.len() > 0 {
        lemma_candidates_len(notes.drop_last(), id);
        let c = candidates(notes.drop_last(), id);
        assert forall|k: int| 0 <= k < candidates(notes, id).len() implies (#[trigger] candidates(
            notes,
            id,
        )[k]).name != id by {
            if k < c.len() {
                assert(candidates(notes, id)[k] == c[k]);
            }
        }
    }
}

proof fn lemma_backlinks_answers(
    m: Vault,
    cands: Seq<NoteView>,
    answers: Seq<ReplyView>,
    title: Seq<char>,
    id: Seq<char>,
)
    requires
        answers.len() >= cands.len(),
        forall|k: int| 0 <= k < cands.len() ==> #[trigger] answers[k] == read_reply(m, listed_path(cands[k])),
    ensures
        backlinks_spec(cands, answers, title, id) == backlinks_in(m, cands, title, id),
    decreases cands.len(),
{
    if cands.len() > 0 {
        let k = cands.len() - 1;
        assert(answers[k] == read_reply(m, listed_path(cands[k])));
        assert forall|j: int| 0 <= j < cands.drop_last().len() implies #[trigger] answers[j] == read_reply(
            m,
            listed_path(cands.drop_last()[j]),
        ) by {
            assert(answers[j] == read_reply(m, listed_path(cands[j])));
        }
        lemma_backlinks_answers(m, cands.drop_last(), answers, title, id);
    }
}

proof fn lemma_graph_reads(
    plan: spec_fn(Seq<ReplyView>) -> StepView<GraphView>,
    m: Vault,
    slug: Seq<char>,
    notes: Seq<NoteView>,
    id: Seq<char>,
    current: Seq<char>,
    rs: Seq<ReplyView>,
    j: nat,
    fuel: nat,
)
    requires
        forall|r: Seq<ReplyView>| #[trigger] plan(r) == graph_plan(slug, notes, r),
        resolve_spec(slug) == Ok::<Seq<char>, ErrorView>(id),
        rs.len() == candidates(notes, id).len(),
        forall|k: int| 0 <= k < rs.len() ==> #[trigger] rs[k] == read_reply(
            m,
            listed_path(candidates(notes, id)[k]),
        ),
        j <= rs.len(),
        fuel >= rs.len() - j,
    ensures
        run(plan, m, seq![ReplyView::Text(current)] + rs.take(j as int), fuel) == (
            Some(
                Ok::<GraphView, ErrorView>(
                    GraphView {
                        outgoing: outgoing_spec(notes, wikilinks_spec(current)),
                        backlinks: backlinks_spec(candidates(notes, id), rs, title_of(notes, id), id),
                    },
                ),
            ),
            m,
        ),
    decreases rs.len() - j,
{
    let r = seq![ReplyView::Text(current)] + rs.take(j as int);
    assert(r[0] == ReplyView::Text(current));
    assert(r.len() - 1 == j);
    if j < rs.len() {
        let q = (FsOp::ReadText, listed_path(candidates(notes, id)[j as int]), Seq::<char>::empty());
        assert(plan(r) == StepView::<GraphView>::Ask(q));
        assert(answer(m, q) == (rs[j as int], m));
        assert(r.push(rs[j as int]) =~= seq![ReplyView::Text(current)] + rs.take(j as int + 1));
        lemma_graph_reads(plan, m, slug, notes, id, current, rs, j + 1, (fuel - 1) as nat);
    } else {
        assert(r.drop_first() =~= rs);
    }
}

/// The graph of a note in the vault `m`: an invalid name fails with its
/// resolution error and a note with no file with "not found"; otherwise
/// the outgoing links are the listed notes that the note's wikilinks name
/// (by title or id, ignoring ASCII case), in list order, and the backlinks
/// are the other listed notes whose file links to it by `[[title]]` or
/// `[[id]]` (ignoring case), in list order; no note is its own backlink.
pub proof fn law_note_graph(m: Vault, slug: Seq<char>, notes: Seq<NoteView>)
    ensures
        match resolve_spec(slug) {
            Err(e) => do_note_graph(m, slug, notes) == Some(Err::<GraphView, ErrorView>(e)),
            Ok(id) => if !is_file(m, note_path(id)) {
                do_note_graph(m, slug, notes) == Some(
                    Err::<GraphView, ErrorView>(about(ErrorKind::NoteNotFound, id)),
                )
            } else {
                &&& do_note_graph(m, slug, notes) == Some(
                    Ok::<GraphView, ErrorView>(
                        GraphView {
                            outgoing: outgoing_spec(notes, wikilinks_spec(m.files[note_path(id)])),
                            backlinks: backlinks_in(m, candidates(notes, id), title_of(notes, id), id),
                        },
                    ),
                )
                &&& forall|k: int|
                    0 <= k < backlinks_in(m, candidates(notes, id), title_of(notes, id), id).len()
                        ==> (#[trigger] backlinks_in(m, candidates(notes, id), title_of(notes, id), id)[k]).0
                        != id
            },
        },
{
    let plan = |r: Seq<ReplyView>| graph_plan(slug, notes, r);
    reveal_with_fuel(run, 2);
    if resolve_spec(slug) is Ok {
        let id = resolve_spec(slug)->Ok_0;
        let cands = candidates(notes, id);
        lemma_candidates_len(notes, id);
        if is_file(m, note_path(id)) {
            let current = m.files[note_path(id)];
            let rs = Seq::new(cands.len(), |k: int| read_reply(m, listed_path(cands[k])));
            let q0 = (FsOp::ReadText, note_path(id), Seq::<char>::empty());
            assert(plan(seq![]) == StepView::<GraphView>::Ask(q0));
            assert(answer(m, q0) == (ReplyView::Text(current), m));
            assert(seq![ReplyView::Text(current)] + rs.take(0) =~= Seq::<ReplyView>::empty().push(
                ReplyView::Text(current),
            ));
            lemma_graph_reads(plan, m, slug, notes, id, current, rs, 0, notes.len());
            lemma_backlinks_answers(m, cands, rs, title_of(notes, id), id);
            lemma_backlinks_own(m, cands, title_of(notes, id), id);
        }
    }
}

proof fn lemma_backlinks_own(m: Vault, cands: Seq<NoteView>, title: Seq<char>, id: Seq<char>)
    requires
        forall|k: int| 0 <= k < cands.len() ==> (#[trigger] cands[k]).name != id,
    ensures
        forall|k: int|
            0 <= k < backlinks_in(m, cands, title, id).len() ==> (#[trigger] backlinks_in(m, cands, title, id)[k]).0
                != id,
    decreases cands.len(),
{
    if cands.len() > 0 {
        let c = cands.drop_last();
        assert forall|k: int| 0 <= k < c.len() implies (#[trigger] c[k]).name != id by {
            assert(c[k] == cands[k]);
        }
        lemma_backlinks_own(m, c, title, id);
        let init = backlinks_in(m, c, title, id);
        assert(cands.last() == cands[cands.len() - 1]);
        assert forall|k: int| 0 <= k < backlinks_in(m, cands, title, id).len() implies (#[trigger] backlinks_in(
            m,
            cands,
            title,
            id,
        )[k]).0 != id by {
            if k < init.len() {
                assert(backlinks_in(m, cands, title, id)[k] == init[k]);
            }
        }
    }
}

/// Whether a note exists: false for a name that does not resolve, else
/// whether anything stands at its file's path.
pub proof fn law_exists_outcome(m: Vault, name: Seq<char>)
    ensures
        do_exists(m, name) == Some(
            Ok::<bool, ErrorView>(
                match resolve_spec(name) {
                    Err(_) => false,
                    Ok(id) => occupied(m, note_path(id)),
                },
            ),
        ),
{
    reveal_with_fuel(run, 2);
}

/// A rename meeting none of the refusals succeeds when the file system
/// lets it write (the note's folder exists; for a new id, nothing stands at
/// it and no file blocks its folder): the note's text, retitled, is under
/// the new id, the old file is gone when the id changed, and every other
/// file is as it was.
pub proof fn law_rename_note_succeeds(m: Vault, from: Seq<char>, title: Seq<char>)
    requires
        wf(m),
    ensures
        ({
            let (res, m2) = do_rename_note(m, from, title);
            let t = trim_spec(title);
            let f = resolve_spec(from)->Ok_0;
            let n = renamed_id(f, slug_of(t));
            let pf = note_path(f);
            let pn = note_path(n);
            let text = set_content_title_spec(m.files[pf], t);
            (resolve_spec(from) is Ok && t.len() > 0 && slug_of(t).len() > 0 && is_file(m, pf) && (n == f
                ==> is_dir(m, parent_of(pf))) && (n != f ==> !occupied(m, pn) && (resolve_spec(n) is Ok
                ==> !occupied(m, note_path(resolve_spec(n)->Ok_0))) && !(exists|x: Seq<char>|
                on_path(x, parent_of(pn)) && #[trigger] is_file(m, x)))) ==> {
                &&& res == Some(Ok::<Seq<char>, ErrorView>(n))
                &&& m2.files == (if n == f {
                    m.files.insert(pf, text)
                } else {
                    m.files.insert(pn, text).remove(pf)
                })
            }
        }),
{
    reveal_with_fuel(run, 7);
    let t = trim_spec(title);
    if resolve_spec(from) is Ok && t.len() > 0 && slug_of(t).len() > 0 {
        let f = resolve_spec(from)->Ok_0;
        let n = renamed_id(f, slug_of(t));
        let pf = note_path(f);
        let pn = note_path(n);
        lemma_note_path_injective(f, n);
        assert(is_file(m, pf) ==> !is_dir(m, pf));
        if n != f && !occupied(m, pn) && !(exists|x: Seq<char>| on_path(x, parent_of(pn)) && #[trigger] is_file(m, x)) {
            let pp = parent_of(pn);
            let m1 = answer(m, (FsOp::CreateDirAll, pp, Seq::<char>::empty())).1;
            assert(is_dir(m1, pp)) by {
                if pp.len() > 0 {
                    assert(on_path(pp, pp));
                }
            }
            assert(!is_dir(m1, pn)) by {
                if m1.dirs.contains(pn) {
                    assert(on_path(pn, pp));
                    lemma_parent_shorter(pn);
                }
            }
        }
    }
}

/// A folder move meeting none of the refusals succeeds when the file
/// system lets it (nothing stands at the new path, no file blocks its
/// parent folder, and the new path is not inside the folder).
pub proof fn law_move_folder_succeeds(m: Vault, from: Seq<char>, dest: Option<Seq<char>>)
    requires
        wf(m),
    ensures
        ({
            let (res, m2) = do_move_folder(m, from, dest);
            let f = normalize_spec(from)->Ok_0;
            let np = moved_folder_path(f, dest)->Ok_0;
            (normalize_spec(from) is Ok && f.len() > 0 && is_dir(m, f) && moved_folder_path(f, dest) is Ok
                && np != f && !occupied(m, np) && !(exists|x: Seq<char>|
                on_path(x, parent_of(np)) && #[trigger] is_file(m, x)) && !inside(np, f)) ==> res == Some(
                Ok::<Seq<char>, ErrorView>(np),
            )
        }),
{
    reveal_with_fuel(run, 5);
    if normalize_spec(from) is Ok {
        let f = normalize_spec(from)->Ok_0;
        assert(is_file(m, f) ==> !is_dir(m, f));
        if moved_folder_path(f, dest) is Ok {
            let np = moved_folder_path(f, dest)->Ok_0;
            let pp = parent_of(np);
            if !occupied(m, np) && !(exists|x: Seq<char>| on_path(x, pp) && #[trigger] is_file(m, x)) {
                let m1 = answer(m, (FsOp::CreateDirAll, pp, Seq::<char>::empty())).1;
                assert(is_dir(m1, pp)) by {
                    if pp.len() > 0 {
                        assert(on_path(pp, pp));
                    }
                }
                assert(!is_dir(m1, np)) by {
                    if m1.dirs.contains(np) {
                        assert(on_path(np, pp));
                        lemma_parent_shorter(np);
                    }
                }
            }
        }
    }
}

/// A renamed folder takes what it holds along: every file under it is
/// found, with the same text, under the new path, and no longer under the
/// old one.
pub proof fn law_rename_folder_keeps_contents(m: Vault, from: Seq<char>, new_name: Seq<char>)
    requires
        wf(m),
    ensures
        ({
            let (res, m2) = do_rename_folder(m, from, new_name);
            let f = normalize_spec(from)->Ok_0;
            res matches Some(Ok(np)) ==> (np != f ==> forall|x: Seq<char>|
                inside(x, f) && #[trigger] is_file(m, x) ==> {
                    let y = np + x.skip(f.len() as int);
                    &&& is_file(m2, y)
                    &&& m2.files[y] == m.files[x]
                    &&& (!inside(x, np) ==> !is_file(m2, x))
                })
        }),
{
    reveal_with_fuel(run, 4);
    let (res, m2) = do_rename_folder(m, from, new_name);
    if normalize_spec(from) is Ok {
        let f = normalize_spec(from)->Ok_0;
        assert(is_file(m, f) ==> !is_dir(m, f));
        if res is Some && res->Some_0 is Ok && res->Some_0->Ok_0 != f {
            let np = res->Some_0->Ok_0;
            assert forall|x: Seq<char>| inside(x, f) && #[trigger] is_file(m, x) implies {
                let y = np + x.skip(f.len() as int);
                &&& is_file(m2, y)
                &&& m2.files[y] == m.files[x]
                &&& (!inside(x, np) ==> !is_file(m2, x))
            } by {
                let y = np + x.skip(f.len() as int);
                assert(x.subrange(0, f.len() + 1 as int) == f.push('/'));
                assert(x[f.len() as int] == x.subrange(0, f.len() + 1 as int)[f.len() as int]);
                assert(y.subrange(0, np.len() + 1 as int) =~= np.push('/'));
                assert(y.skip(np.len() as int) =~= x.skip(f.len() as int));
                assert forall|k: int| 0 <= k < f.len() implies x[k] == f[k] by {
                    assert(x.subrange(0, f.len() + 1 as int)[k] == x[k]);
                    assert(f.push('/')[k] == f[k]);
                }
                assert(f + x.skip(f.len() as int) =~= x);
            }
        }
    }
}

} // verus!
