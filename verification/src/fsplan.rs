//! The conversation between a vault operation and the file system.
//!
//! Every operation on the vault is a sequence of requests to the file system
//! (probe a path, read a file, create directories, write, rename, remove),
//! where each request depends on the answers to the earlier ones. An
//! operation is written here as a function from the answers received so far
//! to the next step: either one more request, or the final result. The
//! caller performs each request on the real file system and hands back its
//! answer, until the operation finishes. All paths are relative to the vault
//! root.

use vstd::prelude::*;
use crate::text::{split_spec, join_spec, rsplit_once_spec, seqs_of, split, join, text, concat, string_of, lemma_split_len};
use crate::error::{ErrorView, StoreError, rview};

verus! {

broadcast use vstd::string::group_string_axioms;

/// What is asked of the file system.
#[derive(Clone, Copy, PartialEq, Eq, Structural, Debug)]
pub enum FsOp {
    /// Is there a regular file at `path`? (answer: `Flag`)
    IsFile,
    /// Is there a directory at `path`? (answer: `Flag`)
    IsDir,
    /// Is there anything at `path`? (answer: `Flag`)
    Exists,
    /// The text of the file at `path`. (answer: `Text` or `Failed`)
    ReadText,
    /// Create `path` and all its missing ancestors. (answer: `Done` or `Failed`)
    CreateDirAll,
    /// Write `arg` as the whole text of the file at `path`. (answer: `Done` or `Failed`)
    WriteText,
    /// Rename `path` to `arg`. (answer: `Done` or `Failed`)
    Rename,
    /// Remove the file at `path`. (answer: `Done` or `Failed`)
    RemoveFile,
    /// Remove the directory at `path` with all it holds. (answer: `Done` or `Failed`)
    RemoveDirAll,
}

/// One request to the file system.
#[derive(Debug)]
pub struct FsRequest {
    pub op: FsOp,
    pub path: String,
    pub arg: String,
}

/// The mathematical value of a request.
pub type RequestView = (FsOp, Seq<char>, Seq<char>);

impl View for FsRequest {
    type V = RequestView;

    open spec fn view(&self) -> RequestView {
        (self.op, self.path@, self.arg@)
    }
}

/// The file system's answer to one request.
#[derive(Debug)]
pub enum FsReply {
    Flag(bool),
    Text(String),
    Done,
    Failed,
}

/// The mathematical value of an answer.
pub enum ReplyView {
    Flag(bool),
    Text(Seq<char>),
    Done,
    Failed,
}

impl View for FsReply {
    type V = ReplyView;

    open spec fn view(&self) -> ReplyView {
        match self {
            FsReply::Flag(b) => ReplyView::Flag(*b),
            FsReply::Text(s) => ReplyView::Text(s@),
            FsReply::Done => ReplyView::Done,
            FsReply::Failed => ReplyView::Failed,
        }
    }
}

/// The next step of an operation.
#[derive(Debug)]
pub enum Step<R> {
    /// Perform this request and hand back its answer.
    Ask(FsRequest),
    /// The operation is over, with this result.
    Finish(Result<R, StoreError>),
}

/// The mathematical value of a step.
pub enum StepView<V> {
    Ask(RequestView),
    Finish(Result<V, ErrorView>),
}

impl<R: View> View for Step<R> {
    type V = StepView<R::V>;

    open spec fn view(&self) -> StepView<R::V> {
        match self {
            Step::Ask(q) => StepView::Ask(q@),
            Step::Finish(r) => StepView::Finish(rview(*r)),
        }
    }
}

/// The answers received so far.
pub open spec fn replies_view(v: Seq<FsReply>) -> Seq<ReplyView> {
    v.map_values(|r: FsReply| r@)
}

/// A request as a step.
pub open spec fn ask<V>(op: FsOp, path: Seq<char>, arg: Seq<char>) -> StepView<V> {
    StepView::Ask((op, path, arg))
}

/// A request with no argument as a step.
pub open spec fn probe<V>(op: FsOp, path: Seq<char>) -> StepView<V> {
    StepView::Ask((op, path, Seq::<char>::empty()))
}

/// A failure as a step.
pub open spec fn fail<V>(e: ErrorView) -> StepView<V> {
    StepView::Finish(Err(e))
}

/// A success as a step.
pub open spec fn succeed<V>(v: V) -> StepView<V> {
    StepView::Finish(Ok(v))
}

/// The answer says yes.
pub open spec fn yes(r: ReplyView) -> bool {
    r == ReplyView::Flag(true)
}

/// The answer says the change was made.
pub open spec fn done(r: ReplyView) -> bool {
    r == ReplyView::Done
}

/// `.md`
pub open spec fn md_ext() -> Seq<char> {
    seq!['.', 'm', 'd']
}

/// The file of the note with id `id`.
pub open spec fn note_path(id: Seq<char>) -> Seq<char> {
    id + md_ext()
}

/// The directory that holds `p` (empty for the vault root).
pub open spec fn parent_of(p: Seq<char>) -> Seq<char> {
    match rsplit_once_spec(p, '/') {
        Some(pair) => pair.0,
        None => Seq::<char>::empty(),
    }
}

// ---------------------------------------------------------------------------
// Executable helpers
// ---------------------------------------------------------------------------

/// A request as a value.
pub fn request(op: FsOp, path: &Vec<char>, arg: &Vec<char>) -> (res: FsRequest)
    ensures
        res@ == (op, path@, arg@),
{
    FsRequest { op, path: string_of(path), arg: string_of(arg) }
}

/// A request with no argument as a step.
pub fn probe_step<R: View>(op: FsOp, path: &Vec<char>) -> (res: Step<R>)
    ensures
        res@ == probe::<R::V>(op, path@),
{
    Step::Ask(request(op, path, &Vec::new()))
}

/// A failure as a step.
pub fn fail_step<R: View>(e: StoreError) -> (res: Step<R>)
    ensures
        res@ == fail::<R::V>(e@),
{
    Step::Finish(Err(e))
}

/// Whether an answer says yes.
pub fn is_yes(r: &FsReply) -> (res: bool)
    ensures
        res == yes(r@),
{
    match r {
        FsReply::Flag(b) => *b,
        _ => false,
    }
}

/// Whether an answer says the change was made.
pub fn is_done(r: &FsReply) -> (res: bool)
    ensures
        res == done(r@),
{
    match r {
        FsReply::Done => true,
        _ => false,
    }
}

/// The file of the note with id `id`.
pub fn note_path_exec(id: &Vec<char>) -> (res: Vec<char>)
    ensures
        res@ == note_path(id@),
{
    proof {
        reveal_strlit(".md");
        assert(".md"@ =~= md_ext());
    }
    concat(id, &text(".md"))
}

/// `str::rsplit_once`.
pub fn rsplit_once(s: &Vec<char>, d: char) -> (res: Option<(Vec<char>, Vec<char>)>)
    ensures
        match res {
            Some(pair) => rsplit_once_spec(s@, d) == Some((pair.0@, pair.1@)),
            None => rsplit_once_spec(s@, d) is None,
        },
{
    let parts = split(s, d);
    if parts.len() <= 1 {
        return None;
    }
    let mut init: Vec<Vec<char>> = Vec::new();
    let mut k: usize = 0;
    while k + 1 < parts.len()
        invariant
            k + 1 <= parts.len(),
            seqs_of(init@) == seqs_of(parts@).take(k as int),
        decreases parts.len() - k,
    {
        let ghost before = seqs_of(init@);
        let item = parts[k].clone();
        assert(item@ == seqs_of(parts@)[k as int]);
        init.push(item);
        assert(seqs_of(init@) =~= before.push(item@));
        assert(seqs_of(parts@).take(k as int + 1) =~= seqs_of(parts@).take(k as int).push(
            seqs_of(parts@)[k as int],
        ));
        k = k + 1;
    }
    assert(seqs_of(parts@).take(k as int) =~= seqs_of(parts@).drop_last());
    let head = join(&init, d);
    let tail = parts[parts.len() - 1].clone();
    assert(tail@ == seqs_of(parts@).last());
    Some((head, tail))
}

/// The text after the last `d`.
pub fn last_segment_exec(s: &Vec<char>, d: char) -> (res: Vec<char>)
    ensures
        res@ == split_spec(s@, d).last(),
{
    let parts = split(s, d);
    proof {
        lemma_split_len(s@, d);
    }
    let last = parts[parts.len() - 1].clone();
    assert(last@ == seqs_of(parts@).last());
    last
}

/// The directory that holds `p`.
pub fn parent_exec(p: &Vec<char>) -> (res: Vec<char>)
    ensures
        res@ == parent_of(p@),
{
    match rsplit_once(p, '/') {
        Some((a, _)) => a,
        None => Vec::new(),
    }
}

} // verus!
