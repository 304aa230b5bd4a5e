//! The errors of the vault operations, and their messages.

use vstd::prelude::*;
use crate::text::{text, concat, string_of};

verus! {

/// What went wrong.
#[derive(Clone, Copy, PartialEq, Eq, Structural, Debug)]
pub enum ErrorKind {
    /// "Note id cannot be empty"
    EmptyNoteId,
    /// "Note id must be relative"
    AbsoluteNoteId,
    /// "Folder path cannot be empty"
    EmptyFolderPath,
    /// "Folder path must be relative"
    AbsoluteFolderPath,
    /// "Invalid path component in '{subject}'"
    InvalidPathComponent,
    /// "Note name '{subject}' produces an empty slug — use alphanumeric characters."
    EmptySlug,
    /// "Note '{subject}' not found"
    NoteNotFound,
    /// "Note '{subject}' already exists"
    NoteExists,
    /// "Folder '{subject}' not found"
    FolderNotFound,
    /// "Folder '{subject}' already exists"
    FolderExists,
    /// "Cannot move folder into itself or a subfolder"
    MoveIntoItself,
    /// "Note title cannot be empty"
    EmptyTitle,
    /// "Folder name cannot be empty"
    EmptyFolderName,
    /// "Cannot create folder '{subject}'"
    CreateFolderFailed,
    /// "Cannot create parent directory for '{subject}'"
    CreateParentFailed,
    /// "Cannot write note '{subject}'"
    WriteFailed,
    /// "Cannot read note '{subject}'"
    ReadFailed,
    /// "Cannot remove note '{subject}'"
    RemoveFailed,
    /// "Cannot move '{subject}' to '{target}'"
    MoveNoteFailed,
    /// "Cannot move folder '{subject}' to '{target}'"
    MoveFolderFailed,
    /// "Cannot rename folder '{subject}' to '{target}'"
    RenameFolderFailed,
    /// "Cannot delete folder '{subject}'"
    DeleteFolderFailed,
    /// "Cannot read {subject}"
    FileUnreadable,
    /// "Cannot stat {subject}"
    FileUnstatable,
    /// "Path {subject} is outside vault root"
    OutsideVault,
}

/// An error of a vault operation: its kind and the ids or paths it names.
#[derive(Debug)]
pub struct StoreError {
    pub kind: ErrorKind,
    pub subject: String,
    pub target: String,
}

/// The mathematical value of an error: kind, subject, target.
pub type ErrorView = (ErrorKind, Seq<char>, Seq<char>);

impl View for StoreError {
    type V = ErrorView;

    open spec fn view(&self) -> ErrorView {
        (self.kind, self.subject@, self.target@)
    }
}

/// An error that names nothing.
pub open spec fn bare(kind: ErrorKind) -> ErrorView {
    (kind, Seq::<char>::empty(), Seq::<char>::empty())
}

/// An error that names one id or path.
pub open spec fn about(kind: ErrorKind, subject: Seq<char>) -> ErrorView {
    (kind, subject, Seq::<char>::empty())
}

/// The mathematical value of a result.
pub open spec fn rview<T: View>(r: Result<T, StoreError>) -> Result<T::V, ErrorView> {
    match r {
        Ok(v) => Ok(v@),
        Err(e) => Err(e@),
    }
}

impl Clone for StoreError {
    fn clone(&self) -> (res: Self)
        ensures
            res@ == self@,
    {
        StoreError { kind: self.kind, subject: self.subject.clone(), target: self.target.clone() }
    }
}

impl StoreError {
    /// An error that names nothing.
    pub fn bare(kind: ErrorKind) -> (res: Self)
        ensures
            res@ == bare(kind),
    {
        StoreError { kind, subject: String::new(), target: String::new() }
    }

    /// An error that names one id or path.
    pub fn about(kind: ErrorKind, subject: &Vec<char>) -> (res: Self)
        ensures
            res@ == about(kind, subject@),
    {
        StoreError { kind, subject: string_of(subject), target: String::new() }
    }

    /// An error that names a source and a destination.
    pub fn between(kind: ErrorKind, subject: &Vec<char>, target: &Vec<char>) -> (res: Self)
        ensures
            res@ == (kind, subject@, target@),
    {
        StoreError { kind, subject: string_of(subject), target: string_of(target) }
    }

    /// The human-readable message.
    pub fn message(&self) -> (res: String)
        ensures
            res@ == message_spec(self@),
    {
        let s = chars_of_string(&self.subject);
        let t = chars_of_string(&self.target);
        let v = match self.kind {
            ErrorKind::EmptyNoteId => text("Note id cannot be empty"),
            ErrorKind::AbsoluteNoteId => text("Note id must be relative"),
            ErrorKind::EmptyFolderPath => text("Folder path cannot be empty"),
            ErrorKind::AbsoluteFolderPath => text("Folder path must be relative"),
            ErrorKind::InvalidPathComponent => wrap("Invalid path component in '", &s, "'"),
            ErrorKind::EmptySlug => wrap(
                "Note name '",
                &s,
                "' produces an empty slug — use alphanumeric characters.",
            ),
            ErrorKind::NoteNotFound => wrap("Note '", &s, "' not found"),
            ErrorKind::NoteExists => wrap("Note '", &s, "' already exists"),
            ErrorKind::FolderNotFound => wrap("Folder '", &s, "' not found"),
            ErrorKind::FolderExists => wrap("Folder '", &s, "' already exists"),
            ErrorKind::MoveIntoItself => text("Cannot move folder into itself or a subfolder"),
            ErrorKind::EmptyTitle => text("Note title cannot be empty"),
            ErrorKind::EmptyFolderName => text("Folder name cannot be empty"),
            ErrorKind::CreateFolderFailed => wrap("Cannot create folder '", &s, "'"),
            ErrorKind::CreateParentFailed => wrap("Cannot create parent directory for '", &s, "'"),
            ErrorKind::WriteFailed => wrap("Cannot write note '", &s, "'"),
            ErrorKind::ReadFailed => wrap("Cannot read note '", &s, "'"),
            ErrorKind::RemoveFailed => wrap("Cannot remove note '", &s, "'"),
            ErrorKind::MoveNoteFailed => wrap2("Cannot move '", &s, "' to '", &t, "'"),
            ErrorKind::MoveFolderFailed => wrap2("Cannot move folder '", &s, "' to '", &t, "'"),
            ErrorKind::RenameFolderFailed => wrap2("Cannot rename folder '", &s, "' to '", &t, "'"),
            ErrorKind::DeleteFolderFailed => wrap("Cannot delete folder '", &s, "'"),
            ErrorKind::FileUnreadable => wrap("Cannot read ", &s, ""),
            ErrorKind::FileUnstatable => wrap("Cannot stat ", &s, ""),
            ErrorKind::OutsideVault => wrap("Path ", &s, " is outside vault root"),
        };
        string_of(&v)
    }
}

fn chars_of_string(s: &String) -> (res: Vec<char>)
    ensures
        res@ == s@,
{
    text(s.as_str())
}

fn wrap(a: &str, s: &Vec<char>, b: &str) -> (res: Vec<char>)
    ensures
        res@ == a@ + s@ + b@,
{
    let x = concat(&text(a), s);
    concat(&x, &text(b))
}

fn wrap2(a: &str, s: &Vec<char>, b: &str, t: &Vec<char>, c: &str) -> (res: Vec<char>)
    ensures
        res@ == a@ + s@ + b@ + t@ + c@,
{
    let x = wrap(a, s, b);
    let y = concat(&x, t);
    concat(&y, &text(c))
}

/// The message of an error.
pub open spec fn message_spec(e: ErrorView) -> Seq<char> {
    let s = e.1;
    let t = e.2;
    match e.0 {
        ErrorKind::EmptyNoteId => "Note id cannot be empty"@,
        ErrorKind::AbsoluteNoteId => "Note id must be relative"@,
        ErrorKind::EmptyFolderPath => "Folder path cannot be empty"@,
        ErrorKind::AbsoluteFolderPath => "Folder path must be relative"@,
        ErrorKind::InvalidPathComponent => "Invalid path component in '"@ + s + "'"@,
        ErrorKind::EmptySlug => "Note name '"@ + s
            + "' produces an empty slug — use alphanumeric characters."@,
        ErrorKind::NoteNotFound => "Note '"@ + s + "' not found"@,
        ErrorKind::NoteExists => "Note '"@ + s + "' already exists"@,
        ErrorKind::FolderNotFound => "Folder '"@ + s + "' not found"@,
        ErrorKind::FolderExists => "Folder '"@ + s + "' already exists"@,
        ErrorKind::MoveIntoItself => "Cannot move folder into itself or a subfolder"@,
        ErrorKind::EmptyTitle => "Note title cannot be empty"@,
        ErrorKind::EmptyFolderName => "Folder name cannot be empty"@,
        ErrorKind::CreateFolderFailed => "Cannot create folder '"@ + s + "'"@,
        ErrorKind::CreateParentFailed => "Cannot create parent directory for '"@ + s + "'"@,
        ErrorKind::WriteFailed => "Cannot write note '"@ + s + "'"@,
        ErrorKind::ReadFailed => "Cannot read note '"@ + s + "'"@,
        ErrorKind::RemoveFailed => "Cannot remove note '"@ + s + "'"@,
        ErrorKind::MoveNoteFailed => "Cannot move '"@ + s + "' to '"@ + t + "'"@,
        ErrorKind::MoveFolderFailed => "Cannot move folder '"@ + s + "' to '"@ + t + "'"@,
        ErrorKind::RenameFolderFailed => "Cannot rename folder '"@ + s + "' to '"@ + t + "'"@,
        ErrorKind::DeleteFolderFailed => "Cannot delete folder '"@ + s + "'"@,
        ErrorKind::FileUnreadable => "Cannot read "@ + s + ""@,
        ErrorKind::FileUnstatable => "Cannot stat "@ + s + ""@,
        ErrorKind::OutsideVault => "Path "@ + s + " is outside vault root"@,
    }
}

} // verus!
