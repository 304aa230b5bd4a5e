use std::collections::{BTreeMap, BTreeSet};

use cobblestone::error::{ErrorKind, StoreError};
use cobblestone::fsplan::{FsOp, FsReply, FsRequest, Step};
use cobblestone::graph::NoteGraph;
use cobblestone::note::{FileMeta, FileTime, Note};
use cobblestone::store::Store;
use cobblestone::tree::{DirEntry, VaultNode};
use cobblestone::vault::FoundFile;

const ROOT: &str = "/vault";

/// A file system in memory, answering the vault's requests.
struct MemFs {
    files: BTreeMap<String, String>,
    mtimes: BTreeMap<String, i64>,
    dirs: BTreeSet<String>,
    clock: i64,
}

fn parent(p: &str) -> String {
    match p.rsplit_once('/') {
        Some((a, _)) => a.to_string(),
        None => String::new(),
    }
}

fn inside(x: &str, p: &str) -> bool {
    x.starts_with(&format!("{p}/"))
}

impl MemFs {
    fn new() -> Self {
        MemFs { files: BTreeMap::new(), mtimes: BTreeMap::new(), dirs: BTreeSet::new(), clock: 100 }
    }

    fn is_dir(&self, p: &str) -> bool {
        p.is_empty() || self.dirs.contains(p)
    }

    fn is_file(&self, p: &str) -> bool {
        self.files.contains_key(p)
    }

    fn put(&mut self, p: &str, text: &str) {
        self.clock += 1;
        self.files.insert(p.to_string(), text.to_string());
        self.mtimes.insert(p.to_string(), self.clock);
    }

    fn answer(&mut self, q: &FsRequest) -> FsReply {
        let p = q.path.as_str();
        let arg = q.arg.as_str();
        match q.op {
            FsOp::IsFile => FsReply::Flag(self.is_file(p)),
            FsOp::IsDir => FsReply::Flag(self.is_dir(p)),
            FsOp::Exists => FsReply::Flag(self.is_file(p) || self.is_dir(p)),
            FsOp::ReadText => match self.files.get(p) {
                Some(t) => FsReply::Text(t.clone()),
                None => FsReply::Failed,
            },
            FsOp::CreateDirAll => {
                if p.is_empty() {
                    return FsReply::Done;
                }
                let mut prefixes = Vec::new();
                let mut acc = String::new();
                for part in p.split('/') {
                    if !acc.is_empty() {
                        acc.push('/');
                    }
                    acc.push_str(part);
                    prefixes.push(acc.clone());
                }
                if prefixes.iter().any(|x| self.is_file(x)) {
                    return FsReply::Failed;
                }
                for x in prefixes {
                    self.dirs.insert(x);
                }
                FsReply::Done
            }
            FsOp::WriteText => {
                if self.is_dir(p) || !self.is_dir(&parent(p)) {
                    return FsReply::Failed;
                }
                self.put(p, arg);
                FsReply::Done
            }
            FsOp::Rename => {
                if self.is_file(p) {
                    if self.is_dir(arg) || !self.is_dir(&parent(arg)) {
                        return FsReply::Failed;
                    }
                    let t = self.files.remove(p).unwrap();
                    let m = self.mtimes.remove(p).unwrap();
                    self.files.insert(arg.to_string(), t);
                    self.mtimes.insert(arg.to_string(), m);
                    FsReply::Done
                } else if !p.is_empty()
                    && self.is_dir(p)
                    && !self.is_file(arg)
                    && !self.is_dir(arg)
                    && self.is_dir(&parent(arg))
                    && !inside(arg, p)
                {
                    let moved: Vec<String> =
                        self.files.keys().filter(|x| inside(x, p)).cloned().collect();
                    for x in moved {
                        let t = self.files.remove(&x).unwrap();
                        let m = self.mtimes.remove(&x).unwrap();
                        let y = format!("{arg}{}", &x[p.len()..]);
                        self.files.insert(y.clone(), t);
                        self.mtimes.insert(y, m);
                    }
                    let dirs: Vec<String> =
                        self.dirs.iter().filter(|x| *x == p || inside(x, p)).cloned().collect();
                    for x in dirs {
                        self.dirs.remove(&x);
                        self.dirs.insert(format!("{arg}{}", &x[p.len()..]));
                    }
                    FsReply::Done
                } else {
                    FsReply::Failed
                }
            }
            FsOp::RemoveFile => {
                if self.files.remove(p).is_some() {
                    self.mtimes.remove(p);
                    FsReply::Done
                } else {
                    FsReply::Failed
                }
            }
            FsOp::RemoveDirAll => {
                if p.is_empty() || !self.is_dir(p) {
                    return FsReply::Failed;
                }
                self.files.retain(|x, _| !inside(x, p));
                self.mtimes.retain(|x, _| !inside(x, p));
                self.dirs.retain(|x| x != p && !inside(x, p));
                FsReply::Done
            }
        }
    }

    fn run<R>(&mut self, op: impl Fn(&Vec<FsReply>) -> Step<R>) -> Result<R, StoreError> {
        let mut replies = Vec::new();
        loop {
            match op(&replies) {
                Step::Ask(q) => {
                    let a = self.answer(&q);
                    replies.push(a);
                }
                Step::Finish(r) => return r,
            }
        }
    }

    fn found(&self, rel: &str) -> FoundFile {
        FoundFile {
            path: format!("{ROOT}/{rel}"),
            content: self.files.get(rel).cloned(),
            meta: Some(FileMeta {
                size: self.files.get(rel).map(|t| t.len() as u64).unwrap_or(0),
                created: None,
                modified: Some(FileTime { secs: self.mtimes[rel], nanos: 0 }),
            }),
        }
    }

    /// Every Markdown file, as a walk of the vault finds it.
    fn md_files(&self) -> Vec<FoundFile> {
        self.files.keys().filter(|k| k.ends_with(".md")).map(|k| self.found(k)).collect()
    }

    fn walk(&self, dir: &str) -> Vec<DirEntry> {
        let mut out = Vec::new();
        for d in &self.dirs {
            if parent(d) == dir {
                let name = d.rsplit('/').next().unwrap().to_string();
                out.push(DirEntry::Dir {
                    name,
                    path: format!("{ROOT}/{d}"),
                    entries: self.walk(d),
                });
            }
        }
        for f in self.files.keys() {
            if parent(f) == dir && f.ends_with(".md") {
                out.push(DirEntry::File(self.found(f)));
            }
        }
        out
    }
}

fn temp_store() -> (MemFs, Store) {
    (MemFs::new(), Store::with_root(ROOT.to_string()))
}

fn write(fs: &mut MemFs, store: &Store, name: &str, content: &str) -> Result<(), StoreError> {
    fs.run(|r| store.write(name, content, r))
}

fn read(fs: &mut MemFs, store: &Store, name: &str) -> Result<String, StoreError> {
    fs.run(|r| store.read(name, r))
}

fn note_there(fs: &mut MemFs, store: &Store, name: &str) -> bool {
    fs.run(|r| store.note_exists(name, r)).unwrap()
}

fn list(fs: &MemFs, store: &Store) -> Vec<Note> {
    store.list_notes(fs.md_files())
}

fn search(fs: &MemFs, store: &Store, q: &str) -> Vec<(Note, Vec<String>)> {
    store.search(q, fs.md_files())
}

// ── Store::exists / write / read / delete ──────────────────────────────

#[test]
fn store_write_and_read_roundtrip() {
    let (mut fs, store) = temp_store();
    write(&mut fs, &store, "test-note", "# Test\n\nContent").unwrap();
    assert_eq!(read(&mut fs, &store, "test-note").unwrap(), "# Test\n\nContent");
}

#[test]
fn store_write_slugifies_name() {
    let (mut fs, store) = temp_store();
    write(&mut fs, &store, "My Note", "content").unwrap();
    assert!(note_there(&mut fs, &store, "my-note"));
    assert!(!fs.files.contains_key("My Note.md"));
}

#[test]
fn store_exists_false_for_missing() {
    let (mut fs, store) = temp_store();
    assert!(!note_there(&mut fs, &store, "ghost"));
}

#[test]
fn store_exists_true_after_write() {
    let (mut fs, store) = temp_store();
    write(&mut fs, &store, "hello", "world").unwrap();
    assert!(note_there(&mut fs, &store, "hello"));
}

#[test]
fn store_delete_removes_file() {
    let (mut fs, store) = temp_store();
    write(&mut fs, &store, "del-me", "bye").unwrap();
    assert!(note_there(&mut fs, &store, "del-me"));
    fs.run(|r| store.delete("del-me", r)).unwrap();
    assert!(!note_there(&mut fs, &store, "del-me"));
}

#[test]
fn store_delete_nonexistent_returns_err() {
    let (mut fs, store) = temp_store();
    assert!(fs.run(|r| store.delete("ghost", r)).is_err());
}

#[test]
fn store_read_nonexistent_returns_err() {
    let (mut fs, store) = temp_store();
    let e = read(&mut fs, &store, "ghost").unwrap_err();
    assert_eq!(e.kind, ErrorKind::NoteNotFound);
    assert_eq!(e.message(), "Note 'ghost' not found");
}

#[test]
fn store_write_empty_slug_returns_err() {
    let (mut fs, store) = temp_store();
    assert!(write(&mut fs, &store, "!!!", "content").is_err());
}

#[test]
fn store_read_empty_slug_returns_err() {
    let (mut fs, store) = temp_store();
    assert!(read(&mut fs, &store, "!!!").is_err());
}

#[test]
fn store_exists_empty_slug_returns_false() {
    let (mut fs, store) = temp_store();
    assert!(!note_there(&mut fs, &store, "!!!"));
}

#[test]
fn store_write_asks_for_folder_then_file() {
    let store = Store::with_root(ROOT.to_string());
    match store.write("a/b", "x", &vec![]) {
        Step::Ask(q) => {
            assert_eq!(q.op, FsOp::CreateDirAll);
            assert_eq!(q.path, "a");
        }
        _ => panic!("expected a request"),
    }
    match store.write("a/b", "x", &vec![FsReply::Done]) {
        Step::Ask(q) => {
            assert_eq!(q.op, FsOp::WriteText);
            assert_eq!(q.path, "a/b.md");
            assert_eq!(q.arg, "x");
        }
        _ => panic!("expected a request"),
    }
    match store.write("a/b", "x", &vec![FsReply::Failed]) {
        Step::Finish(Err(e)) => assert_eq!(e.message(), "Cannot create parent directory for 'a/b'"),
        _ => panic!("expected an error"),
    }
}

// ── list_notes ─────────────────────────────────────────────────────────

#[test]
fn list_empty_store() {
    let (fs, store) = temp_store();
    let notes = list(&fs, &store);
    assert!(notes.is_empty());
}

#[test]
fn list_returns_all_md_files() {
    let (mut fs, store) = temp_store();
    write(&mut fs, &store, "note-a", "# Note A").unwrap();
    write(&mut fs, &store, "note-b", "# Note B").unwrap();
    fs.put("other.txt", "ignored");
    let notes = list(&fs, &store);
    assert_eq!(notes.len(), 2);
}

#[test]
fn list_title_extracted_from_h1() {
    let (mut fs, store) = temp_store();
    write(&mut fs, &store, "my-note", "# Great Title\n\nBody").unwrap();
    let notes = list(&fs, &store);
    assert_eq!(notes[0].title, "Great Title");
}

#[test]
fn list_title_falls_back_to_slug() {
    let (mut fs, store) = temp_store();
    write(&mut fs, &store, "my-note", "No heading here").unwrap();
    let notes = list(&fs, &store);
    assert_eq!(notes[0].title, "my-note");
}

#[test]
fn list_preview_skips_headings() {
    let (mut fs, store) = temp_store();
    write(&mut fs, &store, "p", "# Heading\n\nFirst real line").unwrap();
    let notes = list(&fs, &store);
    assert!(notes[0].preview.contains("First real line"));
    assert!(!notes[0].preview.contains("Heading"));
}

#[test]
fn list_tags_populated() {
    let (mut fs, store) = temp_store();
    write(&mut fs, &store, "t", "# T\n\nContent #rust #coding").unwrap();
    let notes = list(&fs, &store);
    assert!(notes[0].tags.contains(&"rust".to_string()));
    assert!(notes[0].tags.contains(&"coding".to_string()));
}

#[test]
fn list_sorted_newest_first() {
    let (mut fs, store) = temp_store();
    write(&mut fs, &store, "alpha", "# A").unwrap();
    write(&mut fs, &store, "beta", "# B").unwrap();
    fs.mtimes.insert("alpha.md".to_string(), 1);
    fs.mtimes.insert("beta.md".to_string(), 2);
    let notes = list(&fs, &store);
    assert_eq!(notes.len(), 2);
    assert_eq!(
        notes[0].name, "beta",
        "expected 'beta' (newer mtime) first; got '{}'",
        notes[0].name
    );
}

#[test]
fn list_same_mtime_keeps_found_order_and_skips_unreadable() {
    let store = Store::with_root(ROOT.to_string());
    let meta = |s: i64| Some(FileMeta { size: 1, created: None, modified: Some(FileTime { secs: s, nanos: 5 }) });
    let files = vec![
        FoundFile { path: "/vault/a.md".into(), content: Some("a".into()), meta: meta(5) },
        FoundFile { path: "/vault/b.md".into(), content: None, meta: meta(9) },
        FoundFile { path: "/vault/c.md".into(), content: Some("c".into()), meta: meta(5) },
        FoundFile { path: "/elsewhere/d.md".into(), content: Some("d".into()), meta: meta(9) },
        FoundFile { path: "/vault/e.md".into(), content: Some("e".into()), meta: meta(-3) },
        FoundFile { path: "/vault/f.md".into(), content: Some("f".into()), meta: meta(7) },
    ];
    let notes = store.list_notes(files);
    let names: Vec<&str> = notes.iter().map(|n| n.name.as_str()).collect();
    assert_eq!(names, vec!["f", "a", "c", "e"]);
    assert_eq!(notes[3].modified_raw, 0);
    assert_eq!(notes[0].modified_raw, 7);
}

// ── search ─────────────────────────────────────────────────────────────

#[test]
fn search_finds_by_content() {
    let (mut fs, store) = temp_store();
    write(&mut fs, &store, "note-a", "# Note A\n\nRust programming is fun").unwrap();
    write(&mut fs, &store, "note-b", "# Note B\n\nPython is dynamic").unwrap();
    let results = search(&fs, &store, "rust");
    assert_eq!(results.len(), 1);
    assert_eq!(results[0].0.name, "note-a");
}

#[test]
fn search_case_insensitive() {
    let (mut fs, store) = temp_store();
    write(&mut fs, &store, "x", "# Rust Programming\n\ncontent").unwrap();
    assert_eq!(search(&fs, &store, "RUST").len(), 1);
    assert_eq!(search(&fs, &store, "rust").len(), 1);
    assert_eq!(search(&fs, &store, "Rust").len(), 1);
}

#[test]
fn search_by_title() {
    let (mut fs, store) = temp_store();
    write(&mut fs, &store, "x", "# Unique Title Here\n\nbody").unwrap();
    let r = search(&fs, &store, "Unique Title");
    assert_eq!(r.len(), 1);
}

#[test]
fn search_no_results() {
    let (mut fs, store) = temp_store();
    write(&mut fs, &store, "x", "# Note\n\nsome content").unwrap();
    assert!(search(&fs, &store, "xyz123abc").is_empty());
}

#[test]
fn search_empty_query_returns_empty() {
    let (mut fs, store) = temp_store();
    write(&mut fs, &store, "x", "content").unwrap();
    assert!(search(&fs, &store, "").is_empty());
    assert!(search(&fs, &store, "   ").is_empty());
}

#[test]
fn search_returns_matching_lines() {
    let (mut fs, store) = temp_store();
    write(&mut fs, &store, "n", "# N\n\nfoo bar\nhello world\nbaz").unwrap();
    let results = search(&fs, &store, "hello");
    assert_eq!(results.len(), 1);
    assert!(results[0].1.iter().any(|l| l.contains("hello")));
}

#[test]
fn search_keeps_first_three_lines_trimmed() {
    let (mut fs, store) = temp_store();
    write(&mut fs, &store, "n", "  a1  \nb\n a2\na3\na4").unwrap();
    let results = search(&fs, &store, "A");
    assert_eq!(results.len(), 1);
    assert_eq!(results[0].1, vec!["a1".to_string(), "a2".to_string(), "a3".to_string()]);
}

// ── path_for ───────────────────────────────────────────────────────────

#[test]
fn path_for_ends_with_md() {
    let (_fs, store) = temp_store();
    let p = store.path_for("my note");
    assert!(p.ends_with("my-note.md"));
}

#[test]
fn path_for_invalid_name_is_joined_as_is() {
    let (_fs, store) = temp_store();
    assert_eq!(store.path_for("!!!"), "/vault/!!!");
    assert_eq!(store.path_for("a/b"), "/vault/a/b.md");
}

// ── Note::from_path ────────────────────────────────────────────────────

#[test]
fn note_from_path_nonexistent_returns_err() {
    let e = Note::from_path("/tmp/x", "/tmp/x/ghost.md", None, None).unwrap_err();
    assert_eq!(e.kind, ErrorKind::FileUnreadable);
    assert_eq!(e.message(), "Cannot read /tmp/x/ghost.md");
}

#[test]
fn note_from_path_parses_correctly() {
    let meta = FileMeta { size: 33, created: None, modified: Some(FileTime { secs: 1_700_000_000, nanos: 0 }) };
    let note = Note::from_path(
        "/tmp/x",
        "/tmp/x/my-note.md",
        Some("# My Title\n\nPreview text #tag1".to_string()),
        Some(meta),
    )
    .unwrap();
    assert_eq!(note.name, "my-note");
    assert_eq!(note.title, "My Title");
    assert!(note.preview.contains("Preview text"));
    assert!(note.tags.contains(&"tag1".to_string()));
    assert!(note.size > 0);
    assert_eq!(note.modified_raw, 1_700_000_000);
    assert!(!note.modified.is_empty());
    assert_eq!(note.created, note.modified);
}

#[test]
fn note_from_path_errors_and_fields() {
    let meta = FileMeta { size: 0, created: None, modified: None };
    let e = Note::from_path("/v", "/v/a.md", Some(String::new()), None).unwrap_err();
    assert_eq!(e.message(), "Cannot stat /v/a.md");
    let e = Note::from_path("/v", "/w/a.md", Some(String::new()), Some(meta)).unwrap_err();
    assert_eq!(e.kind, ErrorKind::OutsideVault);
    assert_eq!(e.message(), "Path /w/a.md is outside vault root");
    let long = format!("# T\n*Created: 2026-01-01*\n{}\n#h\nsecond\nthird", "x".repeat(130));
    let n = Note::from_path("/v", "/v/dir/b.md", Some(long), Some(meta)).unwrap();
    assert_eq!(n.name, "dir/b");
    assert_eq!(n.preview, "x".repeat(120));
    assert_eq!(n.created, "");
    assert_eq!(n.modified, "");
    assert_eq!(n.modified_raw, 0);
    let n = Note::from_path("/v", "/v/dir/c.md", Some("#  \nplain\nline two\nline three".into()), Some(meta)).unwrap();
    assert_eq!(n.title, "c");
    assert_eq!(n.preview, "plain line two");
}

#[test]
fn nested_note_roundtrip() {
    let (mut fs, store) = temp_store();
    write(&mut fs, &store, "projects/todo", "# Todo\n\nnested").unwrap();
    assert!(note_there(&mut fs, &store, "projects/todo"));
    assert_eq!(read(&mut fs, &store, "projects/todo").unwrap(), "# Todo\n\nnested");
    let notes = list(&fs, &store);
    assert_eq!(notes.len(), 1);
    assert_eq!(notes[0].name, "projects/todo");
}

#[test]
fn list_tree_nested_folders() {
    let (mut fs, store) = temp_store();
    fs.run(|r| store.create_folder("rust", r)).unwrap();
    write(&mut fs, &store, "rust/intro", "# Intro").unwrap();
    write(&mut fs, &store, "readme", "# Readme").unwrap();

    let tree = store.list_tree(fs.walk("")).unwrap();
    assert_eq!(tree.len(), 2);

    let folder = tree.iter().find_map(|n| match n {
        VaultNode::Folder { name, children, .. } if name == "rust" => Some(children),
        _ => None,
    });
    assert!(folder.is_some());
    assert_eq!(folder.unwrap().len(), 1);
}

#[test]
fn list_tree_sorts_folders_then_notes() {
    let (mut fs, store) = temp_store();
    fs.run(|r| store.create_folder("zeta", r)).unwrap();
    fs.run(|r| store.create_folder("alpha/inner", r)).unwrap();
    write(&mut fs, &store, "b", "# Banana").unwrap();
    write(&mut fs, &store, "a", "# Cherry").unwrap();
    write(&mut fs, &store, "c", "# Apple").unwrap();
    let tree = store.list_tree(fs.walk("")).unwrap();
    let labels: Vec<String> = tree
        .iter()
        .map(|n| match n {
            VaultNode::Folder { name, .. } => format!("d:{name}"),
            VaultNode::Note { title, .. } => format!("n:{title}"),
        })
        .collect();
    assert_eq!(labels, vec!["d:alpha", "d:zeta", "n:Apple", "n:Banana", "n:Cherry"]);
    match &tree[0] {
        VaultNode::Folder { path, children, .. } => {
            assert_eq!(path, "alpha");
            assert_eq!(children.len(), 1);
        }
        _ => panic!("expected a folder"),
    }
}

#[test]
fn create_folder_idempotent() {
    let (mut fs, store) = temp_store();
    fs.run(|r| store.create_folder("notes/daily", r)).unwrap();
    fs.run(|r| store.create_folder("notes/daily", r)).unwrap();
    assert!(fs.is_dir("notes/daily"));
}

#[test]
fn move_note_into_folder() {
    let (mut fs, store) = temp_store();
    fs.run(|r| store.create_folder("projects", r)).unwrap();
    write(&mut fs, &store, "readme", "# Readme").unwrap();
    let new_id = fs.run(|r| store.move_note("readme", Some("projects"), r)).unwrap();
    assert_eq!(new_id, "projects/readme");
    assert!(!note_there(&mut fs, &store, "readme"));
    assert!(note_there(&mut fs, &store, "projects/readme"));
}

#[test]
fn move_note_to_root() {
    let (mut fs, store) = temp_store();
    write(&mut fs, &store, "projects/todo", "# Todo").unwrap();
    let new_id = fs.run(|r| store.move_note("projects/todo", None, r)).unwrap();
    assert_eq!(new_id, "todo");
    assert!(note_there(&mut fs, &store, "todo"));
    assert!(!note_there(&mut fs, &store, "projects/todo"));
}

#[test]
fn move_note_refuses_existing_target_and_missing_source() {
    let (mut fs, store) = temp_store();
    write(&mut fs, &store, "a/x", "1").unwrap();
    write(&mut fs, &store, "x", "2").unwrap();
    let e = fs.run(|r| store.move_note("a/x", Some(" "), r)).unwrap_err();
    assert_eq!(e.message(), "Note 'x' already exists");
    let e = fs.run(|r| store.move_note("ghost", None, r)).unwrap_err();
    assert_eq!(e.message(), "Note 'ghost' not found");
    assert_eq!(fs.run(|r| store.move_note("x", None, r)).unwrap(), "x");
}

#[test]
fn move_folder_to_root() {
    let (mut fs, store) = temp_store();
    fs.run(|r| store.create_folder("archive/old", r)).unwrap();
    write(&mut fs, &store, "archive/old/note", "# N").unwrap();
    let new_path = fs.run(|r| store.move_folder("archive/old", None, r)).unwrap();
    assert_eq!(new_path, "old");
    assert!(fs.is_dir("old"));
    assert!(note_there(&mut fs, &store, "old/note"));
    assert!(!fs.is_dir("archive/old") && !fs.is_file("archive/old"));
}

#[test]
fn move_folder_into_folder() {
    let (mut fs, store) = temp_store();
    fs.run(|r| store.create_folder("src", r)).unwrap();
    fs.run(|r| store.create_folder("docs", r)).unwrap();
    write(&mut fs, &store, "src/readme", "# R").unwrap();
    let new_path = fs.run(|r| store.move_folder("src", Some("docs"), r)).unwrap();
    assert_eq!(new_path, "docs/src");
    assert!(note_there(&mut fs, &store, "docs/src/readme"));
    assert!(!fs.is_dir("src"));
}

#[test]
fn move_folder_into_self_fails() {
    let (mut fs, store) = temp_store();
    fs.run(|r| store.create_folder("a/b", r)).unwrap();
    let e = fs.run(|r| store.move_folder("a", Some("a/b"), r)).unwrap_err();
    assert_eq!(e.kind, ErrorKind::MoveIntoItself);
    assert_eq!(e.message(), "Cannot move folder into itself or a subfolder");
}

#[test]
fn rename_note_updates_slug_and_title() {
    let (mut fs, store) = temp_store();
    write(&mut fs, &store, "hello", "# Hello\n\nBody").unwrap();
    let new_id = fs.run(|r| store.rename_note("hello", "World", r)).unwrap();
    assert_eq!(new_id, "world");
    assert!(!note_there(&mut fs, &store, "hello"));
    let content = read(&mut fs, &store, "world").unwrap();
    assert!(content.starts_with("# World"));
}

#[test]
fn rename_note_in_place_and_errors() {
    let (mut fs, store) = temp_store();
    write(&mut fs, &store, "dir/hello", "Body").unwrap();
    assert_eq!(fs.run(|r| store.rename_note("dir/hello", " Hello ", r)).unwrap(), "dir/hello");
    assert_eq!(read(&mut fs, &store, "dir/hello").unwrap(), "# Hello\n\nBody");
    assert_eq!(fs.run(|r| store.rename_note("dir/hello", "  ", r)).unwrap_err().kind, ErrorKind::EmptyTitle);
    assert_eq!(fs.run(|r| store.rename_note("dir/hello", "?!", r)).unwrap_err().kind, ErrorKind::EmptySlug);
}

#[test]
fn rename_folder_in_place() {
    let (mut fs, store) = temp_store();
    fs.run(|r| store.create_folder("old", r)).unwrap();
    write(&mut fs, &store, "old/note", "# N").unwrap();
    let new_path = fs.run(|r| store.rename_folder("old", "new", r)).unwrap();
    assert_eq!(new_path, "new");
    assert!(note_there(&mut fs, &store, "new/note"));
    assert!(!fs.is_dir("old"));
}

#[test]
fn delete_folder_removes_contents() {
    let (mut fs, store) = temp_store();
    fs.run(|r| store.create_folder("tmp", r)).unwrap();
    write(&mut fs, &store, "tmp/a", "# A").unwrap();
    fs.run(|r| store.delete_folder("tmp", r)).unwrap();
    assert!(!fs.is_dir("tmp"));
    assert!(!note_there(&mut fs, &store, "tmp/a"));
    let e = fs.run(|r| store.delete_folder("tmp", r)).unwrap_err();
    assert_eq!(e.message(), "Folder 'tmp' not found");
}

// ── note graph ─────────────────────────────────────────────────────────

fn graph(fs: &mut MemFs, store: &Store, slug: &str) -> Result<NoteGraph, StoreError> {
    let notes = store.list_notes(fs.md_files());
    fs.run(|r| store.note_graph(slug, &notes, r))
}

#[test]
fn note_graph_outgoing_and_backlinks() {
    let (mut fs, store) = temp_store();
    write(&mut fs, &store, "alpha", "# Alpha\n\nSee [[Beta]].").unwrap();
    write(&mut fs, &store, "beta", "# Beta\n\nLinks to [[Alpha]].").unwrap();
    write(&mut fs, &store, "lonely", "# Lonely\n\nNo links.").unwrap();

    let graph = graph(&mut fs, &store, "alpha").unwrap();
    assert_eq!(graph.outgoing.len(), 1);
    assert_eq!(graph.outgoing[0].slug, "beta");
    assert_eq!(graph.backlinks.len(), 1);
    assert_eq!(graph.backlinks[0].slug, "beta");
}

#[test]
fn note_graph_matches_ids_and_ignores_case() {
    let (mut fs, store) = temp_store();
    write(&mut fs, &store, "alpha", "# Alpha\n\n[[GAMMA-note]] [[nothing]]").unwrap();
    write(&mut fs, &store, "gamma-note", "# Gamma\n\nsee [[alpha]]").unwrap();
    write(&mut fs, &store, "delta", "[[ALPHA]]").unwrap();
    let g = graph(&mut fs, &store, "Alpha").unwrap();
    assert_eq!(g.outgoing.len(), 1);
    assert_eq!(g.outgoing[0].title, "Gamma");
    let mut back: Vec<&str> = g.backlinks.iter().map(|l| l.slug.as_str()).collect();
    back.sort();
    assert_eq!(back, vec!["delta", "gamma-note"]);
    assert_eq!(graph(&mut fs, &store, "ghost").unwrap_err().kind, ErrorKind::NoteNotFound);
}

// ── create a note from a title ─────────────────────────────────────────

#[test]
fn create_note_slugifies_title_in_folder() {
    let (mut fs, store) = temp_store();
    let id = fs.run(|r| store.create_note(Some("Projects"), "My Idea", "# My Idea\n\nbody", r)).unwrap();
    assert_eq!(id, "Projects/my-idea");
    assert_eq!(read(&mut fs, &store, "Projects/my-idea").unwrap(), "# My Idea\n\nbody");
}

#[test]
fn create_note_blank_folder_means_root() {
    let (mut fs, store) = temp_store();
    let id = fs.run(|r| store.create_note(Some("   "), "  Hello World ", "x", r)).unwrap();
    assert_eq!(id, "hello-world");
    let id2 = fs.run(|r| store.create_note(None, "Other", "y", r)).unwrap();
    assert_eq!(id2, "other");
    assert!(note_there(&mut fs, &store, "hello-world"));
}

#[test]
fn create_note_refuses_existing_note() {
    let (mut fs, store) = temp_store();
    write(&mut fs, &store, "taken", "old").unwrap();
    let e = fs.run(|r| store.create_note(None, "Taken", "new", r)).unwrap_err();
    assert_eq!(e.kind, ErrorKind::NoteExists);
    assert_eq!(e.message(), "Note 'taken' already exists");
    assert_eq!(read(&mut fs, &store, "taken").unwrap(), "old");
}

#[test]
fn create_note_title_without_slug_is_refused() {
    let (mut fs, store) = temp_store();
    let e = fs.run(|r| store.create_note(None, "!!!", "x", r)).unwrap_err();
    assert_eq!(e.kind, ErrorKind::EmptySlug);
    assert!(list(&fs, &store).is_empty());
}

#[test]
fn list_tree_note_times_fall_back_to_modified() {
    let (mut fs, store) = temp_store();
    write(&mut fs, &store, "solo", "# Solo").unwrap();
    let tree = store.list_tree(fs.walk("")).unwrap();
    match &tree[0] {
        VaultNode::Note { created, modified, .. } => {
            assert_eq!(created, modified);
            assert_eq!(modified.len(), 16);
            assert_eq!(&modified[4..5], "-");
            assert_eq!(&modified[13..14], ":");
        }
        _ => panic!("expected a note"),
    }
}

#[test]
fn move_nested_note_to_root_gets_its_slug() {
    let (mut fs, store) = temp_store();
    write(&mut fs, &store, "a/My Note", "# Mine").unwrap();
    let new_id = fs.run(|r| store.move_note("a/My Note", None, r)).unwrap();
    assert_eq!(new_id, "my-note");
    assert_eq!(read(&mut fs, &store, &new_id).unwrap(), "# Mine");
    assert!(!note_there(&mut fs, &store, "a/My Note"));
    let e = fs.run(|r| store.move_note("a/!!!", None, r));
    assert!(e.is_err());
}

#[test]
fn list_tree_folder_path_keeps_dots() {
    let (mut fs, store) = temp_store();
    fs.run(|r| store.create_folder("v1.2", r)).unwrap();
    write(&mut fs, &store, "v1.2/notes", "# N").unwrap();
    let tree = store.list_tree(fs.walk("")).unwrap();
    match &tree[0] {
        VaultNode::Folder { name, path, children } => {
            assert_eq!(name, "v1.2");
            assert_eq!(path, "v1.2");
            assert_eq!(children.len(), 1);
        }
        _ => panic!("expected a folder"),
    }
}
