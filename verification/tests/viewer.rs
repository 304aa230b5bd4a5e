use cobblestone::desktop::{
    indicator_class, indicator_text, item_class, item_meta, mode_button_class, mode_button_text,
    new_note_title, next_theme, save_button_class, save_label, sidebar_visible_notes, tag_label,
    DesktopCommand, DesktopEvent, DesktopState, NoteContent, NoteInfo,
};
use cobblestone::note::{FileMeta, FileTime, Note};
use cobblestone::tui::{Action, App, ContentSource, Event, KeyCode, KeyPress, UiMode};

fn note(name: &str, title: &str, preview: &str) -> Note {
    let meta = FileMeta { size: 1, created: None, modified: Some(FileTime { secs: 10, nanos: 0 }) };
    let mut n = Note::from_path("/v", &format!("/v/{name}.md"), Some(format!("# {title}\n{preview}")), Some(meta)).unwrap();
    n.modified = "2026-01-01 10:00".to_string();
    n
}

fn key(c: char) -> Event {
    Event::Key(KeyPress { code: KeyCode::Char(c), control: false })
}

fn ctrl(c: char) -> Event {
    Event::Key(KeyPress { code: KeyCode::Char(c), control: true })
}

fn code(k: KeyCode) -> Event {
    Event::Key(KeyPress { code: k, control: false })
}

fn three() -> App {
    App::new(vec![note("a", "Apple", "red fruit"), note("b", "Banana", "yellow"), note("c", "Cherry", "red")])
}

#[test]
fn viewer_navigation_and_scroll() {
    let mut app = three();
    assert!(matches!(app.step(key('j')), Action::Nothing));
    assert_eq!(app.selected, 1);
    app.step(code(KeyCode::Down));
    app.step(code(KeyCode::Down));
    assert_eq!(app.selected, 2);
    app.step(ctrl('d'));
    assert_eq!(app.scroll, 8);
    app.step(key('d'));
    assert_eq!(app.scroll, 8);
    app.step(code(KeyCode::PageUp));
    app.step(code(KeyCode::PageUp));
    assert_eq!(app.scroll, 0);
    app.step(key('k'));
    assert_eq!(app.selected, 1);
    assert!(matches!(app.step(key('q')), Action::Quit));
    assert!(matches!(app.step(ctrl('c')), Action::Quit));
    assert!(matches!(app.step(key('c')), Action::Nothing));
}

#[test]
fn viewer_search_filters() {
    let mut app = three();
    app.step(key('/'));
    assert!(matches!(app.mode, UiMode::Search));
    app.step(key('R'));
    app.step(key('e'));
    app.step(key('d'));
    assert_eq!(app.search, "Red");
    assert_eq!(app.visible_notes(), vec![0, 2]);
    assert_eq!(app.sidebar_title(), " / Red ");
    app.step(code(KeyCode::Backspace));
    assert_eq!(app.search, "Re");
    app.step(code(KeyCode::Enter));
    assert!(matches!(app.mode, UiMode::Normal));
    assert_eq!(app.sidebar_title(), " 🪨  Notes (3) ");
    assert_eq!(app.content_title(), " Apple ");
    match app.content_source() {
        ContentSource::Read(n) => assert_eq!(n, "a"),
        _ => panic!("expected a note to read"),
    }
}

#[test]
fn viewer_new_note_flow() {
    let mut app = three();
    app.step(key('n'));
    for c in "  My Note ".chars() {
        app.step(key(c));
    }
    match &app.popup() {
        Some(p) => assert_eq!(p.text, "New note title:\n\n>   My Note _"),
        None => panic!("expected a pop-up"),
    }
    match app.step(code(KeyCode::Enter)) {
        Action::CheckExists(name) => assert_eq!(name, "my-note"),
        _ => panic!("expected an existence check"),
    }
    match app.step(Event::Exists(false)) {
        Action::Write { name, content } => {
            assert_eq!(name, "my-note");
            assert_eq!(content, "# My Note\n\n");
        }
        _ => panic!("expected a write"),
    }
    assert!(matches!(app.step(Event::Written(Ok(()))), Action::Refresh));
    let mut notes = vec![note("my-note", "My Note", "")];
    notes.extend(vec![note("a", "Apple", "x")]);
    match app.step(Event::Listed(Ok(notes))) {
        Action::Edit(name) => assert_eq!(name, "my-note"),
        _ => panic!("expected an edit"),
    }
    assert_eq!(app.selected, 0);
    assert!(matches!(app.step(Event::Edited(Ok(()))), Action::Refresh));
    assert!(matches!(app.step(Event::Listed(Err("boom".into()))), Action::Nothing));
    assert!(matches!(app.mode, UiMode::Normal));
}

#[test]
fn viewer_new_note_that_exists() {
    let mut app = three();
    app.step(key('n'));
    app.step(key('a'));
    app.step(code(KeyCode::Enter));
    app.step(Event::Exists(true));
    match &app.mode {
        UiMode::Message { text } => assert_eq!(text, "Note 'a' already exists. Press 'e' to edit."),
        _ => panic!("expected a message"),
    }
    assert_eq!(app.status_text(), " Press any key to dismiss ");
    app.step(key('x'));
    assert!(matches!(app.mode, UiMode::Normal));
}

#[test]
fn viewer_delete_flow() {
    let mut app = three();
    app.step(key('j'));
    app.step(key('D'));
    match &app.mode {
        UiMode::Confirm { note_name } => assert_eq!(note_name, "b"),
        _ => panic!("expected a confirmation"),
    }
    match app.step(key('y')) {
        Action::Delete(name) => assert_eq!(name, "b"),
        _ => panic!("expected a delete"),
    }
    assert!(matches!(app.step(Event::Deleted(Ok(()))), Action::Refresh));
    app.step(Event::Listed(Ok(vec![note("a", "Apple", ""), note("c", "Cherry", "")])));
    assert!(matches!(app.mode, UiMode::Normal));
    assert_eq!(app.selected, 1);
}

#[test]
fn viewer_errors_and_edit() {
    let mut app = three();
    match app.step(key('e')) {
        Action::Edit(name) => assert_eq!(name, "a"),
        _ => panic!("expected an edit"),
    }
    app.step(Event::Edited(Err("editor failed".into())));
    match &app.mode {
        UiMode::Message { text } => assert_eq!(text, "Error: editor failed"),
        _ => panic!("expected a message"),
    }
    let mut empty = App::new(vec![]);
    assert!(matches!(empty.step(key('e')), Action::Nothing));
    match empty.content_source() {
        ContentSource::Text(t) => assert_eq!(t, "No notes yet.\n\nPress  n  to create your first note."),
        _ => panic!("expected a hint"),
    }
    assert_eq!(empty.content_title(), " Welcome ");
    assert_eq!(empty.list_selection(), None);
}

#[test]
fn viewer_refresh_follows_note() {
    let mut app = three();
    app.step(key('j'));
    app.refresh(vec![note("z", "Zed", ""), note("b", "Banana", ""), note("a", "Apple", "")]);
    assert_eq!(app.selected, 1);
    app.refresh(vec![note("q", "Q", "")]);
    assert_eq!(app.selected, 0);
    app.refresh(vec![]);
    assert_eq!(app.selected, 0);
    let items = three().list_items();
    assert_eq!(items[1], ("Banana".to_string(), "  2026-01-01 10:00".to_string()));
}

fn info(slug: &str, title: &str, preview: &str, size: u64) -> NoteInfo {
    NoteInfo {
        slug: slug.into(),
        title: title.into(),
        modified: "m".into(),
        size,
        preview: preview.into(),
        tags: vec![],
    }
}

#[test]
fn desktop_open_edit_save_delete() {
    let mut d = DesktopState::new();
    assert!(matches!(DesktopState::start()[0], DesktopCommand::LoadNotes));
    d.step(DesktopEvent::NotesLoaded(Ok(vec![info("a", "A", "", 0)])));
    assert_eq!(d.notes.len(), 1);
    let cmds = d.step(DesktopEvent::Select("a".into()));
    assert!(matches!(&cmds[0], DesktopCommand::GetNote(s) if s == "a"));
    let opened = NoteContent::of("a".into(), "# Title\n\nbody".into());
    assert_eq!(opened.title, "Title");
    d.step(DesktopEvent::Opened { slug: "a".into(), result: Ok(opened) });
    assert_eq!(d.active_slug.as_deref(), Some("a"));
    assert!(!d.is_dirty);
    d.step(DesktopEvent::ContentChanged("new".into()));
    assert!(d.is_dirty);
    assert_eq!(save_label(d.is_dirty), "● Save");
    let cmds = d.step(DesktopEvent::KeyDown { ctrl_or_meta: true, key: "s".into() });
    assert!(matches!(&cmds[0], DesktopCommand::SaveNote { slug, content } if slug == "a" && content == "new"));
    assert!(d.step(DesktopEvent::KeyDown { ctrl_or_meta: false, key: "s".into() }).is_empty());
    d.step(DesktopEvent::Saved(Ok(())));
    assert!(!d.is_dirty);
    let cmds = d.step(DesktopEvent::DeletePressed);
    assert!(matches!(&cmds[0], DesktopCommand::DeleteNote(s) if s == "a"));
    d.step(DesktopEvent::Deleted(Ok(())));
    assert!(d.active_slug.is_none());
    assert!(d.step(DesktopEvent::SavePressed).is_empty());
    d.step(DesktopEvent::Created(Err("Note 'x' already exists".into())));
    assert_eq!(d.error_msg.as_deref(), Some("Note 'x' already exists"));
    d.step(DesktopEvent::DismissError);
    assert!(d.error_msg.is_none());
}

#[test]
fn desktop_sidebar_and_labels() {
    let notes = vec![info("a", "Apple", "crunchy", 0), info("b", "Bread", "Fresh", 12)];
    assert_eq!(sidebar_visible_notes(&notes, ""), vec![0, 1]);
    assert_eq!(sidebar_visible_notes(&notes, "FRESH"), vec![1]);
    assert_eq!(sidebar_visible_notes(&notes, "a"), vec![0, 1]);
    assert_eq!(new_note_title("", 1700), "Note 1700");
    assert_eq!(new_note_title("Idea", 1700), "Idea");
    assert_eq!(item_meta("m", 12), "m · 12 B");
    assert_eq!(item_meta("m", 0), "m");
    assert_eq!(next_theme("dark"), "light");
    assert_eq!(next_theme(""), "dark");
}

#[test]
fn desktop_toolbar_classes_and_texts() {
    assert_eq!(item_class(true), "note-item active");
    assert_eq!(item_class(false), "note-item");
    assert_eq!(tag_label("rust"), "#rust");
    assert_eq!(save_label(false), "Saved");
    assert_eq!(indicator_class(true), "edit-indicator unsaved");
    assert_eq!(indicator_class(false), "edit-indicator");
    assert_eq!(indicator_text(true), "unsaved");
    assert_eq!(indicator_text(false), "saved");
    assert_eq!(mode_button_class(true), "tb-btn");
    assert_eq!(mode_button_class(false), "tb-btn active");
    assert_eq!(mode_button_text(true), "Preview");
    assert_eq!(mode_button_text(false), "Edit");
    assert_eq!(save_button_class(true), "tb-btn primary");
    assert_eq!(save_button_class(false), "tb-btn primary dimmed");
}

#[test]
fn note_info_from_note_copies_listing() {
    let mut n = note("ideas", "Ideas", "first line #tag");
    n.tags = vec!["tag".to_string()];
    let i = NoteInfo::from_note(&n);
    assert_eq!(i.slug, "ideas");
    assert_eq!(i.title, "Ideas");
    assert_eq!(i.modified, "2026-01-01 10:00");
    assert_eq!(i.size, 1);
    assert_eq!(i.preview, n.preview);
    assert_eq!(i.tags, vec!["tag".to_string()]);
}

fn stamp_like(s: &str) -> bool {
    let c: Vec<char> = s.chars().collect();
    let n = c.len();
    let d = |i: usize| c[i].is_ascii_digit();
    n >= 16
        && c[n - 12] == '-'
        && c[n - 9] == '-'
        && c[n - 6] == ' '
        && c[n - 3] == ':'
        && [11, 10, 8, 7, 5, 4, 2, 1].iter().all(|k| d(n - k))
        && c[..n - 12].iter().all(|x| x.is_ascii_digit())
}

#[test]
fn note_times_are_formatted_as_date_and_minute() {
    let meta = FileMeta {
        size: 3,
        created: Some(FileTime { secs: 0, nanos: 0 }),
        modified: Some(FileTime { secs: 1_700_000_000, nanos: 5 }),
    };
    let n = Note::from_path("/v", "/v/a.md", Some("abc".to_string()), Some(meta)).unwrap();
    assert!(stamp_like(&n.modified), "{}", n.modified);
    assert!(stamp_like(&n.created), "{}", n.created);
    assert!(n.modified.starts_with("2023-11-1"));
}

#[test]
fn viewer_refresh_keeps_cursor_under_filter() {
    let mut app = three();
    app.step(key('/'));
    app.step(key('C'));
    app.step(key('h'));
    app.step(code(KeyCode::Enter));
    assert_eq!(app.visible_notes(), vec![2]);
    assert_eq!(app.selected, 0);
    app.refresh(vec![note("a", "Apple", "red fruit"), note("b", "Banana", "yellow"), note("c", "Cherry", "red")]);
    assert_eq!(app.selected, 0);
    assert_eq!(app.current_note_name(), Some("c".to_string()));
    app.refresh(vec![note("x", "Chives", ""), note("c", "Cherry", ""), note("y", "Chard", "")]);
    assert_eq!(app.visible_notes(), vec![0, 1, 2]);
    assert_eq!(app.selected, 1);
    app.refresh(vec![note("x", "Chives", "")]);
    assert_eq!(app.selected, 0);
    match app.content_source() {
        ContentSource::Read(n) => assert_eq!(n, "x"),
        _ => panic!("expected a note to read"),
    }
}
