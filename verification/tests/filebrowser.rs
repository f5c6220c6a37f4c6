use mailc::app::{App, BrowserPurpose, ComposeState};
use mailc::filebrowser::{Activation, EntryMetadata, FileBrowser, ListedEntry};
use mailc::keys::{handle_key, Effect, Key, Session};

fn listed(name: &str, dir: bool, len: u64) -> ListedEntry {
    ListedEntry { name: name.to_string(), metadata: Some(EntryMetadata { is_dir: dir, len }) }
}

fn names(b: &FileBrowser) -> Vec<String> {
    b.entries.iter().map(|e| e.name.clone()).collect()
}

#[test]
fn reload_lists_parent_then_directories_then_files_sorted_case_insensitively() {
    let listing = vec![
        listed("zeta.txt", false, 3),
        listed("Beta", true, 0),
        listed(".hidden", false, 1),
        listed("alpha.txt", false, 5),
        listed("Alpha", true, 0),
        ListedEntry { name: "broken".to_string(), metadata: None },
    ];
    let b = FileBrowser::open("/home/u".to_string(), Ok(listing));
    assert_eq!(names(&b), vec!["..", "Alpha", "Beta", "alpha.txt", "zeta.txt"]);
    assert_eq!(b.entries[3].size, 5);
    assert!(b.entries[1].is_dir && !b.entries[3].is_dir);
    assert!(b.error.is_none());
}

#[test]
fn a_root_has_no_parent_row_and_a_failed_listing_shows_an_error() {
    let b = FileBrowser::open("/".to_string(), Err("permission denied".to_string()));
    assert!(b.entries.is_empty());
    assert_eq!(b.error.as_deref(), Some("/: permission denied"));
}

#[test]
fn activate_enters_directories_and_picks_files() {
    let mut b = FileBrowser::open(
        "/home/u".to_string(),
        Ok(vec![listed("docs", true, 0), listed("a.txt", false, 1)]),
    );
    b.move_down();
    assert!(matches!(b.activate(), Activation::Entered));
    assert_eq!(b.current_dir, "/home/u/docs");
    b.reload(Ok(vec![listed("a.txt", false, 1)]));
    b.move_down();
    match b.activate() {
        Activation::Picked(p) => assert_eq!(p, "/home/u/docs/a.txt"),
        _ => panic!("expected a pick"),
    }
    b.move_up();
    assert!(matches!(b.activate(), Activation::Entered));
    assert_eq!(b.current_dir, "/home/u");
}

#[test]
fn save_path_joins_the_trimmed_filename() {
    let mut b = FileBrowser::open_for_save("/tmp".to_string(), Ok(vec![]), "  notes.txt ".to_string());
    assert_eq!(b.save_path(), Some("/tmp/notes.txt".to_string()));
    b.filename.as_mut().unwrap().value = "   ".to_string();
    assert_eq!(b.save_path(), None);
    b.toggle_focus();
    assert!(b.filename_focused);
}

#[test]
fn browser_keys_pick_a_file_to_attach() {
    let mut app = App::new("me@example.com".to_string());
    app.compose = Some(ComposeState::blank());
    let b = FileBrowser::open("/home/u".to_string(), Ok(vec![listed("a.txt", false, 1)]));
    app.file_browser = Some((b, BrowserPurpose::AttachToCompose));
    let mut s = Session { accounts: 1, current: 0, spellcheck: false };
    handle_key(&mut app, Key::Char('j'), false, &mut s);
    match handle_key(&mut app, Key::Enter, false, &mut s) {
        Effect::ValidateAttachment(p) => assert_eq!(p, "/home/u/a.txt"),
        _ => panic!("expected a check of the picked file"),
    }
    handle_key(&mut app, Key::Esc, false, &mut s);
    assert!(app.file_browser.is_none());
}

#[test]
fn saving_prefills_the_name_of_a_picked_file_and_writes_on_enter() {
    let mut app = App::new("me@example.com".to_string());
    let b = FileBrowser::open_for_save("/tmp".to_string(), Ok(vec![listed("old.txt", false, 1)]), "new.txt".to_string());
    app.file_browser = Some((b, BrowserPurpose::SaveAttachment { bytes: b"data".to_vec() }));
    let mut s = Session { accounts: 1, current: 0, spellcheck: false };
    handle_key(&mut app, Key::Char('j'), false, &mut s);
    handle_key(&mut app, Key::Enter, false, &mut s);
    {
        let (b, _) = app.file_browser.as_ref().unwrap();
        assert!(b.filename_focused);
        assert_eq!(b.filename.as_ref().unwrap().value, "old.txt");
    }
    handle_key(&mut app, Key::Backspace, false, &mut s);
    match handle_key(&mut app, Key::Enter, false, &mut s) {
        Effect::WriteFile { path, bytes } => {
            assert_eq!(path, "/tmp/old.tx");
            assert_eq!(bytes, b"data".to_vec());
        }
        _ => panic!("expected a write"),
    }
    app.save_finished("/tmp/old.tx".to_string(), Ok(()));
    assert!(app.file_browser.is_none());
    assert_eq!(app.status_message.as_deref(), Some("Saved to /tmp/old.tx"));
}
