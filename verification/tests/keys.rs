use mailc::app::{App, BodyState, ComposeField, ComposeState, ListState};
use mailc::attach::AttachmentEntry;
use mailc::keys::{handle_key, Effect, Key, Session};
use mailc::types::{Address, Envelope, Flags, Message, MessageAttachment};

fn env(uid: u32, subject: &str, from: &str) -> Envelope {
    Envelope {
        uid,
        subject: subject.to_string(),
        from: vec![Address { name: None, email: from.to_string() }],
        to: vec![],
        date: None,
        flags: Flags { seen: false, answered: false, flagged: false, deleted: false, draft: false },
    }
}

fn app_with(n: u32) -> App {
    let mut app = App::new("me@example.com".to_string());
    for i in 0..n {
        app.envelopes.push(env(100 - i, &format!("subject {i}"), "alice@example.com"));
    }
    app.list_state = ListState::Loaded;
    app
}

fn session(accounts: usize) -> Session {
    Session { accounts, current: 0, spellcheck: true }
}

fn press(app: &mut App, s: &mut Session, key: Key) -> Effect {
    handle_key(app, key, false, s)
}

#[test]
fn q_quits_and_esc_clears_a_filter_before_quitting() {
    let mut app = app_with(3);
    let mut s = session(1);
    press(&mut app, &mut s, Key::Char('/'));
    press(&mut app, &mut s, Key::Char('x'));
    press(&mut app, &mut s, Key::Enter);
    assert!(app.search.is_some());
    press(&mut app, &mut s, Key::Esc);
    assert!(app.search.is_none());
    assert!(!app.should_quit);
    press(&mut app, &mut s, Key::Esc);
    assert!(app.should_quit);
}

#[test]
fn j_k_gg_and_g_move_the_selection() {
    let mut app = app_with(5);
    app.has_more_older = false;
    let mut s = session(1);
    press(&mut app, &mut s, Key::Char('j'));
    press(&mut app, &mut s, Key::Down);
    assert_eq!(app.selected, 2);
    press(&mut app, &mut s, Key::Char('k'));
    assert_eq!(app.selected, 1);
    press(&mut app, &mut s, Key::Char('G'));
    assert_eq!(app.selected, 4);
    press(&mut app, &mut s, Key::Char('g'));
    assert!(app.pending_g);
    assert_eq!(app.selected, 4);
    press(&mut app, &mut s, Key::Char('g'));
    assert_eq!(app.selected, 0);
    assert!(!app.pending_g);
}

#[test]
fn a_key_between_two_gs_cancels_the_pending_one() {
    let mut app = app_with(5);
    app.has_more_older = false;
    let mut s = session(1);
    press(&mut app, &mut s, Key::Char('G'));
    press(&mut app, &mut s, Key::Char('g'));
    press(&mut app, &mut s, Key::Char('k'));
    press(&mut app, &mut s, Key::Char('g'));
    assert_eq!(app.selected, 3);
    assert!(app.pending_g);
}

#[test]
fn ctrl_d_and_ctrl_u_move_ten_rows() {
    let mut app = app_with(25);
    app.has_more_older = false;
    let mut s = session(1);
    handle_key(&mut app, Key::Char('d'), true, &mut s);
    assert_eq!(app.selected, 10);
    handle_key(&mut app, Key::Char('d'), true, &mut s);
    handle_key(&mut app, Key::Char('d'), true, &mut s);
    assert_eq!(app.selected, 24);
    handle_key(&mut app, Key::Char('u'), true, &mut s);
    assert_eq!(app.selected, 14);
}

#[test]
fn reaching_the_end_of_the_list_asks_for_older_mail_once() {
    let mut app = app_with(2);
    let mut s = session(1);
    assert!(matches!(press(&mut app, &mut s, Key::Char('j')), Effect::FetchOlder));
    assert!(app.loading_more);
    assert!(matches!(press(&mut app, &mut s, Key::Char('j')), Effect::Nothing));
}

#[test]
fn enter_fetches_the_selected_body_and_d_then_y_deletes() {
    let mut app = app_with(3);
    let mut s = session(1);
    press(&mut app, &mut s, Key::Char('j'));
    assert!(matches!(press(&mut app, &mut s, Key::Enter), Effect::FetchBody(99)));
    assert!(matches!(app.body, BodyState::Loading));
    assert!(matches!(press(&mut app, &mut s, Key::Char('d')), Effect::Nothing));
    assert_eq!(app.confirm_delete, Some(99));
    assert!(matches!(press(&mut app, &mut s, Key::Char('y')), Effect::DeleteMessage(99)));
    assert_eq!(app.status_message.as_deref(), Some("Deleting..."));
    assert_eq!(app.confirm_delete, None);
}

#[test]
fn any_other_key_cancels_a_delete_confirmation() {
    let mut app = app_with(3);
    let mut s = session(1);
    press(&mut app, &mut s, Key::Char('d'));
    assert!(matches!(press(&mut app, &mut s, Key::Char('n')), Effect::Nothing));
    assert_eq!(app.confirm_delete, None);
    assert_eq!(app.selected, 0, "the cancelling key does nothing else");
}

#[test]
fn search_filters_and_falls_back_to_the_server_when_nothing_matches() {
    let mut app = app_with(3);
    let mut s = session(1);
    press(&mut app, &mut s, Key::Char('/'));
    for c in "zzz".chars() {
        press(&mut app, &mut s, Key::Char(c));
    }
    match press(&mut app, &mut s, Key::Enter) {
        Effect::SearchServer(q) => assert_eq!(q, "zzz"),
        _ => panic!("expected a server search"),
    }
    assert!(!app.search_editing);
    assert_eq!(app.status_message.as_deref(), Some("Searching server for \"zzz\"..."));
}

#[test]
fn compose_typing_tab_and_send() {
    let mut app = app_with(1);
    let mut s = session(1);
    assert!(matches!(press(&mut app, &mut s, Key::Char('c')), Effect::ReloadSpellchecker));
    for c in "bob@example.com".chars() {
        press(&mut app, &mut s, Key::Char(c));
    }
    press(&mut app, &mut s, Key::Tab);
    press(&mut app, &mut s, Key::Tab);
    press(&mut app, &mut s, Key::Tab);
    for c in "Hi".chars() {
        press(&mut app, &mut s, Key::Char(c));
    }
    press(&mut app, &mut s, Key::BackTab);
    press(&mut app, &mut s, Key::Tab);
    press(&mut app, &mut s, Key::Tab);
    press(&mut app, &mut s, Key::Tab);
    assert_eq!(app.compose.as_ref().unwrap().focus, ComposeField::Body);
    match press(&mut app, &mut s, Key::Char('x')) {
        Effect::CheckLine { index, text } => {
            assert_eq!(index, 0);
            assert_eq!(text, "x");
        }
        _ => panic!("expected a line check"),
    }
    assert!(matches!(press(&mut app, &mut s, Key::Enter), Effect::CheckBody(t) if t == "x\n"));
    match handle_key(&mut app, Key::Char('s'), true, &mut s) {
        Effect::Send { draft, attachments } => {
            assert_eq!(draft.to, "bob@example.com");
            assert_eq!(draft.subject, "Hi");
            assert_eq!(draft.body, "x\n");
            assert!(attachments.is_empty());
        }
        _ => panic!("expected a send"),
    }
    assert!(app.compose.as_ref().unwrap().sending);
    assert!(matches!(press(&mut app, &mut s, Key::Esc), Effect::Nothing));
    assert!(app.compose.is_some(), "keys are ignored while sending");
}

#[test]
fn esc_discards_the_draft() {
    let mut app = app_with(1);
    let mut s = session(1);
    press(&mut app, &mut s, Key::Char('c'));
    press(&mut app, &mut s, Key::Esc);
    assert!(app.compose.is_none());
}

#[test]
fn reply_prefills_the_recipient_and_subject() {
    let mut app = app_with(1);
    let mut s = session(1);
    press(&mut app, &mut s, Key::Char('r'));
    let c = app.compose.as_ref().unwrap();
    assert_eq!(c.to.value, "alice@example.com");
    assert_eq!(c.subject.value, "Re: subject 0");
    assert_eq!(c.focus, ComposeField::Body);
}

#[test]
fn recipient_suggestions_drop_down_and_are_accepted() {
    let mut app = app_with(1);
    app.known_senders = vec![
        Address { name: Some("Alice".to_string()), email: "alice@example.com".to_string() },
        Address { name: Some("Bob".to_string()), email: "bob@example.com".to_string() },
    ];
    let mut s = session(1);
    press(&mut app, &mut s, Key::Char('c'));
    for c in "x@y.z, bo".chars() {
        press(&mut app, &mut s, Key::Char(c));
    }
    assert_eq!(app.compose.as_ref().unwrap().suggestions.items.len(), 1);
    press(&mut app, &mut s, Key::Enter);
    let c = app.compose.as_ref().unwrap();
    assert_eq!(c.to.value, "x@y.z, bob@example.com");
    assert!(c.suggestions.items.is_empty());
    assert_eq!(c.focus, ComposeField::To, "accepting does not move focus");
}

#[test]
fn tab_and_digits_switch_accounts() {
    let mut app = app_with(3);
    app.selected = 2;
    let mut s = session(3);
    assert!(matches!(press(&mut app, &mut s, Key::Tab), Effect::SwitchAccount(1)));
    assert_eq!(s.current, 1);
    assert_eq!(app.current_account, 1);
    assert!(app.envelopes.is_empty());
    assert_eq!(app.selected, 0);
    assert!(matches!(press(&mut app, &mut s, Key::BackTab), Effect::SwitchAccount(0)));
    assert!(matches!(press(&mut app, &mut s, Key::BackTab), Effect::SwitchAccount(2)));
    assert!(matches!(press(&mut app, &mut s, Key::Char('1')), Effect::SwitchAccount(0)));
    assert!(matches!(press(&mut app, &mut s, Key::Char('1')), Effect::Nothing));
    assert!(matches!(press(&mut app, &mut s, Key::Char('9')), Effect::Nothing));
}

#[test]
fn a_single_account_ignores_tab() {
    let mut app = app_with(3);
    let mut s = session(1);
    assert!(matches!(press(&mut app, &mut s, Key::Tab), Effect::Nothing));
}

#[test]
fn attachments_of_an_open_message_are_cycled_and_downloaded() {
    let mut app = app_with(1);
    let mut s = session(1);
    app.body = BodyState::Loaded(Message {
        uid: 100,
        subject: "s".to_string(),
        from: vec![],
        to: vec![],
        date: None,
        body_text: String::new(),
        attachments: vec![
            MessageAttachment { filename: "a.txt".to_string(), size_bytes: 2, bytes: b"hi".to_vec() },
            MessageAttachment { filename: "big.bin".to_string(), size_bytes: 99, bytes: vec![] },
        ],
    });
    press(&mut app, &mut s, Key::Char(']'));
    press(&mut app, &mut s, Key::Char(']'));
    assert_eq!(app.selected_attachment, 1);
    assert!(matches!(
        press(&mut app, &mut s, Key::Char('a')),
        Effect::AttachmentTooLarge { filename, size_bytes: 99 } if filename == "big.bin"
    ));
    press(&mut app, &mut s, Key::Char('['));
    assert!(matches!(
        press(&mut app, &mut s, Key::Char('a')),
        Effect::SaveAttachmentAs { filename, bytes } if filename == "a.txt" && bytes == b"hi".to_vec()
    ));
}

#[test]
fn a_draft_over_the_attachment_cap_is_no_consistent_state() {
    let mut app = app_with(1);
    assert!(mailc::keys::state_ok(&app));
    let mut c = ComposeState::blank();
    c.attachments.push(AttachmentEntry { path: "/a".to_string(), filename: "a".to_string(), size_bytes: 20 * 1024 * 1024 });
    app.compose = Some(c);
    assert!(mailc::keys::state_ok(&app));
    app.compose.as_mut().unwrap().attachments.push(AttachmentEntry {
        path: "/b".to_string(),
        filename: "b".to_string(),
        size_bytes: 1,
    });
    assert!(!mailc::keys::state_ok(&app));
}

#[test]
fn a_cursor_past_its_text_is_no_consistent_state() {
    let mut app = app_with(1);
    app.start_search();
    assert!(mailc::keys::state_ok(&app));
    app.search.as_mut().unwrap().cursor = 3;
    assert!(!mailc::keys::state_ok(&app));
}

#[test]
fn d_then_any_other_key_deletes_nothing() {
    let mut app = app_with(2);
    let mut s = session(1);
    assert!(matches!(press(&mut app, &mut s, Key::Char('d')), Effect::Nothing));
    assert_eq!(app.confirm_delete, Some(100));
    assert!(matches!(press(&mut app, &mut s, Key::Char('n')), Effect::Nothing));
    assert_eq!(app.confirm_delete, None);
    assert_eq!(app.envelopes.len(), 2);
    press(&mut app, &mut s, Key::Char('d'));
    assert!(matches!(press(&mut app, &mut s, Key::Char('Y')), Effect::DeleteMessage(100)));
}

#[test]
fn tab_then_shift_tab_comes_back_to_the_same_account() {
    let mut app = app_with(2);
    let mut s = Session { accounts: 3, current: 2, spellcheck: false };
    assert!(matches!(press(&mut app, &mut s, Key::Tab), Effect::SwitchAccount(0)));
    assert!(matches!(press(&mut app, &mut s, Key::BackTab), Effect::SwitchAccount(2)));
    assert_eq!(s.current, 2);
}

#[test]
fn the_filter_shows_exactly_the_matching_messages_in_order() {
    let mut app = App::new("me@example.com".to_string());
    app.envelopes = vec![
        env(5, "Lunch", "bob@example.com"),
        env(4, "Hello ALIce", "carol@example.com"),
        env(3, "Report", "ALICE@example.com"),
        env(2, "Notes", "dave@example.com"),
    ];
    app.envelopes[3].from[0].name = Some("Alicia".to_string());
    app.start_search();
    for c in "ali".chars() {
        app.search.as_mut().unwrap().insert(c);
    }
    assert_eq!(app.visible_indices(), vec![1, 2, 3]);
    app.search = Some(mailc::editable::TextInput::with_value("   "));
    assert_eq!(app.visible_indices(), vec![0, 1, 2, 3]);
    app.search = Some(mailc::editable::TextInput::with_value("zzz"));
    assert!(app.visible_indices().is_empty());
}
