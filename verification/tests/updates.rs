use mailc::app::{App, BodyState, ComposeState, ListState};
use mailc::send::SendOutcome;
use mailc::types::{Address, Envelope, Flags, Message};
use mailc::updates::Followup;

fn env(uid: u32, subject: &str) -> Envelope {
    Envelope {
        uid,
        subject: subject.to_string(),
        from: vec![Address { name: None, email: "a@example.com".to_string() }],
        to: vec![],
        date: None,
        flags: Flags { seen: false, answered: false, flagged: false, deleted: false, draft: false },
    }
}

fn msg(uid: u32) -> Message {
    Message { uid, subject: String::new(), from: vec![], to: vec![], date: None, body_text: "hi".to_string(), attachments: vec![] }
}

#[test]
fn a_resync_keeps_the_selection_on_the_same_message() {
    let mut app = App::new("me@example.com".to_string());
    app.envelopes = vec![env(3, "c"), env(2, "b"), env(1, "a")];
    app.selected = 1;
    let f = app.sync_done(Ok(vec![env(4, "d"), env(3, "c"), env(2, "b"), env(1, "a")]));
    assert_eq!(f, Followup::RefreshSenders);
    assert_eq!(app.selected, 2);
    assert!(matches!(app.list_state, ListState::Loaded));
    app.sync_done(Err("offline".to_string()));
    assert!(matches!(app.list_state, ListState::Error(ref e) if e == "offline"));
}

#[test]
fn a_body_for_a_message_no_longer_selected_is_dropped() {
    let mut app = App::new("me@example.com".to_string());
    app.envelopes = vec![env(3, "c"), env(2, "b")];
    app.body_loaded(2, Ok(msg(2)));
    assert!(matches!(app.body, BodyState::Empty));
    app.body_loaded(3, Ok(msg(3)));
    assert!(matches!(app.body, BodyState::Loaded(ref m) if m.uid == 3));
}

#[test]
fn send_results_close_compose_or_show_the_error() {
    let mut app = App::new("me@example.com".to_string());
    let mut c = ComposeState::blank();
    c.sending = true;
    app.compose = Some(c);
    app.send_finished(Err("smtp down".to_string()));
    let c = app.compose.as_ref().unwrap();
    assert!(!c.sending);
    assert_eq!(c.error.as_deref(), Some("smtp down"));
    app.send_finished(Ok(SendOutcome::Queued));
    assert!(app.compose.is_none());
    assert_eq!(app.status_message.as_deref(), Some("Offline \u{2014} queued, will retry."));
    app.send_finished(Ok(SendOutcome::Sent));
    assert_eq!(app.status_message.as_deref(), Some("Sent."));
}

#[test]
fn a_deleted_message_leaves_the_list() {
    let mut app = App::new("me@example.com".to_string());
    app.envelopes = vec![env(3, "c"), env(2, "b")];
    app.selected = 1;
    app.message_deleted(2, Ok(()));
    assert_eq!(app.envelopes.len(), 1);
    assert_eq!(app.selected, 0);
    assert_eq!(app.status_message.as_deref(), Some("Message deleted."));
    app.message_deleted(3, Err("nope".to_string()));
    assert_eq!(app.status_message.as_deref(), Some("Delete failed: nope"));
}

#[test]
fn fetching_older_mail_stops_when_nothing_older_exists() {
    let mut app = App::new("me@example.com".to_string());
    app.loading_more = true;
    assert_eq!(app.older_fetched(Ok(5)), Followup::ReloadEnvelopes);
    assert!(!app.loading_more && app.has_more_older);
    app.loading_more = true;
    assert_eq!(app.older_fetched(Ok(0)), Followup::Nothing);
    assert!(!app.has_more_older);
}

#[test]
fn server_search_results_merge_newest_first() {
    let mut app = App::new("me@example.com".to_string());
    app.envelopes = vec![env(10, "x"), env(5, "y")];
    app.search = Some(mailc::editable::TextInput::with_value(" q "));
    app.server_search_done("other", Ok(vec![env(7, "z")]));
    assert_eq!(app.envelopes.len(), 2, "a stale query is dropped");
    app.server_search_done("q", Ok(vec![env(5, "y"), env(7, "z"), env(1, "w")]));
    let uids: Vec<u32> = app.envelopes.iter().map(|e| e.uid).collect();
    assert_eq!(uids, vec![10, 7, 5, 1]);
    assert_eq!(app.status_message.as_deref(), Some("Found 2 more match(es) on the server."));
    app.server_search_done("q", Ok(vec![env(7, "z")]));
    assert_eq!(app.status_message.as_deref(), Some("No matches found on the server for \"q\"."));
}

#[test]
fn spellcheck_results_grow_the_per_line_list() {
    let mut app = App::new("me@example.com".to_string());
    app.line_checked(0, vec!["x".to_string()]);
    assert!(app.compose.is_none());
    app.compose = Some(ComposeState::blank());
    app.line_checked(2, vec!["teh".to_string()]);
    let c = app.compose.as_ref().unwrap();
    assert_eq!(c.misspelled_by_line.len(), 3);
    assert!(c.misspelled_by_line[0].is_empty());
    assert_eq!(c.misspelled_by_line[2], vec!["teh".to_string()]);
}
