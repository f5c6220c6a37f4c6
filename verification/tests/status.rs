use mailc::app::{App, IDLE_REDRAW_MS, STATUS_TTL_MS};

#[test]
fn status_stays_until_its_time_is_up() {
    let mut app = App::new("me@example.com".to_string());
    app.set_status("Sent.".to_string());
    assert_eq!(app.expire_status(0), IDLE_REDRAW_MS);
    assert_eq!(app.status_message.as_deref(), Some("Sent."));
    assert_eq!(app.expire_status(4800), 200);
    assert_eq!(app.status_message.as_deref(), Some("Sent."));
}

#[test]
fn status_clears_after_five_seconds() {
    let mut app = App::new("me@example.com".to_string());
    app.set_status("Sent.".to_string());
    assert_eq!(app.expire_status(STATUS_TTL_MS), IDLE_REDRAW_MS);
    assert_eq!(app.status_message, None);
}

#[test]
fn no_status_means_idle_redraws() {
    let mut app = App::new("me@example.com".to_string());
    assert_eq!(app.expire_status(123_456), IDLE_REDRAW_MS);
    assert_eq!(app.status_message, None);
}
