use mailc::notification::{new_mail_notification, sender_display};
use mailc::types::{Address, Envelope, Flags};

fn env(uid: u32, name: Option<&str>, email: &str, subject: &str) -> Envelope {
    Envelope {
        uid,
        subject: subject.to_string(),
        from: vec![Address { name: name.map(|n| n.to_string()), email: email.to_string() }],
        to: vec![],
        date: None,
        flags: Flags { seen: false, answered: false, flagged: false, deleted: false, draft: false },
    }
}

#[test]
fn no_envelopes_give_no_notification() {
    assert_eq!(new_mail_notification("me@example.com", &vec![]), None);
}

#[test]
fn one_envelope_names_sender_and_subject() {
    let n = new_mail_notification("me@example.com", &vec![env(1, Some("Ann"), "ann@example.com", "Hello")]);
    assert_eq!(
        n,
        Some(("New mail \u{2014} me@example.com".to_string(), "Ann\nHello".to_string()))
    );
}

#[test]
fn sender_falls_back_to_email_then_unknown() {
    assert_eq!(sender_display(&env(1, None, "bob@example.com", "x")), "bob@example.com");
    let mut e = env(2, None, "bob@example.com", "x");
    e.from.clear();
    assert_eq!(sender_display(&e), "(unknown sender)");
}

#[test]
fn two_envelopes_are_listed_without_a_tail() {
    let n = new_mail_notification(
        "me@example.com",
        &vec![env(1, Some("Ann"), "a@x", "One"), env(2, None, "b@x", "Two")],
    );
    assert_eq!(
        n,
        Some(("2 new messages \u{2014} me@example.com".to_string(), "Ann: One\nb@x: Two".to_string()))
    );
}

#[test]
fn five_envelopes_preview_three_and_count_the_rest() {
    let envs: Vec<Envelope> = (1..=5).map(|i| env(i, None, &format!("s{i}@x"), &format!("m{i}"))).collect();
    let (summary, body) = new_mail_notification("me@example.com", &envs).unwrap();
    assert_eq!(summary, "5 new messages \u{2014} me@example.com");
    assert_eq!(body, "s1@x: m1\ns2@x: m2\ns3@x: m3\n+2 more");
}
