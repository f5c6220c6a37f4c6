use mailc::account::Account;
use mailc::config::{AccountConfig, AuthMethod};
use mailc::error::Error;
use mailc::smtp::{build, AttachmentFile, Draft};

fn test_account() -> Account {
    Account::new(AccountConfig {
        email: "me@example.com".to_string(),
        display_name: None,
        imap_host: "imap.example.com".to_string(),
        imap_port: 993,
        smtp_host: "smtp.example.com".to_string(),
        smtp_port: 587,
        auth: AuthMethod::Password,
        fetch_limit: 50,
    })
}

fn draft(to: &str, cc: &str, bcc: &str) -> Draft {
    Draft {
        to: to.to_string(),
        cc: cc.to_string(),
        bcc: bcc.to_string(),
        subject: "Test subject".to_string(),
        body: "Test body".to_string(),
    }
}

#[test]
fn build_produces_expected_headers_and_body() {
    let built = build(&test_account(), &draft("bob@example.com", "", ""), &vec![]).unwrap();
    let raw = String::from_utf8_lossy(&built.raw);

    assert!(raw.contains("From: <me@example.com>") || raw.contains("me@example.com"));
    assert!(raw.contains("To: <bob@example.com>") || raw.contains("bob@example.com"));
    assert!(raw.contains("Subject: Test subject"));
    assert!(raw.contains("Test body"));
    assert_eq!(built.recipients, vec!["bob@example.com".to_string()]);
}

#[test]
fn build_with_no_recipients_at_all_is_rejected() {
    match build(&test_account(), &draft("", "", ""), &vec![]) {
        Err(Error::Config(m)) => assert!(m.contains("no recipients")),
        Err(other) => panic!("expected Error::Config, got {other:?}"),
        Ok(_) => panic!("expected an error for a message with no recipients"),
    }
}

#[test]
fn build_rejects_an_unparsable_address() {
    match build(&test_account(), &draft("not-an-email", "", ""), &vec![]) {
        Err(Error::Config(_)) => {}
        Err(other) => panic!("expected Error::Config, got {other:?}"),
        Ok(_) => panic!("expected an error for an unparsable address"),
    }
}

#[test]
fn build_collects_cc_and_bcc_into_envelope_recipients_but_strips_the_bcc_header() {
    let built = build(
        &test_account(),
        &draft("to@example.com", "cc@example.com", "bcc@example.com"),
        &vec![],
    )
    .unwrap();

    let mut recipients = built.recipients.clone();
    recipients.sort();
    assert_eq!(
        recipients,
        vec!["bcc@example.com".to_string(), "cc@example.com".to_string(), "to@example.com".to_string()]
    );

    let raw = String::from_utf8_lossy(&built.raw);
    assert!(raw.contains("cc@example.com"), "Cc header should survive into the raw message");
    assert!(!raw.contains("bcc@example.com"), "Bcc must never appear in the transmitted/cached raw bytes");
}

#[test]
fn build_with_an_attachment_includes_its_filename() {
    let attachment = AttachmentFile { filename: "notes.txt".to_string(), bytes: b"hello world".to_vec() };
    let built = build(&test_account(), &draft("bob@example.com", "", ""), &vec![attachment]).unwrap();
    let raw = String::from_utf8_lossy(&built.raw);

    assert!(raw.contains("notes.txt"));
    assert!(raw.contains("Test body"));
}

#[test]
fn build_names_the_first_refused_address_and_splits_on_commas() {
    match build(&test_account(), &draft(" a@example.com , ,oops", "", ""), &vec![]) {
        Err(Error::Config(m)) => assert!(m.starts_with("invalid address \"oops\": "), "{m}"),
        _ => panic!("expected the refused address to be named"),
    }
    let built = build(&test_account(), &draft("a@example.com, b@example.com", "", ""), &vec![]).unwrap();
    assert_eq!(built.recipients, vec!["a@example.com".to_string(), "b@example.com".to_string()]);
}

#[test]
fn build_refuses_a_bad_account_address_first() {
    let mut account = test_account();
    account.config.email = "nope".to_string();
    match build(&account, &draft("", "", ""), &vec![]) {
        Err(Error::Config(m)) => assert!(m.starts_with("invalid account address: "), "{m}"),
        _ => panic!("expected the account address to be refused"),
    }
}

#[test]
fn build_envelope_lists_to_then_cc_then_bcc() {
    let d = draft(
        "Ann <ann@example.com>, zed@example.com",
        "cat@example.com",
        "Bea <bea@example.com>",
    );
    let built = build(&test_account(), &d, &vec![]).unwrap();
    assert_eq!(
        built.recipients,
        vec![
            "ann@example.com".to_string(),
            "zed@example.com".to_string(),
            "cat@example.com".to_string(),
            "bea@example.com".to_string(),
        ]
    );
}

#[test]
fn build_headers_show_to_and_cc_but_no_bcc_line() {
    let d = draft("Ann <ann@example.com>, zed@example.com", "cat@example.com", "hidden@example.com");
    let built = build(&test_account(), &d, &vec![]).unwrap();
    let raw = String::from_utf8_lossy(&built.raw).to_string();
    let end = raw.find("\r\n\r\n").expect("an empty line ends the headers");
    let headers = &raw[..end + 2];
    for shown in ["ann@example.com", "zed@example.com", "cat@example.com"] {
        assert!(headers.contains(shown), "{shown} missing from {headers}");
    }
    assert!(!headers.split("\r\n").any(|line| line.starts_with("Bcc:")));
    assert!(!raw.contains("hidden@example.com"));
}

#[test]
fn build_raw_bytes_carry_subject_body_and_file_name_but_not_bcc() {
    let d = draft("to@example.com", "", "secret@example.com");
    let atts = vec![AttachmentFile { filename: "notes.txt".to_string(), bytes: b"hello".to_vec() }];
    let built = build(&test_account(), &d, &atts).unwrap();
    let raw = String::from_utf8_lossy(&built.raw).to_string();
    let end = raw.find("\r\n\r\n").expect("an empty line ends the headers");
    let (headers, rest) = raw.split_at(end + 2);
    assert!(headers.starts_with("Subject: Test subject\r\n") || headers.contains("\r\nSubject: Test subject\r\n"));
    assert!(rest.contains("Test body"));
    assert!(rest.contains("filename=\"notes.txt\""));
    assert!(!headers.contains("secret@example.com"));
}
