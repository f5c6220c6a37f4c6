use mailc::error::Error;
use mailc::imap::{envelope_from_header, message_from_raw};
use mailc::types::Flag;

fn plain_message(body: &str) -> Vec<u8> {
    format!(
        "From: Alice <alice@example.com>\r\n\
         To: Bob <bob@example.com>\r\n\
         Subject: Hello\r\n\
         Date: Mon, 1 Jan 2024 12:00:00 +0000\r\n\
         Content-Type: text/plain\r\n\
         \r\n\
         {body}"
    )
    .into_bytes()
}

#[test]
fn message_from_raw_parses_headers_and_plain_body() {
    let raw = plain_message("Hello, world!");
    let msg = message_from_raw(7, &raw).unwrap();

    assert_eq!(msg.uid, 7);
    assert_eq!(msg.subject, "Hello");
    assert_eq!(msg.from[0].email, "alice@example.com");
    assert_eq!(msg.to[0].email, "bob@example.com");
    assert!(msg.body_text.contains("Hello, world!"));
    assert!(msg.attachments.is_empty());
    assert!(msg.date.is_some());
}

fn multipart_message_with_attachment(disposition_and_filename: &str) -> Vec<u8> {
    format!(
        "From: a@example.com\r\n\
         To: b@example.com\r\n\
         Subject: With attachment\r\n\
         Content-Type: multipart/mixed; boundary=\"BOUNDARY\"\r\n\
         \r\n\
         --BOUNDARY\r\n\
         Content-Type: text/plain\r\n\
         \r\n\
         See attached.\r\n\
         --BOUNDARY\r\n\
         Content-Type: application/octet-stream\r\n\
         {disposition_and_filename}\r\n\
         Content-Transfer-Encoding: base64\r\n\
         \r\n\
         aGVsbG8gd29ybGQ=\r\n\
         --BOUNDARY--\r\n"
    )
    .into_bytes()
}

#[test]
fn message_from_raw_extracts_a_named_attachment() {
    let raw = multipart_message_with_attachment("Content-Disposition: attachment; filename=\"notes.txt\"");
    let msg = message_from_raw(1, &raw).unwrap();

    assert_eq!(msg.attachments.len(), 1);
    assert_eq!(msg.attachments[0].filename, "notes.txt");
    assert_eq!(msg.attachments[0].bytes, b"hello world");
    assert_eq!(msg.attachments[0].size_bytes, 11);
}

#[test]
fn message_from_raw_synthesizes_a_filename_when_missing() {
    let raw = multipart_message_with_attachment("Content-Disposition: attachment");
    let msg = message_from_raw(1, &raw).unwrap();

    assert_eq!(msg.attachments.len(), 1);
    assert_eq!(msg.attachments[0].filename, "attachment-1");
}

#[test]
fn message_from_raw_reports_unparsable_bytes() {
    match message_from_raw(9, b"") {
        Err(Error::Parse(m)) => assert_eq!(m, "failed to parse message uid 9"),
        Ok(_) => {}
        Err(other) => panic!("unexpected error {other:?}"),
    }
}

#[test]
fn message_date_is_the_header_timestamp() {
    let msg = message_from_raw(7, &plain_message("x")).unwrap();
    assert_eq!(msg.date, Some(1704110400));
}

#[test]
fn an_envelope_reads_the_fetched_header() {
    let header = b"From: Alice <alice@example.com>\r\nTo: bob@example.com\r\nSubject: Hi there\r\nDate: Mon, 1 Jan 2024 12:00:00 +0000\r\n\r\n";
    let env = envelope_from_header(Some(42), &vec![Flag::Seen, Flag::Flagged], header).unwrap();
    assert_eq!(env.uid, 42);
    assert_eq!(env.subject, "Hi there");
    assert_eq!(env.from[0].name.as_deref(), Some("Alice"));
    assert_eq!(env.from[0].email, "alice@example.com");
    assert_eq!(env.to[0].email, "bob@example.com");
    assert_eq!(env.date, Some(1704110400));
    assert!(env.flags.seen && env.flags.flagged && !env.flags.answered);
}

#[test]
fn a_fetch_without_a_uid_gives_no_envelope() {
    assert!(envelope_from_header(None, &vec![], b"Subject: x\r\n\r\n").is_none());
}
