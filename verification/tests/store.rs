use mailc::store::{is_no_reply_address, join_recipients, known_senders, split_recipients};
use mailc::types::Address;

#[test]
fn is_no_reply_address_matches_common_variants_but_not_real_senders() {
    assert!(is_no_reply_address("no-reply@example.com"));
    assert!(is_no_reply_address("NoReply@Example.com"));
    assert!(is_no_reply_address("noreply@example.com"));
    assert!(is_no_reply_address("no.reply@example.com"));
    assert!(is_no_reply_address("do-not-reply@example.com"));
    assert!(!is_no_reply_address("alice@example.com"));
    assert!(!is_no_reply_address("replyguy@example.com"));
}

#[test]
fn is_no_reply_address_only_looks_before_the_at_sign() {
    assert!(!is_no_reply_address("alice@noreply.example.com"));
    assert!(is_no_reply_address("noreply"));
}

fn addr(name: Option<&str>, email: &str) -> Address {
    Address { name: name.map(|n| n.to_string()), email: email.to_string() }
}

#[test]
fn known_senders_deduplicates_by_email_case_insensitively_and_excludes_no_reply_addresses() {
    let lists = vec![
        vec![addr(Some("Alice"), "alice@example.com")],
        vec![addr(None, "ALICE@example.com")],
        vec![addr(Some("Shop"), "no-reply@shop.com")],
    ];
    let senders = known_senders(&lists);
    assert_eq!(senders.len(), 1);
    assert_eq!(senders[0].email.to_lowercase(), "alice@example.com");
    assert_eq!(senders[0].name.as_deref(), Some("Alice"));
}

#[test]
fn known_senders_lets_a_later_name_win_and_sorts_by_name_or_email() {
    let lists = vec![
        vec![addr(None, "zed@example.com"), addr(Some("bob"), "b@example.com")],
        vec![addr(Some("Zed Z"), "ZED@example.com"), addr(None, "carol@example.com")],
    ];
    let senders = known_senders(&lists);
    let shown: Vec<(Option<String>, String)> =
        senders.iter().map(|a| (a.name.clone(), a.email.clone())).collect();
    assert_eq!(
        shown,
        vec![
            (Some("bob".to_string()), "b@example.com".to_string()),
            (None, "carol@example.com".to_string()),
            (Some("Zed Z".to_string()), "zed@example.com".to_string()),
        ]
    );
}

#[test]
fn known_senders_of_no_mail_is_empty() {
    assert!(known_senders(&vec![]).is_empty());
}

#[test]
fn recipients_round_trip_through_storage() {
    let r = vec!["a@x.com".to_string(), "b@y.org".to_string()];
    let stored = join_recipients(&r);
    assert_eq!(stored, "a@x.com,b@y.org");
    assert_eq!(split_recipients(&stored), r);
    assert!(split_recipients("").is_empty());
    assert_eq!(split_recipients(",a,,b,"), vec!["a".to_string(), "b".to_string()]);
}

#[test]
fn the_address_book_holds_each_address_once_in_key_order() {
    let lists = vec![
        vec![addr(None, "carol@example.com"), addr(Some("Bob"), "bob@example.com")],
        vec![addr(None, "CAROL@example.com"), addr(None, "noreply@example.com")],
        vec![addr(Some("alice"), "a@example.com"), addr(None, "Bob@Example.com")],
    ];
    let book = known_senders(&lists);
    let emails: Vec<String> = book.iter().map(|a| a.email.to_lowercase()).collect();
    assert_eq!(emails, vec!["a@example.com", "bob@example.com", "carol@example.com"]);
    assert_eq!(book[1].name.as_deref(), Some("Bob"));
}
