use mailc::config::{AccountConfig, AuthMethod};
use mailc::setup::{answer_or_default, chosen_account, has_account_for, new_account_config, port_or};

#[test]
fn a_blank_answer_takes_the_default() {
    assert_eq!(answer_or_default("   \n", "993"), "993");
    assert_eq!(answer_or_default("", "587"), "587");
    assert_eq!(answer_or_default("  1143 \n", "993"), "1143");
}

#[test]
fn ports_parse_like_u16() {
    assert_eq!(port_or("993", 1), 993);
    assert_eq!(port_or("+465", 1), 465);
    assert_eq!(port_or("0065535", 1), 65535);
    assert_eq!(port_or("65536", 587), 587);
    assert_eq!(port_or("-1", 587), 587);
    assert_eq!(port_or("+", 587), 587);
    assert_eq!(port_or("", 993), 993);
    assert_eq!(port_or("99x", 993), 993);
}

#[test]
fn an_account_is_picked_by_its_listed_number() {
    assert_eq!(chosen_account("1", 3), Some(0));
    assert_eq!(chosen_account("3", 3), Some(2));
    assert_eq!(chosen_account("0", 3), None);
    assert_eq!(chosen_account("4", 3), None);
    assert_eq!(chosen_account("two", 3), None);
    assert_eq!(chosen_account("99999999999999999999999", 3), None);
}

fn account(email: &str) -> AccountConfig {
    new_account_config(email.to_string(), "imap.x".to_string(), 993, "smtp.x".to_string(), 587)
}

#[test]
fn a_new_account_gets_the_prompt_defaults() {
    let a = account("me@example.com");
    assert_eq!(a.email, "me@example.com");
    assert_eq!(a.display_name, None);
    assert_eq!(a.imap_port, 993);
    assert_eq!(a.smtp_port, 587);
    assert_eq!(a.auth, AuthMethod::Password);
    assert_eq!(a.fetch_limit, 50);
}

#[test]
fn a_configured_address_is_found() {
    let accounts = vec![account("a@x"), account("b@x")];
    assert!(has_account_for(&accounts, "b@x"));
    assert!(!has_account_for(&accounts, "B@x"));
    assert!(!has_account_for(&vec![], "a@x"));
}

#[test]
fn the_default_account_opens_first_when_configured() {
    let emails = vec!["a@x".to_string(), "b@x".to_string(), "b@x".to_string()];
    assert_eq!(mailc::setup::initial_account(&emails, Some("b@x")), 1);
    assert_eq!(mailc::setup::initial_account(&emails, Some("c@x")), 0);
    assert_eq!(mailc::setup::initial_account(&emails, None), 0);
}
