use mailc::types::Address;

#[test]
fn address_display_shows_the_name_and_email_when_a_real_name_is_present() {
    let a = Address { name: Some("Alice".to_string()), email: "alice@example.com".to_string() };
    assert_eq!(a.display_string(), "Alice <alice@example.com>");
}

#[test]
fn address_display_falls_back_to_the_bare_email_with_no_name() {
    let a = Address { name: None, email: "alice@example.com".to_string() };
    assert_eq!(a.display_string(), "alice@example.com");
}

#[test]
fn address_display_treats_a_whitespace_only_name_as_no_name() {
    let a = Address { name: Some("   ".to_string()), email: "alice@example.com".to_string() };
    assert_eq!(a.display_string(), "alice@example.com");
}

#[test]
fn address_duplicate_keeps_name_and_email() {
    let a = Address { name: Some("Bob".to_string()), email: "bob@example.com".to_string() };
    let b = a.duplicate();
    assert_eq!(b.name.as_deref(), Some("Bob"));
    assert_eq!(b.email, "bob@example.com");
}
