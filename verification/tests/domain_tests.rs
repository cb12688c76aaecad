use newsletter_core::domain::{NewSubscriber, SubscriberEmail, SubscriberName};

#[test]
fn subscriber_email_empty_string_is_rejected() {
    assert!(SubscriberEmail::parse("").is_err());
}

#[test]
fn email_missing_at_symbol_is_rejected() {
    assert!(SubscriberEmail::parse("testdomain.com").is_err());
}

#[test]
fn email_missing_subject_is_rejected() {
    assert!(SubscriberEmail::parse("@domain.com").is_err());
}

#[test]
fn a_valid_email_is_parsed_successfully() {
    let email = SubscriberEmail::parse("ursula_le_guin@gmail.com").expect("valid email rejected");
    assert_eq!(email.as_ref(), "ursula_le_guin@gmail.com");
}

#[test]
fn email_error_carries_the_offending_string() {
    let err = SubscriberEmail::parse("nope").unwrap_err();
    assert_eq!(err, "\"nope\" is not a valid email address");
}

#[test]
fn a_256_long_grapheme_is_valid() {
    let name = "ё".repeat(256);
    assert!(SubscriberName::parse(&name).is_ok());
}

#[test]
fn a_name_longer_than_256_graphemes_is_rejected() {
    let name = "a".repeat(257);
    assert!(SubscriberName::parse(&name).is_err());
}

#[test]
fn whitespace_only_names_are_rejected() {
    let name = " ".to_string();
    assert!(SubscriberName::parse(&name).is_err());
}

#[test]
fn subscriber_name_empty_string_is_rejected() {
    let name = "".to_string();
    assert!(SubscriberName::parse(&name).is_err());
}

#[test]
fn names_containing_an_invalid_character_are_rejected() {
    for name in &['/', '(', ')', '"', '<', '>', '\\', '{', '}'] {
        let name = name.to_string();
        assert!(SubscriberName::parse(&name).is_err());
    }
}

#[test]
fn a_valid_name_is_parsed_successfully() {
    let name = "Ursula Le Guin".to_string();
    assert!(SubscriberName::parse(&name).is_ok());
}

#[test]
fn name_error_carries_the_offending_string() {
    let err = SubscriberName::parse("<no>").unwrap_err();
    assert_eq!(err, "\"<no>\" is not a valid subscriber name");
}

#[test]
fn new_subscriber_reports_the_name_error_first() {
    let err = NewSubscriber::parse("not-an-email", "/bad").unwrap_err();
    assert_eq!(err, "\"/bad\" is not a valid subscriber name");
    let err = NewSubscriber::parse("not-an-email", "Good Name").unwrap_err();
    assert_eq!(err, "\"not-an-email\" is not a valid email address");
    let ok = NewSubscriber::parse("ok@example.com", "Good Name").unwrap();
    assert_eq!(ok.email.as_ref(), "ok@example.com");
    assert_eq!(ok.name.as_ref(), "Good Name");
}
