use newsletter_core::idempotency::{IdempotencyKey, KeyError};

#[test]
fn empty_key_is_rejected() {
    let r = IdempotencyKey::parse(String::new());
    assert!(matches!(r, Err(KeyError::Empty)));
}

#[test]
fn a_51_character_key_is_rejected() {
    let r = IdempotencyKey::parse("k".repeat(51));
    assert!(matches!(r, Err(KeyError::TooLong)));
}

#[test]
fn a_50_character_key_is_accepted() {
    let raw = "k".repeat(50);
    let key = IdempotencyKey::parse(raw.clone()).expect("50-character key rejected");
    assert_eq!(key.as_ref(), raw);
}

#[test]
fn key_is_kept_unchanged() {
    let key = IdempotencyKey::parse("Key-01 with Spaces".to_string()).unwrap();
    assert_eq!(key.as_ref(), "Key-01 with Spaces");
}

#[test]
fn key_error_messages() {
    assert_eq!(KeyError::Empty.message(), "The idempotency key cannot be empty");
    assert_eq!(
        KeyError::TooLong.message(),
        "The idempotency key must be no longer than 50 characters"
    );
}
