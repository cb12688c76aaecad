use newsletter_core::newsletters::{
    get_confirmed_subscribers, publish_newsletter, BodyData, Content, PublishError,
};
use newsletter_core::store::{Store, Subscriber};
use newsletter_core::subscriptions::{
    confirmation_email_bodies, generate_subscription_token, subscribe, SubscribeError,
};
use newsletter_core::subscriptions_confirm::{
    confirm, get_subscriber_id_from_token, ConfirmationError, Parameters,
};

#[test]
fn subscribing_stores_a_pending_subscriber_and_a_token() {
    let mut store = Store::new();
    let (id, token) =
        subscribe(&mut store, "ursula_le_guin@gmail.com", "le guin").expect("valid signup rejected");
    assert_eq!(store.subscribers.len(), 1);
    assert_eq!(store.subscribers[0].email, "ursula_le_guin@gmail.com");
    assert_eq!(store.subscribers[0].name, "le guin");
    assert!(!store.subscribers[0].confirmed);
    assert_eq!(store.tokens.len(), 1);
    assert_eq!(store.tokens[0].token, token);
    assert_eq!(store.tokens[0].subscriber_id, id);
}

#[test]
fn subscribing_with_a_bad_email_is_a_validation_error() {
    let mut store = Store::new();
    match subscribe(&mut store, "not-an-email", "le guin") {
        Err(SubscribeError::ValidationError(msg)) => {
            assert_eq!(msg, "\"not-an-email\" is not a valid email address");
        }
        _ => panic!("invalid email accepted"),
    }
    assert_eq!(store.subscribers.len(), 0);
    assert_eq!(store.tokens.len(), 0);
}

#[test]
fn subscribe_error_status_codes() {
    assert_eq!(SubscribeError::ValidationError(String::new()).status_code(), 400);
    assert_eq!(SubscribeError::UnexpectedError.status_code(), 500);
}

#[test]
fn subscription_tokens_are_25_alphanumeric_characters() {
    let token = generate_subscription_token();
    assert_eq!(token.chars().count(), 25);
    assert!(token.chars().all(|c| c.is_ascii_alphanumeric()));
    // Two draws almost surely differ; equality would hint the generator
    // ignores its randomness.
    let other = generate_subscription_token();
    assert_ne!(token, other);
}

#[test]
fn confirming_with_the_issued_token_marks_the_subscriber() {
    let mut store = Store::new();
    let (_, token) =
        subscribe(&mut store, "ursula_le_guin@gmail.com", "le guin").expect("valid signup rejected");
    confirm(&mut store, &Parameters { token }).expect("confirmation failed");
    assert!(store.subscribers[0].confirmed);
}

#[test]
fn confirming_with_an_unknown_token_is_not_found() {
    let mut store = Store::new();
    subscribe(&mut store, "ursula_le_guin@gmail.com", "le guin").expect("valid signup rejected");
    match confirm(&mut store, &Parameters { token: "not-a-token".to_string() }) {
        Err(ConfirmationError::TokenNotFound) => {}
        _ => panic!("unknown token confirmed something"),
    }
    assert!(!store.subscribers[0].confirmed);
}

#[test]
fn token_lookup_finds_the_right_subscriber() {
    let mut store = Store::new();
    let (id_a, token_a) = subscribe(&mut store, "a@example.com", "A A").unwrap();
    let (id_b, token_b) = subscribe(&mut store, "b@example.com", "B B").unwrap();
    assert_eq!(get_subscriber_id_from_token(&store, &token_a), Some(id_a));
    assert_eq!(get_subscriber_id_from_token(&store, &token_b), Some(id_b));
    assert_eq!(get_subscriber_id_from_token(&store, "missing"), None);
}

#[test]
fn confirmation_error_status_codes() {
    assert_eq!(ConfirmationError::UnexpectedError.status_code(), 500);
    assert_eq!(ConfirmationError::TokenNotFound.status_code(), 404);
}

#[test]
fn confirmation_email_bodies_embed_the_link() {
    let (html, text) = confirmation_email_bodies("https://example.com", "tok123");
    assert_eq!(
        html,
        "Welcome to the newsletter!<br/>Click <a href=\"https://example.com/subscriptions/confirm?token=tok123\">here</a> to confirm your subscription."
    );
    assert_eq!(
        text,
        "Welcome to the newsletter!\nVisit https://example.com/subscriptions/confirm?token=tok123 to confirm your subscription."
    );
}

#[test]
fn confirmed_subscribers_are_fetched_with_their_addresses_revalidated() {
    let mut store = Store::new();
    let (_, t) = subscribe(&mut store, "good@example.com", "Good").unwrap();
    confirm(&mut store, &Parameters { token: t }).unwrap();
    subscribe(&mut store, "pending@example.com", "Pending").unwrap();
    store.subscribers.push(Subscriber {
        id: 99,
        email: "broken-address".to_string(),
        name: "Broken".to_string(),
        confirmed: true,
    });
    let rows = get_confirmed_subscribers(&store);
    assert_eq!(rows.len(), 2);
    assert_eq!(rows[0].as_ref().unwrap().as_ref(), "good@example.com");
    assert!(rows[1].is_err());
}

#[test]
fn legacy_publish_sends_to_valid_confirmed_subscribers_only() {
    let mut store = Store::new();
    let (_, t) = subscribe(&mut store, "good@example.com", "Good").unwrap();
    confirm(&mut store, &Parameters { token: t }).unwrap();
    subscribe(&mut store, "pending@example.com", "Pending").unwrap();
    store.subscribers.push(Subscriber {
        id: 99,
        email: "broken-address".to_string(),
        name: "Broken".to_string(),
        confirmed: true,
    });
    let body = BodyData {
        title: "Newsletter title".to_string(),
        content: Content {
            html: "<p>Newsletter body as HTML</p>".to_string(),
            text: "Newsletter body as plain text".to_string(),
        },
    };
    let sends = publish_newsletter(&store, &body);
    assert_eq!(sends.len(), 1);
    assert_eq!(sends[0].recipient, "good@example.com");
    assert_eq!(sends[0].title, "Newsletter title");
    assert_eq!(sends[0].html_content, "<p>Newsletter body as HTML</p>");
    assert_eq!(sends[0].text_content, "Newsletter body as plain text");
}

#[test]
fn publish_error_responses_have_the_documented_shape() {
    let challenge = PublishError::AuthError.error_response();
    assert_eq!(challenge.status_code, 401);
    assert_eq!(challenge.headers.len(), 1);
    assert_eq!(challenge.headers[0].name, b"WWW-Authenticate".to_vec());
    assert_eq!(challenge.headers[0].value, b"Basic realm=\"publish\"".to_vec());
    assert!(challenge.body.is_empty());
    let fault = PublishError::UnexpectedError.error_response();
    assert_eq!(fault.status_code, 500);
    assert!(fault.headers.is_empty());
    assert!(fault.body.is_empty());
}
