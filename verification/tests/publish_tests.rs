use newsletter_core::publish::{handle_publish_command, BodyData, PublishOutcome};
use newsletter_core::response::SavedResponse;
use newsletter_core::store::Store;
use newsletter_core::subscriptions::subscribe;
use newsletter_core::subscriptions_confirm::{confirm, Parameters};

fn publish_responses_equal(a: &SavedResponse, b: &SavedResponse) -> bool {
    if a.status_code != b.status_code || a.headers.len() != b.headers.len() || a.body != b.body {
        return false;
    }
    for (x, y) in a.headers.iter().zip(b.headers.iter()) {
        if x.name != y.name || x.value != y.value {
            return false;
        }
    }
    true
}

/// Adds `confirmed` confirmed and `pending` unconfirmed subscribers.
fn seed_subscribers(store: &mut Store, confirmed: usize, pending: usize) {
    for i in 0..confirmed + pending {
        let email = format!("subscriber{}@example.com", i);
        let name = format!("Subscriber {}", i);
        let (_, token) = subscribe(store, &email, &name).expect("valid signup rejected");
        if i < confirmed {
            confirm(store, &Parameters { token }).expect("confirmation failed");
        }
    }
}

fn body_with_key(key: &str) -> BodyData {
    BodyData {
        title: "Newsletter title".to_string(),
        text_content: "Newsletter body as plain text".to_string(),
        html_content: "<p>Newsletter body as HTML</p>".to_string(),
        idempotency_key: key.to_string(),
    }
}

#[test]
fn an_invalid_key_rejects_the_command_without_effect() {
    let mut store = Store::new();
    seed_subscribers(&mut store, 1, 0);
    let body = body_with_key("");
    match handle_publish_command(&mut store, 1, &body, 10, 0) {
        PublishOutcome::InvalidKey(_) => {}
        _ => panic!("empty key was not rejected"),
    }
    assert_eq!(store.issues.len(), 0);
    assert_eq!(store.tasks.len(), 0);
    assert_eq!(store.records.len(), 0);
}

#[test]
fn publishing_creates_the_issue_and_one_task_per_confirmed_subscriber() {
    let mut store = Store::new();
    seed_subscribers(&mut store, 3, 2);
    let body = body_with_key("key-1");
    match handle_publish_command(&mut store, 1, &body, 10, 1700000000) {
        PublishOutcome::Published(resp) => {
            assert_eq!(resp.status_code, 303);
        }
        _ => panic!("fresh key did not publish"),
    }
    assert_eq!(store.issues.len(), 1);
    assert_eq!(store.issues[0].title, "Newsletter title");
    assert_eq!(store.issues[0].id, 10);
    assert_eq!(store.issues[0].published_at, 1700000000);
    // Exactly the 3 confirmed subscribers got a task, none of the pending.
    assert_eq!(store.tasks.len(), 3);
    for (k, task) in store.tasks.iter().enumerate() {
        assert_eq!(task.newsletter_issue_id, 10);
        assert_eq!(task.subscriber_email, format!("subscriber{}@example.com", k));
    }
}

#[test]
fn confirmations_after_enqueue_are_not_retroactively_included() {
    let mut store = Store::new();
    seed_subscribers(&mut store, 3, 2);
    let body = body_with_key("key-1");
    handle_publish_command(&mut store, 1, &body, 10, 0);
    assert_eq!(store.tasks.len(), 3);
    // Confirm the remaining two now; the enqueued snapshot must not grow.
    let tokens: Vec<String> = store.tokens.iter().map(|t| t.token.clone()).collect();
    for token in tokens {
        let _ = confirm(&mut store, &Parameters { token });
    }
    assert_eq!(store.tasks.len(), 3);
}

#[test]
fn two_distinct_keys_publish_two_full_issues() {
    let mut store = Store::new();
    seed_subscribers(&mut store, 2, 0);
    let first = handle_publish_command(&mut store, 1, &body_with_key("k1"), 10, 0);
    let second = handle_publish_command(&mut store, 1, &body_with_key("k2"), 11, 0);
    assert!(matches!(first, PublishOutcome::Published(_)));
    assert!(matches!(second, PublishOutcome::Published(_)));
    assert_eq!(store.issues.len(), 2);
    assert_eq!(store.tasks.len(), 4);
    assert_eq!(store.records.len(), 2);
}

#[test]
fn repeated_submissions_replay_the_identical_response_once() {
    let mut store = Store::new();
    seed_subscribers(&mut store, 2, 0);
    let body = body_with_key("key-1");
    let first = match handle_publish_command(&mut store, 1, &body, 10, 0) {
        PublishOutcome::Published(resp) => resp,
        _ => panic!("fresh key did not publish"),
    };
    for _ in 0..3 {
        match handle_publish_command(&mut store, 1, &body, 99, 5) {
            PublishOutcome::Replayed(resp) => {
                assert!(publish_responses_equal(&first, &resp));
            }
            _ => panic!("repeated key was not replayed"),
        }
    }
    assert_eq!(store.issues.len(), 1);
    assert_eq!(store.tasks.len(), 2);
    assert_eq!(store.records.len(), 1);
}

#[test]
fn a_racing_submission_behind_an_open_ticket_conflicts() {
    let mut store = Store::new();
    let key = newsletter_core::idempotency::IdempotencyKey::parse("key-1".to_string()).unwrap();
    match newsletter_core::store::try_processing(&mut store, 1, &key) {
        newsletter_core::store::NextAction::StartProcessing(_) => {}
        _ => panic!("fresh key did not grant a ticket"),
    }
    match handle_publish_command(&mut store, 1, &body_with_key("key-1"), 10, 0) {
        PublishOutcome::Conflict => {}
        _ => panic!("in-flight key did not conflict"),
    }
    assert_eq!(store.issues.len(), 0);
}

#[test]
fn the_same_key_of_another_user_publishes_independently() {
    let mut store = Store::new();
    seed_subscribers(&mut store, 1, 0);
    let body = body_with_key("shared-key");
    assert!(matches!(
        handle_publish_command(&mut store, 1, &body, 10, 0),
        PublishOutcome::Published(_)
    ));
    assert!(matches!(
        handle_publish_command(&mut store, 2, &body, 11, 0),
        PublishOutcome::Published(_)
    ));
    assert_eq!(store.issues.len(), 2);
}
