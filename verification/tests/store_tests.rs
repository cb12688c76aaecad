use newsletter_core::idempotency::IdempotencyKey;
use newsletter_core::response::{HeaderPair, SavedResponse};
use newsletter_core::store::{
    get_saved_response, rollback, save_response, try_processing, NextAction, Store,
};

fn saved_responses_equal(a: &SavedResponse, b: &SavedResponse) -> bool {
    if a.status_code != b.status_code || a.headers.len() != b.headers.len() || a.body != b.body {
        return false;
    }
    for (x, y) in a.headers.iter().zip(b.headers.iter()) {
        if x.name != y.name || x.value != y.value {
            return false;
        }
    }
    true
}

fn a_response() -> SavedResponse {
    SavedResponse {
        status_code: 200,
        headers: vec![HeaderPair { name: b"X-Tag".to_vec(), value: b"42".to_vec() }],
        body: b"done".to_vec(),
    }
}

#[test]
fn first_processing_attempt_gets_a_ticket() {
    let mut store = Store::new();
    let key = IdempotencyKey::parse("key-1".to_string()).unwrap();
    match try_processing(&mut store, 1, &key) {
        NextAction::StartProcessing(_) => {}
        _ => panic!("fresh key did not grant a ticket"),
    }
    assert_eq!(store.records.len(), 1);
    assert!(store.records[0].response.is_none());
}

#[test]
fn saved_response_is_replayed_to_the_next_attempt() {
    let mut store = Store::new();
    let key = IdempotencyKey::parse("key-1".to_string()).unwrap();
    let ticket = match try_processing(&mut store, 1, &key) {
        NextAction::StartProcessing(t) => t,
        _ => panic!("fresh key did not grant a ticket"),
    };
    let returned = save_response(&mut store, ticket, a_response());
    assert!(saved_responses_equal(&returned, &a_response()));
    match try_processing(&mut store, 1, &key) {
        NextAction::ReturnSavedResponse(resp) => {
            assert!(saved_responses_equal(&resp, &a_response()));
        }
        _ => panic!("completed key was not replayed"),
    }
    assert_eq!(store.records.len(), 1);
}

#[test]
fn concurrent_attempt_on_an_in_flight_key_conflicts() {
    let mut store = Store::new();
    let key = IdempotencyKey::parse("key-1".to_string()).unwrap();
    match try_processing(&mut store, 1, &key) {
        NextAction::StartProcessing(_) => {}
        _ => panic!("fresh key did not grant a ticket"),
    }
    match try_processing(&mut store, 1, &key) {
        NextAction::Conflict => {}
        _ => panic!("in-flight key did not conflict"),
    }
}

#[test]
fn rollback_frees_the_key_for_a_clean_retry() {
    let mut store = Store::new();
    let key = IdempotencyKey::parse("key-1".to_string()).unwrap();
    let ticket = match try_processing(&mut store, 1, &key) {
        NextAction::StartProcessing(t) => t,
        _ => panic!("fresh key did not grant a ticket"),
    };
    rollback(&mut store, ticket);
    assert_eq!(store.records.len(), 0);
    match try_processing(&mut store, 1, &key) {
        NextAction::StartProcessing(_) => {}
        _ => panic!("rolled-back key did not grant a fresh ticket"),
    }
}

#[test]
fn different_users_do_not_share_keys() {
    let mut store = Store::new();
    let key = IdempotencyKey::parse("shared".to_string()).unwrap();
    let ticket = match try_processing(&mut store, 1, &key) {
        NextAction::StartProcessing(t) => t,
        _ => panic!("fresh key did not grant a ticket"),
    };
    save_response(&mut store, ticket, a_response());
    match try_processing(&mut store, 2, &key) {
        NextAction::StartProcessing(_) => {}
        _ => panic!("another user's key collided"),
    }
}

#[test]
fn get_saved_response_reads_only_completed_records() {
    let mut store = Store::new();
    let key = IdempotencyKey::parse("key-1".to_string()).unwrap();
    assert!(get_saved_response(&store, 1, &key).is_none());
    let ticket = match try_processing(&mut store, 1, &key) {
        NextAction::StartProcessing(t) => t,
        _ => panic!("fresh key did not grant a ticket"),
    };
    assert!(get_saved_response(&store, 1, &key).is_none());
    save_response(&mut store, ticket, a_response());
    let got = get_saved_response(&store, 1, &key).expect("completed record not readable");
    assert!(saved_responses_equal(&got, &a_response()));
}
