use newsletter_core::publish::{handle_publish_command, BodyData, PublishOutcome};
use newsletter_core::store::{Store, Subscriber};
use newsletter_core::subscriptions::subscribe;
use newsletter_core::subscriptions_confirm::{confirm, Parameters};
use newsletter_core::worker::{run_two_workers, run_worker, try_execute_task, ExecutionOutcome};

fn seed_confirmed(store: &mut Store, n: usize) {
    for i in 0..n {
        let email = format!("reader{}@example.com", i);
        let name = format!("Reader {}", i);
        let (_, token) = subscribe(store, &email, &name).expect("valid signup rejected");
        confirm(store, &Parameters { token }).expect("confirmation failed");
    }
}

fn publish_issue(store: &mut Store, key: &str, title: &str, issue_id: u128) {
    let body = BodyData {
        title: title.to_string(),
        text_content: "plain".to_string(),
        html_content: "<p>html</p>".to_string(),
        idempotency_key: key.to_string(),
    };
    match handle_publish_command(store, 1, &body, issue_id, 0) {
        PublishOutcome::Published(_) => {}
        _ => panic!("publish failed"),
    }
}

#[test]
fn an_empty_queue_reports_empty_without_mutating_any_row() {
    let mut store = Store::new();
    seed_confirmed(&mut store, 2);
    let records = store.records.len();
    let issues = store.issues.len();
    let subscribers = store.subscribers.len();
    match try_execute_task(&mut store) {
        ExecutionOutcome::EmptyQueue => {}
        _ => panic!("empty queue did not report empty"),
    }
    assert_eq!(store.tasks.len(), 0);
    assert_eq!(store.records.len(), records);
    assert_eq!(store.issues.len(), issues);
    assert_eq!(store.subscribers.len(), subscribers);
}

#[test]
fn a_task_with_a_valid_address_yields_its_delivery_and_leaves_the_queue() {
    let mut store = Store::new();
    seed_confirmed(&mut store, 1);
    publish_issue(&mut store, "key-1", "Issue One", 10);
    assert_eq!(store.tasks.len(), 1);
    match try_execute_task(&mut store) {
        ExecutionOutcome::TaskCompleted(Some(send)) => {
            assert_eq!(send.recipient, "reader0@example.com");
            assert_eq!(send.title, "Issue One");
            assert_eq!(send.html_content, "<p>html</p>");
            assert_eq!(send.text_content, "plain");
        }
        _ => panic!("queued task was not completed with a delivery"),
    }
    assert_eq!(store.tasks.len(), 0);
}

#[test]
fn an_invalid_stored_address_is_skipped_and_its_task_still_removed() {
    let mut store = Store::new();
    // A row whose stored address was corrupted after signup.
    store.subscribers.push(Subscriber {
        id: 1,
        email: "definitely-not-an-email".to_string(),
        name: "Broken Row".to_string(),
        confirmed: true,
    });
    publish_issue(&mut store, "key-1", "Issue One", 10);
    assert_eq!(store.tasks.len(), 1);
    match try_execute_task(&mut store) {
        ExecutionOutcome::TaskCompleted(None) => {}
        ExecutionOutcome::TaskCompleted(Some(_)) => {
            panic!("a transport call was attempted for an invalid address")
        }
        ExecutionOutcome::EmptyQueue => panic!("queued task was not picked up"),
    }
    assert_eq!(store.tasks.len(), 0);
}

#[test]
fn draining_the_queue_delivers_to_every_confirmed_subscriber_once() {
    let mut store = Store::new();
    seed_confirmed(&mut store, 2);
    publish_issue(&mut store, "key-1", "Spring Update", 10);
    assert_eq!(store.tasks.len(), 2);
    let sends = run_worker(&mut store);
    assert_eq!(sends.len(), 2);
    assert_eq!(sends[0].recipient, "reader0@example.com");
    assert_eq!(sends[1].recipient, "reader1@example.com");
    for send in &sends {
        assert_eq!(send.title, "Spring Update");
    }
    assert_eq!(store.tasks.len(), 0);
    match try_execute_task(&mut store) {
        ExecutionOutcome::EmptyQueue => {}
        _ => panic!("drained queue was not empty"),
    }
}

#[test]
fn two_interleaved_workers_process_each_of_100_tasks_exactly_once() {
    let mut store = Store::new();
    seed_confirmed(&mut store, 100);
    publish_issue(&mut store, "key-1", "Big Issue", 10);
    assert_eq!(store.tasks.len(), 100);
    let schedule = vec![true, false];
    let (n_first, n_second) = run_two_workers(&mut store, &schedule);
    assert_eq!(n_first + n_second, 100);
    assert_eq!(n_first, 50);
    assert_eq!(n_second, 50);
    assert_eq!(store.tasks.len(), 0);
}

#[test]
fn tasks_of_two_issues_each_carry_their_own_content() {
    let mut store = Store::new();
    seed_confirmed(&mut store, 1);
    publish_issue(&mut store, "k1", "First", 10);
    publish_issue(&mut store, "k2", "Second", 11);
    let sends = run_worker(&mut store);
    assert_eq!(sends.len(), 2);
    assert_eq!(sends[0].title, "First");
    assert_eq!(sends[1].title, "Second");
}
