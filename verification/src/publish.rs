//! The publish command: create a newsletter issue and enqueue its
//! deliveries, safe to retry.
//!
//! [`handle_publish_command`] sequences the whole command: validate the
//! idempotency key, ask the store for a ticket or a cached response, run
//! the outbox writer on the ticket, save the response — committing
//! everything together. [`publish_post`] is the exact relation between the
//! store before and after one submission; the laws at the end derive the
//! retry-safety guarantees from it.

use crate::idempotency::{valid_key, IdempotencyKey, KeyError};
use crate::outbox::{delivery_tasks_for, enqueue_issue};
use crate::response::{
    see_other, see_other_model, spec_decode, spec_encode, SavedResponse,
};
use crate::store::{
    has_record, is_record_for, record_for, save_response, try_processing, IssueModel, NextAction,
    RecordModel, Store, StoreModel,
};
use vstd::prelude::*;
use vstd::string::StringSliceAdditionalSpecFns;

verus! {

/// The publish form as the web layer hands it over.
#[derive(Clone, Debug)]
pub struct BodyData {
    pub title: String,
    pub text_content: String,
    pub html_content: String,
    pub idempotency_key: String,
}

/// The mathematical content of a publish form.
#[verifier::ext_equal]
pub struct BodyModel {
    pub title: Seq<char>,
    pub text_content: Seq<char>,
    pub html_content: Seq<char>,
    pub idempotency_key: Seq<char>,
}

impl View for BodyData {
    type V = BodyModel;

    open spec fn view(&self) -> BodyModel {
        BodyModel {
            title: self.title@,
            text_content: self.text_content@,
            html_content: self.html_content@,
            idempotency_key: self.idempotency_key@,
        }
    }
}

/// How one submission of the publish command ended.
pub enum PublishOutcome {
    /// The raw idempotency key was rejected; nothing happened. A client
    /// error.
    InvalidKey(KeyError),
    /// First completion: the issue exists, its deliveries are enqueued,
    /// and this response is saved and returned.
    Published(SavedResponse),
    /// A completed record existed: the stored response, byte-for-byte;
    /// nothing re-executed.
    Replayed(SavedResponse),
    /// A concurrent execution with the same key is in flight; retry later.
    Conflict,
}

/// The issue a publish submission creates.
pub open spec fn issue_of(body: BodyModel, issue_id: u128, published_at: u64) -> IssueModel {
    IssueModel {
        id: issue_id,
        title: body.title,
        text_content: body.text_content,
        html_content: body.html_content,
        published_at,
    }
}

/// Exactly how one submission of the publish command relates the store
/// before (`pre`) to the store after (`post`) and to its outcome.
pub open spec fn publish_post(
    pre: StoreModel,
    post: StoreModel,
    user_id: u128,
    body: BodyModel,
    issue_id: u128,
    published_at: u64,
    r: PublishOutcome,
) -> bool {
    &&& post.subscribers == pre.subscribers
    &&& post.tokens == pre.tokens
    &&& post.users == pre.users
    &&& match r {
        PublishOutcome::InvalidKey(e) => {
            &&& !valid_key(body.idempotency_key)
            &&& e == (if body.idempotency_key.len() == 0 {
                KeyError::Empty
            } else {
                KeyError::TooLong
            })
            &&& post == pre
        },
        PublishOutcome::Published(resp) => {
            &&& valid_key(body.idempotency_key)
            &&& !has_record(pre.records, user_id, body.idempotency_key)
            &&& resp@ == see_other_model("/admin/newsletters".spec_bytes())
            &&& resp@.wf()
            &&& post.records == pre.records.push(
                (RecordModel {
                    user_id,
                    key: body.idempotency_key,
                    response: Some(spec_encode(resp@)),
                }),
            )
            &&& post.issues == pre.issues.push(issue_of(body, issue_id, published_at))
            &&& post.tasks == pre.tasks + delivery_tasks_for(pre.subscribers, issue_id)
        },
        PublishOutcome::Replayed(resp) => {
            &&& valid_key(body.idempotency_key)
            &&& has_record(pre.records, user_id, body.idempotency_key)
            &&& record_for(pre.records, user_id, body.idempotency_key).response matches Some(b)
                && spec_decode(b) == Some(resp@)
            &&& post == pre
        },
        PublishOutcome::Conflict => {
            &&& valid_key(body.idempotency_key)
            &&& has_record(pre.records, user_id, body.idempotency_key)
            &&& record_for(pre.records, user_id, body.idempotency_key).response is None
            &&& post == pre
        },
    }
}

/// Runs one submission of the publish command with a caller-chosen issue
/// id.
///
/// Validates the key, then either replays the stored response, reports a
/// concurrent in-flight execution, or executes: one issue row, one
/// delivery task per confirmed subscriber, and the redirect response —
/// created atomically and the response saved under `(user_id, key)`.
pub fn handle_publish_command(
    store: &mut Store,
    user_id: u128,
    body: &BodyData,
    issue_id: u128,
    published_at: u64,
) -> (r: PublishOutcome)
    requires
        old(store)@.wf(),
    ensures
        final(store)@.wf(),
        publish_post(old(store)@, final(store)@, user_id, body@, issue_id, published_at, r),
{
    let ghost pre = store@;
    let key = match IdempotencyKey::parse(body.idempotency_key.clone()) {
        Ok(k) => k,
        Err(e) => {
            return PublishOutcome::InvalidKey(e);
        },
    };
    match try_processing(store, user_id, &key) {
        NextAction::ReturnSavedResponse(resp) => PublishOutcome::Replayed(resp),
        NextAction::Conflict => PublishOutcome::Conflict,
        NextAction::StartProcessing(t) => {
            let mut ticket = t;
            let ghost mid = store@;
            enqueue_issue(
                store,
                &mut ticket,
                issue_id,
                body.title.as_str(),
                body.text_content.as_str(),
                body.html_content.as_str(),
                published_at,
            );
            proof {
                assert(ticket@.pending_issues =~= seq![issue_of(body@, issue_id, published_at)]);
                assert(ticket@.pending_tasks =~= delivery_tasks_for(mid.subscribers, issue_id));
                assert(mid.subscribers == pre.subscribers);
                // The in-flight record just inserted is the unique match
                // for this key, standing at the end.
                let ci = crate::store::record_index(mid.records, user_id, key@);
                assert(has_record(mid.records, user_id, key@)) by {
                    assert(is_record_for(mid.records[pre.records.len() as int], user_id, key@));
                }
                assert(0 <= ci < mid.records.len() && is_record_for(mid.records[ci], user_id, key@));
                if ci < pre.records.len() {
                    assert(mid.records[ci] == pre.records[ci]);
                    assert(has_record(pre.records, user_id, key@));
                }
                assert(ci == pre.records.len());
                assert(record_for(mid.records, user_id, key@).response is None);
            }
            let response = see_other("/admin/newsletters");
            let response = save_response(store, ticket, response);
            proof {
                let post = store@;
                assert(post.records =~= pre.records.push(
                    (RecordModel {
                        user_id,
                        key: body@.idempotency_key,
                        response: Some(spec_encode(response@)),
                    }),
                ));
                assert(post.issues =~= pre.issues.push(issue_of(body@, issue_id, published_at)));
                assert(post.tasks =~= pre.tasks + delivery_tasks_for(pre.subscribers, issue_id));
            }
            PublishOutcome::Published(response)
        },
    }
}

/// The publish endpoint's core: draws a fresh issue id and runs the
/// command.
pub fn publish_newsletter(
    store: &mut Store,
    user_id: u128,
    body: &BodyData,
    published_at: u64,
) -> (r: PublishOutcome)
    requires
        old(store)@.wf(),
    ensures
        final(store)@.wf(),
        exists|issue_id: u128|
            publish_post(old(store)@, final(store)@, user_id, body@, issue_id, published_at, r),
{
    let issue_id = crate::store::fresh_uuid();
    let r = handle_publish_command(store, user_id, body, issue_id, published_at);
    proof {
        assert(publish_post(old(store)@, store@, user_id, body@, issue_id, published_at, r));
    }
    r
}

/// Law: a fresh valid key always executes. When no record exists for
/// `(user_id, key)` and the key is valid, a submission is never replayed,
/// never in conflict, and never rejected: it publishes.
pub proof fn lemma_fresh_key_publishes(
    pre: StoreModel,
    post: StoreModel,
    user_id: u128,
    body: BodyModel,
    issue_id: u128,
    published_at: u64,
    r: PublishOutcome,
)
    requires
        valid_key(body.idempotency_key),
        !has_record(pre.records, user_id, body.idempotency_key),
        publish_post(pre, post, user_id, body, issue_id, published_at, r),
    ensures
        r is Published,
{
}

/// Law: two submissions by the same user under distinct fresh keys are
/// never deduplicated against each other — both publish, and afterwards
/// exactly two issues and two full delivery snapshots have been added,
/// whatever the payloads.
pub proof fn lemma_distinct_keys_publish_twice(
    s0: StoreModel,
    s1: StoreModel,
    s2: StoreModel,
    user_id: u128,
    body1: BodyModel,
    body2: BodyModel,
    id1: u128,
    id2: u128,
    t1: u64,
    t2: u64,
    r1: PublishOutcome,
    r2: PublishOutcome,
)
    requires
        valid_key(body1.idempotency_key),
        valid_key(body2.idempotency_key),
        body1.idempotency_key != body2.idempotency_key,
        !has_record(s0.records, user_id, body1.idempotency_key),
        !has_record(s0.records, user_id, body2.idempotency_key),
        publish_post(s0, s1, user_id, body1, id1, t1, r1),
        publish_post(s1, s2, user_id, body2, id2, t2, r2),
    ensures
        r1 is Published,
        r2 is Published,
        s2.issues == s0.issues.push(issue_of(body1, id1, t1)).push(issue_of(body2, id2, t2)),
        s2.tasks == s0.tasks + delivery_tasks_for(s0.subscribers, id1) + delivery_tasks_for(
            s0.subscribers,
            id2,
        ),
        s2.issues.len() == s0.issues.len() + 2,
{
    lemma_fresh_key_publishes(s0, s1, user_id, body1, id1, t1, r1);
    assert(!has_record(s1.records, user_id, body2.idempotency_key)) by {
        if has_record(s1.records, user_id, body2.idempotency_key) {
            let i = choose|i: int|
                0 <= i < s1.records.len() && is_record_for(
                    s1.records[i],
                    user_id,
                    body2.idempotency_key,
                );
            if i < s0.records.len() {
                assert(s1.records[i] == s0.records[i]);
                assert(has_record(s0.records, user_id, body2.idempotency_key));
            } else {
                assert(s1.records[i].key == body1.idempotency_key);
            }
        }
    }
    lemma_fresh_key_publishes(s1, s2, user_id, body2, id2, t2, r2);
    assert(s2.issues =~= s0.issues.push(issue_of(body1, id1, t1)).push(issue_of(body2, id2, t2)));
    assert(s1.subscribers == s0.subscribers);
    assert(s2.tasks =~= s0.tasks + delivery_tasks_for(s0.subscribers, id1) + delivery_tasks_for(
        s0.subscribers,
        id2,
    ));
}

/// Law: once a submission `(user_id, key)` has published, every further
/// submission with the same key — whatever payload, issue id or timestamp
/// it carries — is replayed byte-identically and changes nothing: the
/// stored response decodes to exactly the response the first submission
/// returned, no second issue appears, no second delivery snapshot is
/// enqueued. Applied along a chain of submissions, this gives every
/// repeat, concurrent or late, the identical answer.
pub proof fn lemma_resubmission_replays(
    s0: StoreModel,
    s1: StoreModel,
    s2: StoreModel,
    user_id: u128,
    body1: BodyModel,
    body2: BodyModel,
    id1: u128,
    id2: u128,
    t1: u64,
    t2: u64,
    r1: PublishOutcome,
    r2: PublishOutcome,
)
    requires
        s0.wf(),
        body2.idempotency_key == body1.idempotency_key,
        publish_post(s0, s1, user_id, body1, id1, t1, r1),
        r1 is Published,
        publish_post(s1, s2, user_id, body2, id2, t2, r2),
    ensures
        r2 is Replayed,
        r1 matches PublishOutcome::Published(resp1) ==> (r2 matches PublishOutcome::Replayed(
            resp2,
        ) && resp2@ == resp1@),
        s2 == s1,
        s2.issues == s1.issues,
        s2.tasks == s1.tasks,
{
    let key = body1.idempotency_key;
    let resp1 = r1->Published_0;
    let new_rec = RecordModel { user_id, key, response: Some(spec_encode(resp1@)) };
    assert(s1.records == s0.records.push(new_rec));
    assert(is_record_for(s1.records[s0.records.len() as int], user_id, key));
    assert(has_record(s1.records, user_id, key));
    let ci = crate::store::record_index(s1.records, user_id, key);
    assert(0 <= ci < s1.records.len() && is_record_for(s1.records[ci], user_id, key));
    if ci < s0.records.len() {
        assert(s1.records[ci] == s0.records[ci]);
        assert(has_record(s0.records, user_id, key));
    }
    assert(ci == s0.records.len());
    assert(record_for(s1.records, user_id, key) == new_rec);
    crate::response::lemma_decode_encode(resp1@);
    match r2 {
        PublishOutcome::InvalidKey(_) => {
            assert(valid_key(key));
            assert(false);
        },
        PublishOutcome::Published(_) => {
            assert(false);
        },
        PublishOutcome::Conflict => {
            assert(false);
        },
        PublishOutcome::Replayed(resp2) => {
            assert(spec_decode(spec_encode(resp1@)) == Some(resp2@));
            assert(resp2@ == resp1@);
        },
    }
}

} // verus!
