//! The relational store that every component coordinates through.
//!
//! The store is the single source of truth: the idempotency records, the
//! newsletter issues, the delivery-task queue, the subscribers and their
//! confirmation tokens, and the user accounts all live here. Deduplication
//! of commands and exclusive dequeue of tasks are expressed as operations on
//! this one structure, never as in-process locks, which is what lets many
//! stateless handler and worker instances share it.
//!
//! [`try_processing`] and [`save_response`] form the two-phase protocol
//! around the `(user, key) -> saved response` mapping: the first either
//! grants a processing ticket (inserting an in-flight record) or replays the
//! stored response; the second commits the ticket's pending writes together
//! with the encoded response, atomically. [`rollback`] abandons a ticket and
//! deletes its in-flight record, so a retry starts fresh.

use crate::idempotency::IdempotencyKey;
use crate::response::{
    decode_response, encode_response, spec_decode, spec_encode, SavedResponse,
};
use vstd::prelude::*;

verus! {

/// One row of the idempotency mapping. `response` is the encoded record
/// form of the saved response; while it is absent the row is *in-flight*: a
/// ticket has been issued but the command has not finished.
#[derive(Debug)]
pub struct IdempotencyRecord {
    pub user_id: u128,
    pub key: String,
    pub response: Option<Vec<u8>>,
}

/// The mathematical content of an idempotency record.
#[verifier::ext_equal]
pub struct RecordModel {
    pub user_id: u128,
    pub key: Seq<char>,
    pub response: Option<Seq<u8>>,
}

impl View for IdempotencyRecord {
    type V = RecordModel;

    open spec fn view(&self) -> RecordModel {
        RecordModel {
            user_id: self.user_id,
            key: self.key@,
            response: match self.response {
                Some(ref b) => Some(b@),
                None => None,
            },
        }
    }
}

/// A published newsletter issue. Created once, immutable afterward.
#[derive(Debug)]
pub struct NewsletterIssue {
    pub id: u128,
    pub title: String,
    pub text_content: String,
    pub html_content: String,
    pub published_at: u64,
}

/// The mathematical content of a newsletter issue.
#[verifier::ext_equal]
pub struct IssueModel {
    pub id: u128,
    pub title: Seq<char>,
    pub text_content: Seq<char>,
    pub html_content: Seq<char>,
    pub published_at: u64,
}

impl View for NewsletterIssue {
    type V = IssueModel;

    open spec fn view(&self) -> IssueModel {
        IssueModel {
            id: self.id,
            title: self.title@,
            text_content: self.text_content@,
            html_content: self.html_content@,
            published_at: self.published_at,
        }
    }
}

/// One queued delivery: send one issue to one subscriber. Deleted once a
/// dequeue attempt has been made, never updated in place.
#[derive(Debug)]
pub struct DeliveryTask {
    pub newsletter_issue_id: u128,
    pub subscriber_email: String,
}

/// The mathematical content of a delivery task.
#[verifier::ext_equal]
pub struct TaskModel {
    pub newsletter_issue_id: u128,
    pub subscriber_email: Seq<char>,
}

impl View for DeliveryTask {
    type V = TaskModel;

    open spec fn view(&self) -> TaskModel {
        TaskModel {
            newsletter_issue_id: self.newsletter_issue_id,
            subscriber_email: self.subscriber_email@,
        }
    }
}

/// One mailing-list member; deliveries are enqueued only for confirmed
/// subscribers.
#[derive(Debug)]
pub struct Subscriber {
    pub id: u128,
    pub email: String,
    pub name: String,
    pub confirmed: bool,
}

/// The mathematical content of a subscriber row.
#[verifier::ext_equal]
pub struct SubscriberModel {
    pub id: u128,
    pub email: Seq<char>,
    pub name: Seq<char>,
    pub confirmed: bool,
}

impl View for Subscriber {
    type V = SubscriberModel;

    open spec fn view(&self) -> SubscriberModel {
        SubscriberModel {
            id: self.id,
            email: self.email@,
            name: self.name@,
            confirmed: self.confirmed,
        }
    }
}

/// A pending confirmation token, pointing at the subscriber it was issued
/// for.
#[derive(Debug)]
pub struct SubscriptionToken {
    pub token: String,
    pub subscriber_id: u128,
}

/// The mathematical content of a confirmation token row.
#[verifier::ext_equal]
pub struct TokenModel {
    pub token: Seq<char>,
    pub subscriber_id: u128,
}

impl View for SubscriptionToken {
    type V = TokenModel;

    open spec fn view(&self) -> TokenModel {
        TokenModel { token: self.token@, subscriber_id: self.subscriber_id }
    }
}

/// A user account: who may publish. The password is stored only as a PHC
/// hash string.
#[derive(Debug)]
pub struct User {
    pub user_id: u128,
    pub username: String,
    pub password_hash: String,
}

/// The mathematical content of a user row.
#[verifier::ext_equal]
pub struct UserModel {
    pub user_id: u128,
    pub username: Seq<char>,
    pub password_hash: Seq<char>,
}

impl View for User {
    type V = UserModel;

    open spec fn view(&self) -> UserModel {
        UserModel {
            user_id: self.user_id,
            username: self.username@,
            password_hash: self.password_hash@,
        }
    }
}

/// The whole store, as the contracts see it.
#[verifier::ext_equal]
pub struct StoreModel {
    pub records: Seq<RecordModel>,
    pub issues: Seq<IssueModel>,
    pub tasks: Seq<TaskModel>,
    pub subscribers: Seq<SubscriberModel>,
    pub tokens: Seq<TokenModel>,
    pub users: Seq<UserModel>,
}

/// Does `r` belong to `(user_id, key)`?
pub open spec fn is_record_for(r: RecordModel, user_id: u128, key: Seq<char>) -> bool {
    r.user_id == user_id && r.key == key
}

/// Is there a record for `(user_id, key)`?
pub open spec fn has_record(records: Seq<RecordModel>, user_id: u128, key: Seq<char>) -> bool {
    exists|i: int| 0 <= i < records.len() && is_record_for(records[i], user_id, key)
}

/// The index of the record for `(user_id, key)`; meaningful only when
/// [`has_record`] holds (and then unique, by [`StoreModel::wf`]).
pub open spec fn record_index(records: Seq<RecordModel>, user_id: u128, key: Seq<char>) -> int {
    choose|i: int| 0 <= i < records.len() && is_record_for(records[i], user_id, key)
}

/// The record for `(user_id, key)`.
pub open spec fn record_for(records: Seq<RecordModel>, user_id: u128, key: Seq<char>) -> RecordModel {
    records[record_index(records, user_id, key)]
}

/// At most one record per `(user_id, key)`: the uniqueness constraint that
/// gates concurrent duplicate commands.
pub open spec fn records_unique(rs: Seq<RecordModel>) -> bool {
    forall|i: int, j: int|
        0 <= i < j < rs.len() ==> !((#[trigger] rs[i]).user_id == (#[trigger] rs[j]).user_id
            && rs[i].key == rs[j].key)
}

/// Every completed record holds the record form of a storable response, so
/// a replay can always be decoded.
pub open spec fn records_decodable(rs: Seq<RecordModel>) -> bool {
    forall|i: int|
        0 <= i < rs.len() ==> match (#[trigger] rs[i]).response {
            Some(b) => match spec_decode(b) {
                Some(m) => m.wf(),
                None => false,
            },
            None => true,
        }
}

/// Is some issue of the sequence the one with this id?
pub open spec fn some_issue_has_id(issues: Seq<IssueModel>, id: u128) -> bool {
    exists|j: int| 0 <= j < issues.len() && (#[trigger] issues[j]).id == id
}

/// Every queued task points at an issue that exists: tasks are only ever
/// committed together with their issue.
pub open spec fn tasks_ref_issues(tasks: Seq<TaskModel>, issues: Seq<IssueModel>) -> bool {
    forall|i: int|
        0 <= i < tasks.len() ==> some_issue_has_id(
            issues,
            (#[trigger] tasks[i]).newsletter_issue_id,
        )
}

impl StoreModel {
    /// The store's invariant.
    pub open spec fn wf(self) -> bool {
        &&& records_unique(self.records)
        &&& records_decodable(self.records)
        &&& tasks_ref_issues(self.tasks, self.issues)
    }
}

/// The store itself: the logical tables, as plain vectors.
#[derive(Debug)]
pub struct Store {
    pub records: Vec<IdempotencyRecord>,
    pub issues: Vec<NewsletterIssue>,
    pub tasks: Vec<DeliveryTask>,
    pub subscribers: Vec<Subscriber>,
    pub tokens: Vec<SubscriptionToken>,
    pub users: Vec<User>,
}

impl View for Store {
    type V = StoreModel;

    open spec fn view(&self) -> StoreModel {
        StoreModel {
            records: self.records@.map_values(|r: IdempotencyRecord| r@),
            issues: self.issues@.map_values(|r: NewsletterIssue| r@),
            tasks: self.tasks@.map_values(|r: DeliveryTask| r@),
            subscribers: self.subscribers@.map_values(|r: Subscriber| r@),
            tokens: self.tokens@.map_values(|r: SubscriptionToken| r@),
            users: self.users@.map_values(|r: User| r@),
        }
    }
}

impl Store {
    /// An empty store.
    pub fn new() -> (s: Store)
        ensures
            s@.records =~= Seq::<RecordModel>::empty(),
            s@.issues =~= Seq::<IssueModel>::empty(),
            s@.tasks =~= Seq::<TaskModel>::empty(),
            s@.subscribers =~= Seq::<SubscriberModel>::empty(),
            s@.tokens =~= Seq::<TokenModel>::empty(),
            s@.users =~= Seq::<UserModel>::empty(),
            s@.wf(),
    {
        let s = Store {
            records: Vec::new(),
            issues: Vec::new(),
            tasks: Vec::new(),
            subscribers: Vec::new(),
            tokens: Vec::new(),
            users: Vec::new(),
        };
        proof {
            assert(s@.records =~= Seq::<RecordModel>::empty());
            assert(s@.issues =~= Seq::<IssueModel>::empty());
            assert(s@.tasks =~= Seq::<TaskModel>::empty());
            assert(s@.subscribers =~= Seq::<SubscriberModel>::empty());
            assert(s@.tokens =~= Seq::<TokenModel>::empty());
            assert(s@.users =~= Seq::<UserModel>::empty());
        }
        s
    }
}

/// Relies on `uuid::Uuid::new_v4` for a fresh random row id, taken as its
/// 128-bit value; nothing is assumed of the result.
#[verifier::external_body]
pub(crate) fn fresh_uuid() -> u128 {
    uuid::Uuid::new_v4().as_u128()
}

/// Character-for-character string comparison.
pub fn str_eq(a: &str, b: &str) -> (r: bool)
    ensures
        r == (a@ == b@),
{
    let la = a.unicode_len();
    let lb = b.unicode_len();
    if la != lb {
        proof {
            assert(a@ != b@);
        }
        return false;
    }
    let mut i: usize = 0;
    while i < la
        invariant
            i <= la,
            la == a@.len(),
            la == b@.len(),
            forall|k: int| 0 <= k < i ==> a@[k] == b@[k],
        decreases la - i,
    {
        if a.get_char(i) != b.get_char(i) {
            return false;
        }
        i = i + 1;
    }
    proof {
        assert(a@ =~= b@);
    }
    true
}

/// A processing ticket: the open transaction granted by [`try_processing`].
/// Everything the command writes is pending here until [`save_response`]
/// commits it together with the response, or [`rollback`] discards it.
pub struct ProcessingTicket {
    pub user_id: u128,
    pub key: String,
    pub pending_issues: Vec<NewsletterIssue>,
    pub pending_tasks: Vec<DeliveryTask>,
}

/// The mathematical content of a ticket.
#[verifier::ext_equal]
pub struct TicketModel {
    pub user_id: u128,
    pub key: Seq<char>,
    pub pending_issues: Seq<IssueModel>,
    pub pending_tasks: Seq<TaskModel>,
}

impl View for ProcessingTicket {
    type V = TicketModel;

    open spec fn view(&self) -> TicketModel {
        TicketModel {
            user_id: self.user_id,
            key: self.key@,
            pending_issues: self.pending_issues@.map_values(|r: NewsletterIssue| r@),
            pending_tasks: self.pending_tasks@.map_values(|r: DeliveryTask| r@),
        }
    }
}

/// Every pending task points at a pending issue: a ticket never enqueues a
/// delivery for an issue it does not also create.
pub open spec fn ticket_wf(t: TicketModel) -> bool {
    forall|i: int|
        0 <= i < t.pending_tasks.len() ==> some_issue_has_id(
            t.pending_issues,
            (#[trigger] t.pending_tasks[i]).newsletter_issue_id,
        )
}

/// What [`try_processing`] can answer.
pub enum NextAction {
    /// No record existed: an in-flight record was inserted and the caller
    /// must run the command, then finish with [`save_response`] or
    /// [`rollback`].
    StartProcessing(ProcessingTicket),
    /// A completed record existed: here is its response, decoded; the
    /// caller must answer with it and must not re-execute the command.
    ReturnSavedResponse(SavedResponse),
    /// An in-flight record existed: another execution holds the ticket.
    /// This models the bounded wait for that execution expiring; the caller
    /// should report "retry later".
    Conflict,
}

fn find_record(records: &Vec<IdempotencyRecord>, user_id: u128, key: &str) -> (r: Option<usize>)
    ensures
        match r {
            Some(i) => i < records@.len() && is_record_for(
                records@.map_values(|x: IdempotencyRecord| x@)[i as int],
                user_id,
                key@,
            ),
            None => !has_record(records@.map_values(|x: IdempotencyRecord| x@), user_id, key@),
        },
{
    let ghost rm = records@.map_values(|x: IdempotencyRecord| x@);
    let n = records.len();
    let mut i: usize = 0;
    while i < n
        invariant
            i <= n,
            n == records@.len(),
            rm == records@.map_values(|x: IdempotencyRecord| x@),
            forall|k: int| 0 <= k < i ==> !is_record_for(rm[k], user_id, key@),
        decreases n - i,
    {
        if records[i].user_id == user_id && str_eq(records[i].key.as_str(), key) {
            return Some(i);
        }
        i = i + 1;
    }
    None
}

/// Asks the store for permission to run the command `(user_id, key)`.
///
/// Tries to insert an in-flight record. If none existed, the insert
/// succeeds and the caller gets a [`NextAction::StartProcessing`] ticket
/// tied to `(user_id, key)`, with nothing pending yet. If a completed
/// record existed, its stored response is decoded and returned and the
/// store is untouched. If an in-flight record existed, the concurrent
/// execution's outcome is awaited; past the wait bound this surfaces as
/// [`NextAction::Conflict`], with the store untouched.
pub fn try_processing(store: &mut Store, user_id: u128, key: &IdempotencyKey) -> (r: NextAction)
    requires
        old(store)@.wf(),
    ensures
        final(store)@.wf(),
        final(store)@.issues == old(store)@.issues,
        final(store)@.tasks == old(store)@.tasks,
        final(store)@.subscribers == old(store)@.subscribers,
        final(store)@.tokens == old(store)@.tokens,
        final(store)@.users == old(store)@.users,
        match r {
            NextAction::StartProcessing(t) => {
                &&& !has_record(old(store)@.records, user_id, key@)
                &&& final(store)@.records == old(store)@.records.push(
                    (RecordModel { user_id, key: key@, response: None }),
                )
                &&& t@.user_id == user_id
                &&& t@.key == key@
                &&& t@.pending_issues =~= Seq::<IssueModel>::empty()
                &&& t@.pending_tasks =~= Seq::<TaskModel>::empty()
            },
            NextAction::ReturnSavedResponse(resp) => {
                &&& has_record(old(store)@.records, user_id, key@)
                &&& record_for(old(store)@.records, user_id, key@).response matches Some(b)
                    && spec_decode(b) == Some(resp@)
                &&& final(store)@.records == old(store)@.records
            },
            NextAction::Conflict => {
                &&& has_record(old(store)@.records, user_id, key@)
                &&& record_for(old(store)@.records, user_id, key@).response is None
                &&& final(store)@.records == old(store)@.records
            },
        },
{
    let ghost old_rm = store@.records;
    match find_record(&store.records, user_id, key.as_ref()) {
        Some(i) => {
            proof {
                assert(has_record(old_rm, user_id, key@));
                let ci = record_index(old_rm, user_id, key@);
                assert(0 <= ci < old_rm.len() && is_record_for(old_rm[ci], user_id, key@));
                assert(ci == i as int);
            }
            match store.records[i].response {
                Some(ref bytes) => {
                    let decoded = decode_response(bytes.as_slice());
                    match decoded {
                        Some(resp) => NextAction::ReturnSavedResponse(resp),
                        None => {
                            proof {
                                assert(false);
                            }
                            NextAction::Conflict
                        },
                    }
                },
                None => NextAction::Conflict,
            }
        },
        None => {
            let rec = IdempotencyRecord {
                user_id,
                key: key.as_ref().to_owned(),
                response: None,
            };
            store.records.push(rec);
            let ticket = ProcessingTicket {
                user_id,
                key: key.as_ref().to_owned(),
                pending_issues: Vec::new(),
                pending_tasks: Vec::new(),
            };
            proof {
                assert(store@.records =~= old_rm.push(
                    (RecordModel { user_id, key: key@, response: None }),
                ));
                assert(store@.issues =~= old(store)@.issues);
                assert(store@.tasks =~= old(store)@.tasks);
                assert(store@.subscribers =~= old(store)@.subscribers);
                assert(store@.tokens =~= old(store)@.tokens);
                assert(store@.users =~= old(store)@.users);
                let new_rm = store@.records;
                assert forall|i: int, j: int| 0 <= i < j < new_rm.len() implies !((
                #[trigger] new_rm[i]).user_id == (#[trigger] new_rm[j]).user_id && new_rm[i].key
                    == new_rm[j].key) by {
                    if j < old_rm.len() {
                        assert(new_rm[i] == old_rm[i]);
                        assert(new_rm[j] == old_rm[j]);
                    } else {
                        assert(new_rm[i] == old_rm[i]);
                        if new_rm[i].user_id == user_id && new_rm[i].key == key@ {
                            assert(is_record_for(old_rm[i], user_id, key@));
                            assert(has_record(old_rm, user_id, key@));
                        }
                    }
                }
                assert forall|i: int| 0 <= i < new_rm.len() implies match (
                #[trigger] new_rm[i]).response {
                    Some(b) => match spec_decode(b) {
                        Some(m) => m.wf(),
                        None => false,
                    },
                    None => true,
                } by {
                    if i < old_rm.len() {
                        assert(new_rm[i] == old_rm[i]);
                    }
                }
                assert(records_unique(new_rm));
                assert(records_decodable(new_rm));
            }
            NextAction::StartProcessing(ticket)
        },
    }
}

/// Reads the saved response for `(user_id, key)`, if the command has
/// completed; reads nothing and changes nothing otherwise.
pub fn get_saved_response(store: &Store, user_id: u128, key: &IdempotencyKey) -> (r: Option<
    SavedResponse,
>)
    requires
        store@.wf(),
    ensures
        match r {
            Some(resp) => {
                &&& has_record(store@.records, user_id, key@)
                &&& record_for(store@.records, user_id, key@).response matches Some(b)
                    && spec_decode(b) == Some(resp@)
            },
            None => !has_record(store@.records, user_id, key@) || record_for(
                store@.records,
                user_id,
                key@,
            ).response is None,
        },
{
    let ghost rm = store@.records;
    match find_record(&store.records, user_id, key.as_ref()) {
        Some(i) => {
            proof {
                let ci = record_index(rm, user_id, key@);
                assert(0 <= ci < rm.len() && is_record_for(rm[ci], user_id, key@));
                assert(ci == i as int);
            }
            match store.records[i].response {
                Some(ref bytes) => {
                    let decoded = decode_response(bytes.as_slice());
                    match decoded {
                        Some(resp) => Some(resp),
                        None => {
                            proof {
                                assert(false);
                            }
                            None
                        },
                    }
                },
                None => None,
            }
        },
        None => None,
    }
}

/// Commits the command `(ticket.user_id, ticket.key)`: encodes the response
/// into the in-flight record created by the matching [`try_processing`]
/// call, appends the ticket's pending issues and tasks, and hands the same
/// response back so the caller can answer with it. All of it becomes
/// visible together: this is the atomicity of the outbox.
pub fn save_response(store: &mut Store, ticket: ProcessingTicket, response: SavedResponse) -> (r:
    SavedResponse)
    requires
        old(store)@.wf(),
        response.wf(),
        ticket_wf(ticket@),
        has_record(old(store)@.records, ticket.user_id, ticket@.key),
        record_for(old(store)@.records, ticket.user_id, ticket@.key).response is None,
    ensures
        final(store)@.wf(),
        r == response,
        final(store)@.records == old(store)@.records.update(
            record_index(old(store)@.records, ticket.user_id, ticket@.key),
            (RecordModel {
                user_id: ticket.user_id,
                key: ticket@.key,
                response: Some(spec_encode(response@)),
            }),
        ),
        final(store)@.issues == old(store)@.issues + ticket@.pending_issues,
        final(store)@.tasks == old(store)@.tasks + ticket@.pending_tasks,
        final(store)@.subscribers == old(store)@.subscribers,
        final(store)@.tokens == old(store)@.tokens,
        final(store)@.users == old(store)@.users,
{
    let ghost old_model = store@;
    let ProcessingTicket { user_id, key, mut pending_issues, mut pending_tasks } = ticket;
    let idx = match find_record(&store.records, user_id, key.as_str()) {
        Some(i) => i,
        None => {
            proof {
                assert(false);
            }
            0
        },
    };
    proof {
        let ci = record_index(old_model.records, user_id, key@);
        assert(0 <= ci < old_model.records.len() && is_record_for(
            old_model.records[ci],
            user_id,
            key@,
        ));
        assert(ci == idx as int);
    }
    let bytes = encode_response(&response);
    proof {
        crate::response::lemma_saved_response_model_wf(response);
        crate::response::lemma_decode_encode(response@);
    }
    let rec = IdempotencyRecord { user_id, key, response: Some(bytes) };
    store.records[idx] = rec;
    store.issues.append(&mut pending_issues);
    store.tasks.append(&mut pending_tasks);
    proof {
        assert(store@.records =~= old_model.records.update(
            record_index(old_model.records, user_id, ticket@.key),
            (RecordModel {
                user_id,
                key: ticket@.key,
                response: Some(spec_encode(response@)),
            }),
        ));
        assert(store@.issues =~= old_model.issues + ticket@.pending_issues);
        assert(store@.tasks =~= old_model.tasks + ticket@.pending_tasks);
        assert(store@.subscribers =~= old_model.subscribers);
        assert(store@.tokens =~= old_model.tokens);
        assert(store@.users =~= old_model.users);
        assert_store_wf_after_commit(old_model, store@, ticket@, response@);
    }
    response
}

proof fn assert_store_wf_after_commit(
    old_model: StoreModel,
    new_model: StoreModel,
    t: TicketModel,
    resp: crate::response::ResponseModel,
)
    requires
        old_model.wf(),
        ticket_wf(t),
        resp.wf(),
        has_record(old_model.records, t.user_id, t.key),
        new_model.records == old_model.records.update(
            record_index(old_model.records, t.user_id, t.key),
            (RecordModel {
                user_id: t.user_id,
                key: t.key,
                response: Some(spec_encode(resp)),
            }),
        ),
        new_model.issues == old_model.issues + t.pending_issues,
        new_model.tasks == old_model.tasks + t.pending_tasks,
    ensures
        new_model.wf(),
{
    crate::response::lemma_decode_encode(resp);
    let ci = record_index(old_model.records, t.user_id, t.key);
    assert(0 <= ci < old_model.records.len() && is_record_for(
        old_model.records[ci],
        t.user_id,
        t.key,
    ));
    assert forall|i: int|
        0 <= i < new_model.records.len() implies (#[trigger] new_model.records[i]).user_id
        == old_model.records[i].user_id && new_model.records[i].key
        == old_model.records[i].key by {
        if i != ci {
            assert(new_model.records[i] == old_model.records[i]);
        }
    }
    assert(records_unique(new_model.records));
    assert forall|i: int| 0 <= i < new_model.records.len() implies match (
    #[trigger] new_model.records[i]).response {
        Some(b) => match spec_decode(b) {
            Some(m) => m.wf(),
            None => false,
        },
        None => true,
    } by {
        if i != ci {
            assert(new_model.records[i] == old_model.records[i]);
        } else {
            assert(new_model.records[i].response == Some(spec_encode(resp)));
        }
    }
    assert(records_decodable(new_model.records));
    assert forall|i: int|
        0 <= i < new_model.tasks.len() implies some_issue_has_id(
        new_model.issues,
        (#[trigger] new_model.tasks[i]).newsletter_issue_id,
    ) by {
        if i < old_model.tasks.len() {
            assert(new_model.tasks[i] == old_model.tasks[i]);
            assert(some_issue_has_id(
                old_model.issues,
                old_model.tasks[i].newsletter_issue_id,
            ));
            let j = choose|j: int|
                0 <= j < old_model.issues.len() && (#[trigger] old_model.issues[j]).id
                    == old_model.tasks[i].newsletter_issue_id;
            assert(new_model.issues[j] == old_model.issues[j]);
            assert((new_model.issues[j]).id == new_model.tasks[i].newsletter_issue_id);
        } else {
            let k = i - old_model.tasks.len();
            assert(new_model.tasks[i] == t.pending_tasks[k]);
            assert(some_issue_has_id(
                t.pending_issues,
                t.pending_tasks[k].newsletter_issue_id,
            ));
            let j = choose|j: int|
                0 <= j < t.pending_issues.len() && (#[trigger] t.pending_issues[j]).id
                    == t.pending_tasks[k].newsletter_issue_id;
            assert(new_model.issues[old_model.issues.len() + j] == t.pending_issues[j]);
            assert((new_model.issues[old_model.issues.len() + j]).id
                == new_model.tasks[i].newsletter_issue_id);
        }
    }
    assert(tasks_ref_issues(new_model.tasks, new_model.issues));
}

/// Abandons the command `(ticket.user_id, ticket.key)`: the in-flight
/// record is deleted and the pending writes are discarded, so the next
/// retry with the same key gets a fresh ticket instead of being stuck
/// behind a phantom in-flight row.
pub fn rollback(store: &mut Store, ticket: ProcessingTicket)
    requires
        old(store)@.wf(),
        has_record(old(store)@.records, ticket.user_id, ticket@.key),
        record_for(old(store)@.records, ticket.user_id, ticket@.key).response is None,
    ensures
        final(store)@.wf(),
        final(store)@.records == old(store)@.records.remove(
            record_index(old(store)@.records, ticket.user_id, ticket@.key),
        ),
        final(store)@.issues == old(store)@.issues,
        final(store)@.tasks == old(store)@.tasks,
        final(store)@.subscribers == old(store)@.subscribers,
        final(store)@.tokens == old(store)@.tokens,
        final(store)@.users == old(store)@.users,
{
    let ghost old_model = store@;
    let ProcessingTicket { user_id, key, pending_issues: _, pending_tasks: _ } = ticket;
    let idx = match find_record(&store.records, user_id, key.as_str()) {
        Some(i) => i,
        None => {
            proof {
                assert(false);
            }
            0
        },
    };
    proof {
        let ci = record_index(old_model.records, user_id, key@);
        assert(0 <= ci < old_model.records.len() && is_record_for(
            old_model.records[ci],
            user_id,
            key@,
        ));
        assert(ci == idx as int);
    }
    store.records.remove(idx);
    proof {
        assert(store@.records =~= old_model.records.remove(
            record_index(old_model.records, user_id, ticket@.key),
        ));
        assert(store@.issues =~= old_model.issues);
        assert(store@.tasks =~= old_model.tasks);
        assert(store@.subscribers =~= old_model.subscribers);
        assert(store@.tokens =~= old_model.tokens);
        assert(store@.users =~= old_model.users);
        let ci = idx as int;
        let old_rm = old_model.records;
        let new_rm = store@.records;
        assert(forall|k: int| 0 <= k < ci ==> #[trigger] new_rm[k] == old_rm[k]);
        assert(forall|k: int| ci <= k < new_rm.len() ==> #[trigger] new_rm[k] == old_rm[k + 1]);
        assert forall|i: int, j: int| 0 <= i < j < new_rm.len() implies !((#[trigger] new_rm[i]).user_id
            == (#[trigger] new_rm[j]).user_id && new_rm[i].key == new_rm[j].key) by {
            let i2: int = if i < ci { i } else { i + 1 };
            let j2: int = if j < ci { j } else { j + 1 };
            assert(new_rm[i] == old_rm[i2]);
            assert(new_rm[j] == old_rm[j2]);
            assert(0 <= i2 < j2 < old_rm.len());
        }
        assert(records_unique(new_rm));
        assert forall|i: int| 0 <= i < new_rm.len() implies match (#[trigger] new_rm[i]).response {
            Some(b) => match spec_decode(b) {
                Some(m) => m.wf(),
                None => false,
            },
            None => true,
        } by {
            let i2: int = if i < ci { i } else { i + 1 };
            assert(new_rm[i] == old_rm[i2]);
        }
        assert(records_decodable(new_rm));
    }
}

} // verus!
