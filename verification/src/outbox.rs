//! The transactional outbox: persist the newsletter issue and enqueue one
//! delivery task per confirmed subscriber, in the same transaction.
//!
//! Both writes go onto the processing ticket granted by
//! [`crate::store::try_processing`], so "issue created" and "deliveries
//! enqueued" become visible atomically when
//! [`crate::store::save_response`] commits — if the command aborts instead,
//! neither exists and a retry is equivalent to the first attempt.

use crate::store::{
    some_issue_has_id, ticket_wf, IssueModel, NewsletterIssue, DeliveryTask, ProcessingTicket,
    Store, SubscriberModel, TaskModel,
};
use vstd::prelude::*;

verus! {

/// One delivery task per confirmed subscriber, in subscriber order: the
/// snapshot taken at enqueue time.
pub open spec fn delivery_tasks_for(subs: Seq<SubscriberModel>, issue_id: u128) -> Seq<TaskModel>
    decreases subs.len(),
{
    if subs.len() == 0 {
        Seq::empty()
    } else {
        let rest = delivery_tasks_for(subs.drop_last(), issue_id);
        if subs.last().confirmed {
            rest.push(
                (TaskModel { newsletter_issue_id: issue_id, subscriber_email: subs.last().email }),
            )
        } else {
            rest
        }
    }
}

/// How many of these subscribers are confirmed.
pub open spec fn confirmed_count(subs: Seq<SubscriberModel>) -> nat
    decreases subs.len(),
{
    if subs.len() == 0 {
        0
    } else {
        confirmed_count(subs.drop_last()) + if subs.last().confirmed {
            1nat
        } else {
            0nat
        }
    }
}

/// Law: enqueueing for a subscriber snapshot creates exactly one task per
/// confirmed subscriber — unconfirmed subscribers contribute none.
pub proof fn lemma_delivery_tasks_count(subs: Seq<SubscriberModel>, issue_id: u128)
    ensures
        delivery_tasks_for(subs, issue_id).len() == confirmed_count(subs),
    decreases subs.len(),
{
    if subs.len() > 0 {
        lemma_delivery_tasks_count(subs.drop_last(), issue_id);
    }
}

/// Every task of the snapshot is addressed to the issue being enqueued.
pub proof fn lemma_delivery_tasks_ids(subs: Seq<SubscriberModel>, issue_id: u128)
    ensures
        forall|k: int|
            0 <= k < delivery_tasks_for(subs, issue_id).len() ==> (#[trigger] delivery_tasks_for(
                subs,
                issue_id,
            )[k]).newsletter_issue_id == issue_id,
    decreases subs.len(),
{
    if subs.len() > 0 {
        lemma_delivery_tasks_ids(subs.drop_last(), issue_id);
        let rest = delivery_tasks_for(subs.drop_last(), issue_id);
        let whole = delivery_tasks_for(subs, issue_id);
        assert forall|k: int| 0 <= k < whole.len() implies (
        #[trigger] whole[k]).newsletter_issue_id == issue_id by {
            if k < rest.len() {
                assert(whole[k] == rest[k]);
            }
        }
    }
}

/// Writes the issue and its delivery snapshot onto the ticket.
///
/// Appends the new issue, then one task per subscriber confirmed at this
/// instant — a single pass over the subscriber table, so a confirmation
/// arriving later is not retroactively included. Returns the issue id.
pub fn enqueue_issue(
    store: &Store,
    ticket: &mut ProcessingTicket,
    issue_id: u128,
    title: &str,
    text_content: &str,
    html_content: &str,
    published_at: u64,
) -> (r: u128)
    requires
        ticket_wf(old(ticket)@),
    ensures
        r == issue_id,
        ticket_wf(final(ticket)@),
        final(ticket)@.user_id == old(ticket)@.user_id,
        final(ticket)@.key == old(ticket)@.key,
        final(ticket)@.pending_issues == old(ticket)@.pending_issues.push(
            (IssueModel {
                id: issue_id,
                title: title@,
                text_content: text_content@,
                html_content: html_content@,
                published_at,
            }),
        ),
        final(ticket)@.pending_tasks == old(ticket)@.pending_tasks + delivery_tasks_for(
            store@.subscribers,
            issue_id,
        ),
{
    let ghost old_ticket = ticket@;
    let issue = NewsletterIssue {
        id: issue_id,
        title: title.to_owned(),
        text_content: text_content.to_owned(),
        html_content: html_content.to_owned(),
        published_at,
    };
    ticket.pending_issues.push(issue);
    proof {
        assert(ticket@.pending_issues =~= old_ticket.pending_issues.push(
            (IssueModel {
                id: issue_id,
                title: title@,
                text_content: text_content@,
                html_content: html_content@,
                published_at,
            }),
        ));
        assert(ticket@.pending_tasks =~= old_ticket.pending_tasks);
        assert(delivery_tasks_for(store@.subscribers.take(0), issue_id) =~= Seq::<
            TaskModel,
        >::empty());
        assert(ticket@.pending_tasks =~= old_ticket.pending_tasks + delivery_tasks_for(
            store@.subscribers.take(0),
            issue_id,
        ));
    }
    let ghost subs = store@.subscribers;
    let ghost issues_after = ticket@.pending_issues;
    let n = store.subscribers.len();
    let mut i: usize = 0;
    while i < n
        invariant
            i <= n,
            n == store.subscribers@.len(),
            subs == store@.subscribers,
            subs.len() == n,
            ticket@.user_id == old_ticket.user_id,
            ticket@.key == old_ticket.key,
            ticket@.pending_issues == issues_after,
            ticket@.pending_tasks == old_ticket.pending_tasks + delivery_tasks_for(
                subs.take(i as int),
                issue_id,
            ),
        decreases n - i,
    {
        let ghost tasks_before = ticket@.pending_tasks;
        if store.subscribers[i].confirmed {
            let task = DeliveryTask {
                newsletter_issue_id: issue_id,
                subscriber_email: store.subscribers[i].email.clone(),
            };
            ticket.pending_tasks.push(task);
            proof {
                assert(ticket@.pending_tasks =~= tasks_before.push(
                    (TaskModel {
                        newsletter_issue_id: issue_id,
                        subscriber_email: subs[i as int].email,
                    }),
                ));
            }
        }
        proof {
            let t1 = subs.take(i + 1);
            assert(t1.drop_last() =~= subs.take(i as int));
            assert(t1.last() == subs[i as int]);
            assert(ticket@.pending_tasks =~= old_ticket.pending_tasks + delivery_tasks_for(
                t1,
                issue_id,
            ));
        }
        i = i + 1;
    }
    proof {
        assert(subs.take(n as int) =~= subs);
        let new_t = ticket@;
        lemma_delivery_tasks_ids(subs, issue_id);
        assert forall|k: int|
            0 <= k < new_t.pending_tasks.len() implies some_issue_has_id(
            new_t.pending_issues,
            (#[trigger] new_t.pending_tasks[k]).newsletter_issue_id,
        ) by {
            if k < old_ticket.pending_tasks.len() {
                assert(new_t.pending_tasks[k] == old_ticket.pending_tasks[k]);
                assert(some_issue_has_id(
                    old_ticket.pending_issues,
                    old_ticket.pending_tasks[k].newsletter_issue_id,
                ));
                let j = choose|j: int|
                    0 <= j < old_ticket.pending_issues.len() && (
                    #[trigger] old_ticket.pending_issues[j]).id
                        == old_ticket.pending_tasks[k].newsletter_issue_id;
                assert(new_t.pending_issues[j] == old_ticket.pending_issues[j]);
                assert((new_t.pending_issues[j]).id == new_t.pending_tasks[k].newsletter_issue_id);
            } else {
                let m = k - old_ticket.pending_tasks.len();
                assert(new_t.pending_tasks[k] == delivery_tasks_for(subs, issue_id)[m]);
                assert(new_t.pending_tasks[k].newsletter_issue_id == issue_id);
                let j = old_ticket.pending_issues.len() as int;
                assert((new_t.pending_issues[j]).id == issue_id);
            }
        }
        assert(ticket_wf(new_t));
    }
    issue_id
}

} // verus!
