//! The delivery worker: dequeue one task, decide its delivery, remove it.
//!
//! One or more worker instances loop over [`try_execute_task`] until it
//! answers [`ExecutionOutcome::EmptyQueue`]. Claiming and removing a task
//! is one atomic store operation — the in-store row lock that lets
//! concurrent workers skip each other's rows — so no task is ever picked
//! up twice, and a task is dequeued at most once whatever the
//! interleaving. The actual transport call is the driver's: the worker
//! hands it the send it decided on, and a transport failure is terminal
//! for that task (it is already removed, never retried).

use crate::domain::{is_valid_email, SubscriberEmail};
use crate::store::{
    some_issue_has_id, IssueModel, NewsletterIssue, Store, TaskModel,
};
use vstd::prelude::*;

verus! {

/// One decided delivery: what the driver should hand the e-mail transport.
#[derive(Clone, Debug)]
pub struct SendRequest {
    pub recipient: String,
    pub title: String,
    pub html_content: String,
    pub text_content: String,
}

/// The mathematical content of a send request.
#[verifier::ext_equal]
pub struct SendModel {
    pub recipient: Seq<char>,
    pub title: Seq<char>,
    pub html_content: Seq<char>,
    pub text_content: Seq<char>,
}

impl View for SendRequest {
    type V = SendModel;

    open spec fn view(&self) -> SendModel {
        SendModel {
            recipient: self.recipient@,
            title: self.title@,
            html_content: self.html_content@,
            text_content: self.text_content@,
        }
    }
}

/// What one call of [`try_execute_task`] did.
pub enum ExecutionOutcome {
    /// A task was dequeued and removed. The payload is the delivery the
    /// driver should perform — absent when the task was skipped because
    /// its stored address is invalid (a permanent, non-retryable
    /// condition).
    TaskCompleted(Option<SendRequest>),
    /// No task was available; nothing changed.
    EmptyQueue,
}

/// The first issue of the sequence with this id.
pub open spec fn find_issue(issues: Seq<IssueModel>, id: u128) -> Option<IssueModel>
    decreases issues.len(),
{
    if issues.len() == 0 {
        None
    } else if issues[0].id == id {
        Some(issues[0])
    } else {
        find_issue(issues.drop_first(), id)
    }
}

/// The delivery a task calls for: its issue's content addressed to its
/// subscriber, or nothing when the stored address is invalid or the issue
/// is unknown.
pub open spec fn send_for_task(t: TaskModel, issues: Seq<IssueModel>) -> Option<SendModel> {
    if !is_valid_email(t.subscriber_email) {
        None
    } else {
        match find_issue(issues, t.newsletter_issue_id) {
            None => None,
            Some(iss) => Some(
                (SendModel {
                    recipient: t.subscriber_email,
                    title: iss.title,
                    html_content: iss.html_content,
                    text_content: iss.text_content,
                }),
            ),
        }
    }
}

proof fn lemma_find_issue_some(issues: Seq<IssueModel>, id: u128)
    requires
        some_issue_has_id(issues, id),
    ensures
        find_issue(issues, id) is Some,
    decreases issues.len(),
{
    let j = choose|j: int| 0 <= j < issues.len() && (#[trigger] issues[j]).id == id;
    if issues[0].id != id {
        assert(issues.drop_first()[j - 1] == issues[j]);
        assert(some_issue_has_id(issues.drop_first(), id));
        lemma_find_issue_some(issues.drop_first(), id);
    }
}

/// Looks a newsletter issue up by id; finds the first match.
fn get_issue<'a>(issues: &'a Vec<NewsletterIssue>, id: u128) -> (r: Option<&'a NewsletterIssue>)
    ensures
        match r {
            Some(iss) => find_issue(issues@.map_values(|x: NewsletterIssue| x@), id) == Some(iss@),
            None => find_issue(issues@.map_values(|x: NewsletterIssue| x@), id) is None,
        },
{
    let ghost im = issues@.map_values(|x: NewsletterIssue| x@);
    let n = issues.len();
    let mut i: usize = 0;
    proof {
        assert(im.skip(0) =~= im);
    }
    while i < n
        invariant
            i <= n,
            n == issues@.len(),
            im == issues@.map_values(|x: NewsletterIssue| x@),
            im.len() == n,
            find_issue(im, id) == find_issue(im.skip(i as int), id),
        decreases n - i,
    {
        if issues[i].id == id {
            proof {
                assert(im.skip(i as int)[0] == im[i as int]);
            }
            return Some(&issues[i]);
        }
        proof {
            let s = im.skip(i as int);
            assert(s[0] == im[i as int]);
            assert(s.drop_first() =~= im.skip(i + 1));
        }
        i = i + 1;
    }
    proof {
        assert(im.skip(n as int) =~= Seq::<IssueModel>::empty());
    }
    None
}

/// Dequeues one task, decides its delivery, and removes the task — all as
/// one atomic store operation, so concurrent workers never process the
/// same task.
///
/// An empty queue is answered with [`ExecutionOutcome::EmptyQueue`] and no
/// change at all. Otherwise the head task leaves the queue and the
/// decision comes back: a send exactly when the stored address is valid
/// (and the issue, which a well-formed store always has, is found);
/// nothing — a logged skip — when the address is invalid.
pub fn try_execute_task(store: &mut Store) -> (r: ExecutionOutcome)
    requires
        old(store)@.wf(),
    ensures
        final(store)@.wf(),
        final(store)@.records == old(store)@.records,
        final(store)@.issues == old(store)@.issues,
        final(store)@.subscribers == old(store)@.subscribers,
        final(store)@.tokens == old(store)@.tokens,
        final(store)@.users == old(store)@.users,
        match r {
            ExecutionOutcome::EmptyQueue => old(store)@.tasks.len() == 0 && final(store)@.tasks
                == old(store)@.tasks,
            ExecutionOutcome::TaskCompleted(send) => {
                &&& old(store)@.tasks.len() > 0
                &&& final(store)@.tasks == old(store)@.tasks.drop_first()
                &&& (match send {
                    Some(rq) => send_for_task(old(store)@.tasks[0], old(store)@.issues) == Some(
                        rq@,
                    ),
                    None => send_for_task(old(store)@.tasks[0], old(store)@.issues) is None,
                })
            },
        },
{
    let ghost old_model = store@;
    if store.tasks.len() == 0 {
        proof {
            assert(old_model.tasks.len() == 0);
        }
        return ExecutionOutcome::EmptyQueue;
    }
    let task = store.tasks.remove(0);
    proof {
        assert(store@.tasks =~= old_model.tasks.drop_first());
        assert(store@.records =~= old_model.records);
        assert(store@.issues =~= old_model.issues);
        assert(store@.subscribers =~= old_model.subscribers);
        assert(store@.tokens =~= old_model.tokens);
        assert(store@.users =~= old_model.users);
        assert(task@ == old_model.tasks[0]);
        let new_tasks = store@.tasks;
        assert forall|i: int|
            0 <= i < new_tasks.len() implies some_issue_has_id(
            store@.issues,
            (#[trigger] new_tasks[i]).newsletter_issue_id,
        ) by {
            assert(new_tasks[i] == old_model.tasks[i + 1]);
        }
    }
    let send = match SubscriberEmail::parse(task.subscriber_email.as_str()) {
        Ok(_) => {
            proof {
                assert(some_issue_has_id(
                    old_model.issues,
                    old_model.tasks[0].newsletter_issue_id,
                ));
                lemma_find_issue_some(old_model.issues, old_model.tasks[0].newsletter_issue_id);
            }
            match get_issue(&store.issues, task.newsletter_issue_id) {
                Some(issue) => Some(
                    SendRequest {
                        recipient: task.subscriber_email,
                        title: issue.title.clone(),
                        html_content: issue.html_content.clone(),
                        text_content: issue.text_content.clone(),
                    },
                ),
                None => {
                    proof {
                        assert(false);
                    }
                    None
                },
            }
        },
        Err(_) => {
            // A malformed stored address is permanent: the task is
            // dropped without a transport attempt, and the driver logs
            // the skip.
            None
        },
    };
    ExecutionOutcome::TaskCompleted(send)
}

/// The sends a worker loop performs when it drains this queue, in order.
pub open spec fn sends_for_tasks(tasks: Seq<TaskModel>, issues: Seq<IssueModel>) -> Seq<SendModel>
    decreases tasks.len(),
{
    if tasks.len() == 0 {
        Seq::empty()
    } else {
        let rest = sends_for_tasks(tasks.drop_first(), issues);
        match send_for_task(tasks[0], issues) {
            Some(s) => seq![s] + rest,
            None => rest,
        }
    }
}

/// One worker loop instance, run until the queue is empty: dequeues task
/// after task and collects the deliveries the driver should perform, in
/// queue order. Afterward the queue holds nothing and every other table is
/// untouched.
pub fn run_worker(store: &mut Store) -> (sends: Vec<SendRequest>)
    requires
        old(store)@.wf(),
    ensures
        final(store)@.wf(),
        final(store)@.tasks.len() == 0,
        final(store)@.records == old(store)@.records,
        final(store)@.issues == old(store)@.issues,
        final(store)@.subscribers == old(store)@.subscribers,
        final(store)@.tokens == old(store)@.tokens,
        final(store)@.users == old(store)@.users,
        sends@.map_values(|s: SendRequest| s@) == sends_for_tasks(
            old(store)@.tasks,
            old(store)@.issues,
        ),
{
    let ghost old_model = old(store)@;
    let mut sends: Vec<SendRequest> = Vec::new();
    proof {
        assert(sends@.map_values(|s: SendRequest| s@) =~= Seq::<SendModel>::empty());
    }
    loop
        invariant
            store@.wf(),
            store@.records == old_model.records,
            store@.issues == old_model.issues,
            store@.subscribers == old_model.subscribers,
            store@.tokens == old_model.tokens,
            store@.users == old_model.users,
            sends@.map_values(|s: SendRequest| s@) + sends_for_tasks(store@.tasks, store@.issues)
                == sends_for_tasks(old_model.tasks, old_model.issues),
        ensures
            store@.wf(),
            store@.tasks.len() == 0,
            store@.records == old_model.records,
            store@.issues == old_model.issues,
            store@.subscribers == old_model.subscribers,
            store@.tokens == old_model.tokens,
            store@.users == old_model.users,
            sends@.map_values(|s: SendRequest| s@) == sends_for_tasks(
                old_model.tasks,
                old_model.issues,
            ),
        decreases store@.tasks.len(),
    {
        let ghost tasks_before = store@.tasks;
        let ghost sends_before = sends@.map_values(|s: SendRequest| s@);
        match try_execute_task(store) {
            ExecutionOutcome::EmptyQueue => {
                proof {
                    assert(sends_for_tasks(store@.tasks, store@.issues) =~= Seq::<
                        SendModel,
                    >::empty());
                    assert(sends_before + Seq::<SendModel>::empty() =~= sends_before);
                }
                break ;
            },
            ExecutionOutcome::TaskCompleted(send) => {
                match send {
                    Some(rq) => {
                        sends.push(rq);
                        proof {
                            assert(sends@.map_values(|s: SendRequest| s@) =~= sends_before.push(
                                rq@,
                            ));
                            assert(sends_for_tasks(tasks_before, store@.issues) == seq![rq@]
                                + sends_for_tasks(store@.tasks, store@.issues));
                            assert(sends_before.push(rq@) + sends_for_tasks(
                                store@.tasks,
                                store@.issues,
                            ) =~= sends_before + (seq![rq@] + sends_for_tasks(
                                store@.tasks,
                                store@.issues,
                            )));
                        }
                    },
                    None => {
                        proof {
                            assert(sends_for_tasks(tasks_before, store@.issues) == sends_for_tasks(
                                store@.tasks,
                                store@.issues,
                            ));
                        }
                    },
                }
            },
        }
    }
    sends
}

/// Two worker loop instances draining one queue, their dequeues
/// interleaved as `schedule` dictates (step `k` goes to the first
/// instance when `schedule[k % len]` holds; with an empty schedule the
/// first instance runs alone). Whatever the interleaving, each task is
/// processed by exactly one of the two: the completed-task counts add up
/// to exactly the number of queued tasks, and nothing is left behind.
pub fn run_two_workers(store: &mut Store, schedule: &Vec<bool>) -> (counts: (usize, usize))
    requires
        old(store)@.wf(),
    ensures
        final(store)@.wf(),
        final(store)@.tasks.len() == 0,
        counts.0 + counts.1 == old(store)@.tasks.len(),
        final(store)@.records == old(store)@.records,
        final(store)@.issues == old(store)@.issues,
        final(store)@.subscribers == old(store)@.subscribers,
        final(store)@.tokens == old(store)@.tokens,
        final(store)@.users == old(store)@.users,
{
    let ghost old_model = old(store)@;
    let mut n_first: usize = 0;
    let mut n_second: usize = 0;
    let mut step: usize = 0;
    proof {
        assert(store@.tasks.len() == store.tasks.len());
    }
    loop
        invariant
            store@.wf(),
            store@.records == old_model.records,
            store@.issues == old_model.issues,
            store@.subscribers == old_model.subscribers,
            store@.tokens == old_model.tokens,
            store@.users == old_model.users,
            old_model.tasks.len() <= usize::MAX,
            n_first + n_second + store@.tasks.len() == old_model.tasks.len(),
        ensures
            store@.wf(),
            store@.tasks.len() == 0,
            n_first + n_second == old_model.tasks.len(),
            store@.records == old_model.records,
            store@.issues == old_model.issues,
            store@.subscribers == old_model.subscribers,
            store@.tokens == old_model.tokens,
            store@.users == old_model.users,
        decreases store@.tasks.len(),
    {
        let first_turn = if schedule.len() == 0 {
            true
        } else {
            schedule[step % schedule.len()]
        };
        match try_execute_task(store) {
            ExecutionOutcome::EmptyQueue => {
                break ;
            },
            ExecutionOutcome::TaskCompleted(_) => {
                if first_turn {
                    n_first = n_first + 1;
                } else {
                    n_second = n_second + 1;
                }
            },
        }
        if step < usize::MAX {
            step = step + 1;
        }
    }
    (n_first, n_second)
}

} // verus!
