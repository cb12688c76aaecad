//! Subscription confirmation: resolve a token to its subscriber and mark
//! the subscriber confirmed.

use crate::store::{Store, Subscriber, SubscriberModel, TokenModel};
use vstd::prelude::*;

verus! {

/// The query parameters of a confirmation request.
#[derive(Clone, Debug)]
pub struct Parameters {
    pub token: String,
}

/// Why a confirmation failed.
#[derive(Debug)]
pub enum ConfirmationError {
    /// The store failed; surfaced as a server error.
    UnexpectedError,
    /// No subscriber is associated with the given token.
    TokenNotFound,
}

impl ConfirmationError {
    /// The HTTP status the web layer answers with.
    pub fn status_code(&self) -> (r: u16)
        ensures
            r == (match self {
                ConfirmationError::UnexpectedError => 500u16,
                ConfirmationError::TokenNotFound => 404u16,
            }),
    {
        match self {
            ConfirmationError::UnexpectedError => 500,
            ConfirmationError::TokenNotFound => 404,
        }
    }
}

/// The subscriber id of the first stored token with these characters.
pub open spec fn find_token(tokens: Seq<TokenModel>, token: Seq<char>) -> Option<u128>
    decreases tokens.len(),
{
    if tokens.len() == 0 {
        None
    } else if tokens[0].token == token {
        Some(tokens[0].subscriber_id)
    } else {
        find_token(tokens.drop_first(), token)
    }
}

/// Looks the subscriber id up for a confirmation token.
pub fn get_subscriber_id_from_token(store: &Store, token: &str) -> (r: Option<u128>)
    ensures
        r == find_token(store@.tokens, token@),
{
    let ghost tm = store@.tokens;
    let n = store.tokens.len();
    let mut i: usize = 0;
    proof {
        assert(tm.skip(0) =~= tm);
    }
    while i < n
        invariant
            i <= n,
            n == store.tokens@.len(),
            tm == store@.tokens,
            tm.len() == n,
            find_token(tm, token@) == find_token(tm.skip(i as int), token@),
        decreases n - i,
    {
        if crate::store::str_eq(store.tokens[i].token.as_str(), token) {
            proof {
                assert(tm.skip(i as int)[0] == tm[i as int]);
            }
            return Some(store.tokens[i].subscriber_id);
        }
        proof {
            let s = tm.skip(i as int);
            assert(s[0] == tm[i as int]);
            assert(s.drop_first() =~= tm.skip(i + 1));
        }
        i = i + 1;
    }
    proof {
        assert(tm.skip(n as int) =~= Seq::<TokenModel>::empty());
    }
    None
}

/// The subscriber table with every row of this id marked confirmed.
pub open spec fn confirm_in(subs: Seq<SubscriberModel>, id: u128) -> Seq<SubscriberModel> {
    subs.map_values(
        |s: SubscriberModel|
            if s.id == id {
                SubscriberModel { id: s.id, email: s.email, name: s.name, confirmed: true }
            } else {
                s
            },
    )
}

/// Marks the subscriber with this id as confirmed.
pub fn confirm_subscriber(store: &mut Store, subscriber_id: u128)
    requires
        old(store)@.wf(),
    ensures
        final(store)@.wf(),
        final(store)@.subscribers == confirm_in(old(store)@.subscribers, subscriber_id),
        final(store)@.records == old(store)@.records,
        final(store)@.issues == old(store)@.issues,
        final(store)@.tasks == old(store)@.tasks,
        final(store)@.tokens == old(store)@.tokens,
        final(store)@.users == old(store)@.users,
{
    let ghost old_model = store@;
    let n = store.subscribers.len();
    let mut i: usize = 0;
    while i < n
        invariant
            i <= n,
            n == store.subscribers@.len(),
            store@.subscribers.len() == old_model.subscribers.len(),
            forall|k: int|
                0 <= k < i ==> #[trigger] store@.subscribers[k] == confirm_in(
                    old_model.subscribers,
                    subscriber_id,
                )[k],
            forall|k: int|
                i <= k < n ==> #[trigger] store@.subscribers[k] == old_model.subscribers[k],
            store@.records == old_model.records,
            store@.issues == old_model.issues,
            store@.tasks == old_model.tasks,
            store@.tokens == old_model.tokens,
            store@.users == old_model.users,
        decreases n - i,
    {
        if store.subscribers[i].id == subscriber_id {
            let ghost orig = store@.subscribers[i as int];
            proof {
                assert(orig == store.subscribers@[i as int]@);
                assert(orig == old_model.subscribers[i as int]);
            }
            let updated = Subscriber {
                id: store.subscribers[i].id,
                email: store.subscribers[i].email.clone(),
                name: store.subscribers[i].name.clone(),
                confirmed: true,
            };
            let ghost before = store@;
            let ghost updated_model = updated@;
            proof {
                assert(updated_model =~= (SubscriberModel {
                    id: orig.id,
                    email: orig.email,
                    name: orig.name,
                    confirmed: true,
                }));
            }
            store.subscribers[i] = updated;
            proof {
                assert(updated_model =~= (SubscriberModel {
                    id: old_model.subscribers[i as int].id,
                    email: old_model.subscribers[i as int].email,
                    name: old_model.subscribers[i as int].name,
                    confirmed: true,
                }));
                let target = before.subscribers.update(i as int, updated_model);
                assert(store@.subscribers.len() == target.len());
                assert forall|k: int| 0 <= k < target.len() implies store@.subscribers[k]
                    == target[k] by {
                    if k != i {
                        assert(store@.subscribers[k] == before.subscribers[k]);
                    }
                }
                assert(store@.subscribers =~= target);
                assert(store@.records =~= before.records);
                assert(store@.issues =~= before.issues);
                assert(store@.tasks =~= before.tasks);
                assert(store@.tokens =~= before.tokens);
                assert(store@.users =~= before.users);
            }
        }
        i = i + 1;
    }
    proof {
        assert(store@.subscribers =~= confirm_in(old_model.subscribers, subscriber_id));
    }
}

/// Handles one confirmation request: looks the token up and marks its
/// subscriber confirmed; a token nobody holds is answered with
/// [`ConfirmationError::TokenNotFound`] and no change.
pub fn confirm(store: &mut Store, parameters: &Parameters) -> (r: Result<(), ConfirmationError>)
    requires
        old(store)@.wf(),
    ensures
        final(store)@.wf(),
        match r {
            Ok(()) => {
                &&& find_token(old(store)@.tokens, parameters.token@) matches Some(id)
                    && final(store)@.subscribers == confirm_in(old(store)@.subscribers, id)
                &&& final(store)@.records == old(store)@.records
                &&& final(store)@.issues == old(store)@.issues
                &&& final(store)@.tasks == old(store)@.tasks
                &&& final(store)@.tokens == old(store)@.tokens
                &&& final(store)@.users == old(store)@.users
            },
            Err(ConfirmationError::TokenNotFound) => {
                &&& find_token(old(store)@.tokens, parameters.token@) is None
                &&& final(store)@ == old(store)@
            },
            Err(ConfirmationError::UnexpectedError) => false,
        },
{
    let subscriber_id = match get_subscriber_id_from_token(store, parameters.token.as_str()) {
        Some(id) => id,
        None => {
            proof {
                assert(store@ =~= old(store)@);
            }
            return Err(ConfirmationError::TokenNotFound);
        },
    };
    confirm_subscriber(store, subscriber_id);
    Ok(())
}

} // verus!
