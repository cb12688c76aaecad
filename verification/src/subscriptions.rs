//! Subscriber signup: validate the form, store the pending subscriber, and
//! issue a confirmation token.
//!
//! The web layer around these functions mails the confirmation link and
//! wraps the writes in its request transaction; here the store operations
//! themselves are specified.

use crate::domain::{is_valid_email, valid_subscriber_name, NewSubscriber};
use crate::store::{Store, Subscriber, SubscriberModel, SubscriptionToken, TokenModel};
use vstd::prelude::*;

verus! {

/// Why a signup was rejected.
#[derive(Debug)]
pub enum SubscribeError {
    /// The form data failed validation; the message names the offending
    /// field value.
    ValidationError(String),
    /// The store failed; surfaced as a server error.
    UnexpectedError,
}

impl SubscribeError {
    /// The HTTP status the web layer answers with.
    pub fn status_code(&self) -> (r: u16)
        ensures
            r == (match self {
                SubscribeError::ValidationError(_) => 400u16,
                SubscribeError::UnexpectedError => 500u16,
            }),
    {
        match self {
            SubscribeError::ValidationError(_) => 400,
            SubscribeError::UnexpectedError => 500,
        }
    }
}

pub assume_specification<T>[ rand::random::<T> ]() -> (r: T)
    where
        rand::distributions::Standard: rand::distributions::Distribution<T>,
;

/// Relies on `String::push`: appends one character.
#[verifier::external_body]
fn push_char(s: &mut String, c: char)
    ensures
        final(s)@ == old(s)@.push(c),
{
    s.push(c);
}

/// An ASCII letter or digit.
pub open spec fn is_ascii_alphanumeric_char(c: char) -> bool {
    (48 <= c as u32 && c as u32 <= 57) || (65 <= c as u32 && c as u32 <= 90) || (97 <= c as u32
        && c as u32 <= 122)
}

/// A 25-character token drawn uniformly from the ASCII letters and digits,
/// by rejection sampling over random bytes.
pub fn generate_subscription_token() -> (t: String)
    ensures
        t@.len() == 25,
        forall|i: int| 0 <= i < t@.len() ==> is_ascii_alphanumeric_char(#[trigger] t@[i]),
{
    let mut t = String::new();
    let mut i: usize = 0;
    while i < 25
        invariant
            i <= 25,
            t@.len() == i,
            forall|k: int| 0 <= k < t@.len() ==> is_ascii_alphanumeric_char(#[trigger] t@[k]),
        decreases 25 - i,
    {
        let c = random_alphanumeric_char();
        push_char(&mut t, c);
        i = i + 1;
    }
    t
}

fn random_alphanumeric_char() -> (c: char)
    ensures
        is_ascii_alphanumeric_char(c),
{
    let mut attempts: usize = 0;
    while attempts < 1000
        invariant
            attempts <= 1000,
        decreases 1000 - attempts,
    {
        let b = rand::random::<u8>();
        if (b >= 48 && b <= 57) || (b >= 65 && b <= 90) || (b >= 97 && b <= 122) {
            return b as char;
        }
        attempts = attempts + 1;
    }
    // Astronomically unlikely: every draw was rejected; fall back to a
    // fixed letter rather than loop without bound.
    'a'
}

/// The link a confirmation e-mail points at.
pub open spec fn confirmation_link_chars(base_url: Seq<char>, token: Seq<char>) -> Seq<char> {
    base_url + "/subscriptions/confirm?token="@ + token
}

/// The HTML body of a confirmation e-mail.
pub open spec fn confirmation_html_chars(base_url: Seq<char>, token: Seq<char>) -> Seq<char> {
    "Welcome to the newsletter!<br/>Click <a href=\""@ + confirmation_link_chars(base_url, token)
        + "\">here</a> to confirm your subscription."@
}

/// The plain-text body of a confirmation e-mail.
pub open spec fn confirmation_text_chars(base_url: Seq<char>, token: Seq<char>) -> Seq<char> {
    "Welcome to the newsletter!\nVisit "@ + confirmation_link_chars(base_url, token)
        + " to confirm your subscription."@
}

/// Builds the two bodies of the confirmation e-mail for a fresh signup;
/// the web layer sends them (subject "Welcome") through its transport.
pub fn confirmation_email_bodies(base_url: &str, token: &str) -> (r: (String, String))
    ensures
        r.0@ == confirmation_html_chars(base_url@, token@),
        r.1@ == confirmation_text_chars(base_url@, token@),
{
    let mut link = String::from_str(base_url);
    link.append("/subscriptions/confirm?token=");
    link.append(token);
    let mut html_body = String::from_str("Welcome to the newsletter!<br/>Click <a href=\"");
    html_body.append(link.as_str());
    html_body.append("\">here</a> to confirm your subscription.");
    let mut text_body = String::from_str("Welcome to the newsletter!\nVisit ");
    text_body.append(link.as_str());
    text_body.append(" to confirm your subscription.");
    proof {
        assert(html_body@ =~= confirmation_html_chars(base_url@, token@));
        assert(text_body@ =~= confirmation_text_chars(base_url@, token@));
    }
    (html_body, text_body)
}

/// Stores a validated signup as a pending (unconfirmed) subscriber under a
/// fresh id.
pub fn insert_subscriber(store: &mut Store, new_subscriber: &NewSubscriber) -> (id: u128)
    requires
        old(store)@.wf(),
    ensures
        final(store)@.wf(),
        final(store)@.subscribers == old(store)@.subscribers.push(
            (SubscriberModel {
                id,
                email: new_subscriber.email@,
                name: new_subscriber.name@,
                confirmed: false,
            }),
        ),
        final(store)@.records == old(store)@.records,
        final(store)@.issues == old(store)@.issues,
        final(store)@.tasks == old(store)@.tasks,
        final(store)@.tokens == old(store)@.tokens,
        final(store)@.users == old(store)@.users,
{
    let ghost old_model = store@;
    let id = crate::store::fresh_uuid();
    let sub = Subscriber {
        id,
        email: new_subscriber.email.as_ref().to_owned(),
        name: new_subscriber.name.as_ref().to_owned(),
        confirmed: false,
    };
    store.subscribers.push(sub);
    proof {
        assert(store@.subscribers =~= old_model.subscribers.push(
            (SubscriberModel {
                id,
                email: new_subscriber.email@,
                name: new_subscriber.name@,
                confirmed: false,
            }),
        ));
        assert(store@.records =~= old_model.records);
        assert(store@.issues =~= old_model.issues);
        assert(store@.tasks =~= old_model.tasks);
        assert(store@.tokens =~= old_model.tokens);
        assert(store@.users =~= old_model.users);
    }
    id
}

/// Stores a confirmation token for a subscriber.
pub fn store_token(store: &mut Store, subscriber_id: u128, token: &str)
    requires
        old(store)@.wf(),
    ensures
        final(store)@.wf(),
        final(store)@.tokens == old(store)@.tokens.push(
            (TokenModel { token: token@, subscriber_id }),
        ),
        final(store)@.records == old(store)@.records,
        final(store)@.issues == old(store)@.issues,
        final(store)@.tasks == old(store)@.tasks,
        final(store)@.subscribers == old(store)@.subscribers,
        final(store)@.users == old(store)@.users,
{
    let ghost old_model = store@;
    let row = SubscriptionToken { token: token.to_owned(), subscriber_id };
    store.tokens.push(row);
    proof {
        assert(store@.tokens =~= old_model.tokens.push(
            (TokenModel { token: token@, subscriber_id }),
        ));
        assert(store@.records =~= old_model.records);
        assert(store@.issues =~= old_model.issues);
        assert(store@.tasks =~= old_model.tasks);
        assert(store@.subscribers =~= old_model.subscribers);
        assert(store@.users =~= old_model.users);
    }
}

/// Handles one signup: validates the form, stores the pending subscriber,
/// draws and stores a confirmation token, and hands id and token back so
/// the web layer can mail the confirmation link.
pub fn subscribe(store: &mut Store, email: &str, name: &str) -> (r: Result<
    (u128, String),
    SubscribeError,
>)
    requires
        old(store)@.wf(),
    ensures
        final(store)@.wf(),
        match r {
            Ok(p) => {
                &&& valid_subscriber_name(name@)
                &&& is_valid_email(email@)
                &&& final(store)@.subscribers == old(store)@.subscribers.push(
                    (SubscriberModel { id: p.0, email: email@, name: name@, confirmed: false }),
                )
                &&& final(store)@.tokens == old(store)@.tokens.push(
                    (TokenModel { token: p.1@, subscriber_id: p.0 }),
                )
                &&& p.1@.len() == 25
                &&& final(store)@.records == old(store)@.records
                &&& final(store)@.issues == old(store)@.issues
                &&& final(store)@.tasks == old(store)@.tasks
                &&& final(store)@.users == old(store)@.users
            },
            Err(SubscribeError::ValidationError(msg)) => {
                &&& !(valid_subscriber_name(name@) && is_valid_email(email@))
                &&& msg@ == (if !valid_subscriber_name(name@) {
                    "\""@ + name@ + "\" is not a valid subscriber name"@
                } else {
                    "\""@ + email@ + "\" is not a valid email address"@
                })
                &&& final(store)@ == old(store)@
            },
            Err(SubscribeError::UnexpectedError) => false,
        },
{
    let new_subscriber = match NewSubscriber::parse(email, name) {
        Ok(ns) => ns,
        Err(e) => {
            proof {
                assert(store@ =~= old(store)@);
            }
            return Err(SubscribeError::ValidationError(e));
        },
    };
    let subscriber_id = insert_subscriber(store, &new_subscriber);
    let token = generate_subscription_token();
    store_token(store, subscriber_id, token.as_str());
    Ok((subscriber_id, token))
}

} // verus!
