//! Password authentication against the user table.
//!
//! Passwords are stored only as PHC-encoded argon2 hashes. Whether a
//! candidate password matches a stored hash is decided by the argon2
//! computation, reached through one trusted wrapper; everything around it
//! — the lookup, the timing-equalizing fallback hash, the error mapping —
//! is verified.

use crate::store::{Store, User, UserModel};
use argon2::password_hash::{PasswordHasher, SaltString};
use argon2::PasswordVerifier;
use vstd::prelude::*;

verus! {

/// Credentials as extracted from a request.
#[derive(Clone, Debug)]
pub struct Credentials {
    pub username: String,
    pub password: String,
}

/// Why authentication failed.
#[derive(Debug)]
pub enum AuthError {
    /// Unknown username, or the password does not match.
    InvalidCredentials,
    /// The stored hash could not be used; a server fault.
    UnexpectedError,
}

impl AuthError {
    /// A short description, usable in an error response body.
    pub fn message(&self) -> (r: &'static str)
        ensures
            r@ == (match self {
                AuthError::InvalidCredentials => "Invalid credentials"@,
                AuthError::UnexpectedError => "Unexpected error"@,
            }),
    {
        match self {
            AuthError::InvalidCredentials => "Invalid credentials",
            AuthError::UnexpectedError => "Unexpected error",
        }
    }
}

/// What the argon2 computation says of a PHC hash string and a password:
/// nothing when the string is no PHC hash, otherwise whether the
/// recomputation matches. A function of the two strings alone.
pub uninterp spec fn phc_verify(phc: Seq<char>, password: Seq<char>) -> Option<bool>;

/// Relies on argon2's `PasswordHash::new` (PHC-string parsing) and
/// `Argon2::verify_password` (recomputation with the salt and parameters
/// the hash carries): the outcome is deterministic in the hash string and
/// the password.
#[verifier::external_body]
fn phc_verify_exec(phc: &str, password: &str) -> (r: Option<bool>)
    ensures
        r == phc_verify(phc@, password@),
{
    match argon2::PasswordHash::new(phc) {
        Err(_) => None,
        Ok(parsed) => Some(
            argon2::Argon2::default().verify_password(password.as_bytes(), &parsed).is_ok(),
        ),
    }
}

/// Checks a password candidate against a stored PHC hash string.
pub fn verify_password_hash(password_candidate: &str, expected_password_hash: &str) -> (r: Result<
    (),
    AuthError,
>)
    ensures
        match r {
            Ok(()) => phc_verify(expected_password_hash@, password_candidate@) == Some(true),
            Err(AuthError::InvalidCredentials) => phc_verify(
                expected_password_hash@,
                password_candidate@,
            ) == Some(false),
            Err(AuthError::UnexpectedError) => phc_verify(
                expected_password_hash@,
                password_candidate@,
            ) is None,
        },
{
    match phc_verify_exec(expected_password_hash, password_candidate) {
        None => Err(AuthError::UnexpectedError),
        Some(true) => Ok(()),
        Some(false) => Err(AuthError::InvalidCredentials),
    }
}

/// The first user row with this username.
pub open spec fn find_user(users: Seq<UserModel>, username: Seq<char>) -> Option<UserModel>
    decreases users.len(),
{
    if users.len() == 0 {
        None
    } else if users[0].username == username {
        Some(users[0])
    } else {
        find_user(users.drop_first(), username)
    }
}

/// The first user row with this id.
pub open spec fn find_user_by_id(users: Seq<UserModel>, user_id: u128) -> Option<UserModel>
    decreases users.len(),
{
    if users.len() == 0 {
        None
    } else if users[0].user_id == user_id {
        Some(users[0])
    } else {
        find_user_by_id(users.drop_first(), user_id)
    }
}

/// Fetches the id and stored password hash for a username.
pub fn get_stored_credentials(username: &str, store: &Store) -> (r: Option<(u128, String)>)
    ensures
        match r {
            Some(p) => find_user(store@.users, username@) matches Some(u) && p.0 == u.user_id
                && p.1@ == u.password_hash,
            None => find_user(store@.users, username@) is None,
        },
{
    let ghost um = store@.users;
    let n = store.users.len();
    let mut i: usize = 0;
    proof {
        assert(um.skip(0) =~= um);
    }
    while i < n
        invariant
            i <= n,
            n == store.users@.len(),
            um == store@.users,
            um.len() == n,
            find_user(um, username@) == find_user(um.skip(i as int), username@),
        decreases n - i,
    {
        if crate::store::str_eq(store.users[i].username.as_str(), username) {
            proof {
                assert(um.skip(i as int)[0] == um[i as int]);
            }
            return Some((store.users[i].user_id, store.users[i].password_hash.clone()));
        }
        proof {
            let s = um.skip(i as int);
            assert(s[0] == um[i as int]);
            assert(s.drop_first() =~= um.skip(i + 1));
        }
        i = i + 1;
    }
    proof {
        assert(um.skip(n as int) =~= Seq::<UserModel>::empty());
    }
    None
}

/// The PHC hash every unknown-username attempt is verified against, so
/// that lookup failure costs as much time as a wrong password.
pub open spec fn fallback_hash_chars() -> Seq<char> {
    "$argon2id$v=19$m=15000,t=2,p=1$gZiV/M1gPc22ElAH/Jh1Hw$CWOrkoo7oJBQ/iyh7uJ0LO2aLEfrHwTWllSAxT0zRno"@
}

fn fallback_password_hash() -> (r: &'static str)
    ensures
        r@ == fallback_hash_chars(),
{
    "$argon2id$v=19$m=15000,t=2,p=1$gZiV/M1gPc22ElAH/Jh1Hw$CWOrkoo7oJBQ/iyh7uJ0LO2aLEfrHwTWllSAxT0zRno"
}

/// Validates credentials against the user table.
///
/// Succeeds exactly when the username has a row whose stored hash accepts
/// the password. An unknown username still runs the argon2 computation
/// (against the fallback hash) before being rejected, to keep the two
/// failures indistinguishable in time.
pub fn validate_credentials(credentials: Credentials, store: &Store) -> (r: Result<u128, AuthError>)
    ensures
        match r {
            Ok(id) => find_user(store@.users, credentials.username@) matches Some(u) && id
                == u.user_id && phc_verify(u.password_hash, credentials.password@) == Some(true),
            Err(AuthError::InvalidCredentials) => match find_user(
                store@.users,
                credentials.username@,
            ) {
                Some(u) => phc_verify(u.password_hash, credentials.password@) == Some(false),
                None => phc_verify(fallback_hash_chars(), credentials.password@) is Some,
            },
            Err(AuthError::UnexpectedError) => match find_user(
                store@.users,
                credentials.username@,
            ) {
                Some(u) => phc_verify(u.password_hash, credentials.password@) is None,
                None => phc_verify(fallback_hash_chars(), credentials.password@) is None,
            },
        },
{
    let looked_up = get_stored_credentials(credentials.username.as_str(), store);
    let (user_id, expected_password_hash): (Option<u128>, String) = match looked_up {
        Some(p) => (Some(p.0), p.1),
        None => (None, fallback_password_hash().to_owned()),
    };
    match verify_password_hash(credentials.password.as_str(), expected_password_hash.as_str()) {
        Err(e) => Err(e),
        Ok(()) => match user_id {
            Some(id) => Ok(id),
            None => Err(AuthError::InvalidCredentials),
        },
    }
}

/// Why a login attempt failed; either way the client is redirected.
#[derive(Debug)]
pub enum LoginError {
    /// Authentication failed.
    AuthError,
    /// A server fault.
    UnexpectedError,
}

impl LoginError {
    /// A short description, usable in a flash message.
    pub fn message(&self) -> (r: &'static str)
        ensures
            r@ == (match self {
                LoginError::AuthError => "Authentication failed"@,
                LoginError::UnexpectedError => "Unexpected error"@,
            }),
    {
        match self {
            LoginError::AuthError => "Authentication failed",
            LoginError::UnexpectedError => "Unexpected error",
        }
    }

    /// The redirect status a failed login answers with.
    pub fn status_code(&self) -> (r: u16)
        ensures
            r == 303u16,
    {
        303
    }
}

/// The login decision: validates the credentials and maps the failure for
/// the login form. The session renewal around it stays with the web layer.
pub fn login(store: &Store, credentials: Credentials) -> (r: Result<u128, LoginError>)
    ensures
        match r {
            Ok(id) => find_user(store@.users, credentials.username@) matches Some(u) && id
                == u.user_id && phc_verify(u.password_hash, credentials.password@) == Some(true),
            Err(LoginError::AuthError) => match find_user(store@.users, credentials.username@) {
                Some(u) => phc_verify(u.password_hash, credentials.password@) == Some(false),
                None => phc_verify(fallback_hash_chars(), credentials.password@) is Some,
            },
            Err(LoginError::UnexpectedError) => match find_user(
                store@.users,
                credentials.username@,
            ) {
                Some(u) => phc_verify(u.password_hash, credentials.password@) is None,
                None => phc_verify(fallback_hash_chars(), credentials.password@) is None,
            },
        },
{
    match validate_credentials(credentials, store) {
        Ok(id) => Ok(id),
        Err(AuthError::InvalidCredentials) => Err(LoginError::AuthError),
        Err(AuthError::UnexpectedError) => Err(LoginError::UnexpectedError),
    }
}

/// Fetches the username for a user id, e.g. for the dashboard greeting.
pub fn get_username(user_id: u128, store: &Store) -> (r: Result<String, String>)
    ensures
        match r {
            Ok(name) => find_user_by_id(store@.users, user_id) matches Some(u) && name@
                == u.username,
            Err(e) => find_user_by_id(store@.users, user_id) is None && e@
                == "Failed to retrieve username"@,
        },
{
    let ghost um = store@.users;
    let n = store.users.len();
    let mut i: usize = 0;
    proof {
        assert(um.skip(0) =~= um);
    }
    while i < n
        invariant
            i <= n,
            n == store.users@.len(),
            um == store@.users,
            um.len() == n,
            find_user_by_id(um, user_id) == find_user_by_id(um.skip(i as int), user_id),
        decreases n - i,
    {
        if store.users[i].user_id == user_id {
            proof {
                assert(um.skip(i as int)[0] == um[i as int]);
            }
            return Ok(store.users[i].username.clone());
        }
        proof {
            let s = um.skip(i as int);
            assert(s[0] == um[i as int]);
            assert(s.drop_first() =~= um.skip(i + 1));
        }
        i = i + 1;
    }
    proof {
        assert(um.skip(n as int) =~= Seq::<UserModel>::empty());
    }
    Err(String::from_str("Failed to retrieve username"))
}

/// Relies on argon2's `Argon2::hash_password` with a fresh random salt
/// (drawn through `rand::random` and `SaltString::encode_b64`); the PHC
/// string depends on that salt, so nothing is assumed of the result —
/// only that hashing may fail, reported as nothing.
#[verifier::external_body]
fn hash_password_raw(password: &str) -> (r: Option<String>)
{
    let salt_bytes: [u8; 16] = rand::random();
    let salt = match SaltString::encode_b64(&salt_bytes) {
        Ok(s) => s,
        Err(_) => {
            return None;
        },
    };
    argon2::Argon2::default().hash_password(password.as_bytes(), &salt).ok().map(|h| {
        h.to_string()
    })
}

/// The user table with this user's stored hash replaced.
pub open spec fn set_password_hash_in(
    users: Seq<UserModel>,
    user_id: u128,
    hash: Seq<char>,
) -> Seq<UserModel> {
    users.map_values(
        |u: UserModel|
            if u.user_id == user_id {
                UserModel { user_id: u.user_id, username: u.username, password_hash: hash }
            } else {
                u
            },
    )
}

/// Stores a freshly drawn hash of the new password for this user. The
/// hash depends on a random salt, so the contract promises only that some
/// hash replaced the old ones and nothing else moved.
pub fn change_password(store: &mut Store, user_id: u128, new_password: &str) -> (r: Result<
    (),
    AuthError,
>)
    requires
        old(store)@.wf(),
    ensures
        final(store)@.wf(),
        final(store)@.records == old(store)@.records,
        final(store)@.issues == old(store)@.issues,
        final(store)@.tasks == old(store)@.tasks,
        final(store)@.subscribers == old(store)@.subscribers,
        final(store)@.tokens == old(store)@.tokens,
        match r {
            Ok(()) => exists|h: Seq<char>|
                final(store)@.users == set_password_hash_in(old(store)@.users, user_id, h),
            Err(AuthError::UnexpectedError) => final(store)@.users == old(store)@.users,
            Err(AuthError::InvalidCredentials) => false,
        },
{
    let ghost old_model = store@;
    let new_hash = match hash_password_raw(new_password) {
        Some(h) => h,
        None => {
            proof {
                assert(store@.users =~= old_model.users);
            }
            return Err(AuthError::UnexpectedError);
        },
    };
    let ghost hash_chars = new_hash@;
    let n = store.users.len();
    let mut i: usize = 0;
    while i < n
        invariant
            i <= n,
            n == store.users@.len(),
            store@.users.len() == old_model.users.len(),
            hash_chars == new_hash@,
            forall|k: int|
                0 <= k < i ==> #[trigger] store@.users[k] == set_password_hash_in(
                    old_model.users,
                    user_id,
                    hash_chars,
                )[k],
            forall|k: int| i <= k < n ==> #[trigger] store@.users[k] == old_model.users[k],
            store@.records == old_model.records,
            store@.issues == old_model.issues,
            store@.tasks == old_model.tasks,
            store@.subscribers == old_model.subscribers,
            store@.tokens == old_model.tokens,
        decreases n - i,
    {
        if store.users[i].user_id == user_id {
            let ghost orig = store@.users[i as int];
            proof {
                assert(orig == store.users@[i as int]@);
                assert(orig == old_model.users[i as int]);
            }
            let updated = User {
                user_id: store.users[i].user_id,
                username: store.users[i].username.clone(),
                password_hash: new_hash.clone(),
            };
            let ghost before = store@;
            let ghost updated_model = updated@;
            proof {
                assert(updated_model =~= (UserModel {
                    user_id: orig.user_id,
                    username: orig.username,
                    password_hash: hash_chars,
                }));
            }
            store.users[i] = updated;
            proof {
                let target = before.users.update(i as int, updated_model);
                assert(store@.users.len() == target.len());
                assert forall|k: int| 0 <= k < target.len() implies store@.users[k]
                    == target[k] by {
                    if k != i {
                        assert(store@.users[k] == before.users[k]);
                    }
                }
                assert(store@.users =~= target);
                assert(store@.records =~= before.records);
                assert(store@.issues =~= before.issues);
                assert(store@.tasks =~= before.tasks);
                assert(store@.subscribers =~= before.subscribers);
                assert(store@.tokens =~= before.tokens);
            }
        }
        i = i + 1;
    }
    proof {
        assert(store@.users =~= set_password_hash_in(old_model.users, user_id, hash_chars));
    }
    Ok(())
}

/// How a change-password request ends.
#[derive(Debug)]
pub enum ChangePasswordOutcome {
    /// The two new-password fields differ; nothing checked or changed.
    FieldsMismatch,
    /// The current password is wrong; nothing changed.
    CurrentPasswordWrong,
    /// The password was changed.
    Changed,
    /// A server fault; nothing changed.
    Unexpected,
}

/// The change-password decision: the two new-password fields must match,
/// the current password must validate, and only then is the new password
/// hashed and stored. The flash messages and session around it stay with
/// the web layer.
pub fn handle_change_password(
    store: &mut Store,
    user_id: u128,
    current_password: &str,
    new_password: &str,
    new_password_check: &str,
) -> (r: ChangePasswordOutcome)
    requires
        old(store)@.wf(),
    ensures
        final(store)@.wf(),
        final(store)@.records == old(store)@.records,
        final(store)@.issues == old(store)@.issues,
        final(store)@.tasks == old(store)@.tasks,
        final(store)@.subscribers == old(store)@.subscribers,
        final(store)@.tokens == old(store)@.tokens,
        match r {
            ChangePasswordOutcome::FieldsMismatch => new_password@ != new_password_check@
                && final(store)@.users == old(store)@.users,
            ChangePasswordOutcome::CurrentPasswordWrong => {
                &&& new_password@ == new_password_check@
                &&& (match find_user_by_id(old(store)@.users, user_id) {
                    Some(u) => match find_user(old(store)@.users, u.username) {
                        Some(w) => phc_verify(w.password_hash, current_password@) == Some(false),
                        None => phc_verify(fallback_hash_chars(), current_password@) is Some,
                    },
                    None => false,
                })
                &&& final(store)@.users == old(store)@.users
            },
            ChangePasswordOutcome::Changed => {
                &&& new_password@ == new_password_check@
                &&& exists|h: Seq<char>|
                    final(store)@.users == set_password_hash_in(old(store)@.users, user_id, h)
            },
            ChangePasswordOutcome::Unexpected => final(store)@.users == old(store)@.users,
        },
{
    if !crate::store::str_eq(new_password, new_password_check) {
        return ChangePasswordOutcome::FieldsMismatch;
    }
    let username = match get_username(user_id, store) {
        Ok(u) => u,
        Err(_) => {
            return ChangePasswordOutcome::Unexpected;
        },
    };
    let credentials = Credentials { username, password: current_password.to_owned() };
    match validate_credentials(credentials, store) {
        Err(AuthError::InvalidCredentials) => {
            return ChangePasswordOutcome::CurrentPasswordWrong;
        },
        Err(AuthError::UnexpectedError) => {
            return ChangePasswordOutcome::Unexpected;
        },
        Ok(_) => {},
    }
    match change_password(store, user_id, new_password) {
        Ok(()) => ChangePasswordOutcome::Changed,
        Err(_) => ChangePasswordOutcome::Unexpected,
    }
}

} // verus!
