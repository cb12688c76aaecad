//! The client-supplied deduplication token for state-changing commands.
//!
//! A key scopes "this is the same logical request as before": the same token
//! resubmitted by the same user replays the stored response instead of
//! re-executing side effects. Keys are matched byte-for-byte; no
//! normalization is applied.

use vstd::prelude::*;

verus! {

/// The largest number of characters a key may have.
pub const MAX_KEY_LEN: usize = 50;

/// A key is valid when it is non-empty and at most [`MAX_KEY_LEN`] characters.
pub open spec fn valid_key(s: Seq<char>) -> bool {
    0 < s.len() <= MAX_KEY_LEN
}

/// Why a raw key was rejected. Rejection is a client error, not a server
/// fault.
#[derive(Clone, Copy, Debug, PartialEq, Eq, Structural)]
pub enum KeyError {
    Empty,
    TooLong,
}

impl KeyError {
    /// A short description, usable in an error response body.
    pub fn message(&self) -> (r: &'static str)
        ensures
            r@ == (match self {
                KeyError::Empty => "The idempotency key cannot be empty"@,
                KeyError::TooLong => "The idempotency key must be no longer than 50 characters"@,
            }),
    {
        match self {
            KeyError::Empty => "The idempotency key cannot be empty",
            KeyError::TooLong => "The idempotency key must be no longer than 50 characters",
        }
    }
}

/// A validated deduplication token. Immutable once constructed; the only way
/// to obtain one is [`IdempotencyKey::parse`].
#[derive(Clone, Debug)]
pub struct IdempotencyKey {
    key: String,
}

impl View for IdempotencyKey {
    type V = Seq<char>;

    closed spec fn view(&self) -> Seq<char> {
        self.key@
    }
}

impl IdempotencyKey {
    /// Validates a raw token: rejects the empty string and anything longer
    /// than [`MAX_KEY_LEN`] characters, and accepts everything else
    /// unchanged.
    pub fn parse(raw: String) -> (r: Result<IdempotencyKey, KeyError>)
        ensures
            match r {
                Ok(k) => valid_key(raw@) && k@ == raw@,
                Err(e) => !valid_key(raw@) && e == (if raw@.len() == 0 {
                    KeyError::Empty
                } else {
                    KeyError::TooLong
                }),
            },
    {
        let n = raw.as_str().unicode_len();
        if n == 0 {
            Err(KeyError::Empty)
        } else if n > MAX_KEY_LEN {
            Err(KeyError::TooLong)
        } else {
            Ok(IdempotencyKey { key: raw })
        }
    }

    /// The token as a string slice.
    pub fn as_ref(&self) -> (r: &str)
        ensures
            r@ == self@,
    {
        self.key.as_str()
    }
}

} // verus!
