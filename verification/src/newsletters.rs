//! The legacy publish endpoint: authenticate with a Basic header, then
//! send the issue to every confirmed subscriber immediately, with no
//! idempotency and no queue.
//!
//! Kept alongside the outbox-based path: its credential parsing and its
//! send-list computation are the verified core, while the HTTP layer
//! around it does the transport.

use crate::auth::Credentials;
use crate::domain::{is_valid_email, SubscriberEmail};
use crate::response::{ResponseModel, SavedResponse};
use crate::store::{Store, SubscriberModel};
use crate::worker::{SendModel, SendRequest};
use vstd::prelude::*;
use vstd::string::StringSliceAdditionalSpecFns;
use vstd::utf8::{decode_utf8, valid_utf8};

verus! {

/// The publish request body of the legacy endpoint.
#[derive(Clone, Debug)]
pub struct BodyData {
    pub title: String,
    pub content: Content,
}

/// The issue content in both forms.
#[derive(Clone, Debug)]
pub struct Content {
    pub html: String,
    pub text: String,
}

/// Why a legacy publish request failed.
#[derive(Debug)]
pub enum PublishError {
    /// The request was not authorized.
    AuthError,
    /// A server fault.
    UnexpectedError,
}

/// The model of the challenge answered to an unauthorized publish:
/// status 401 with one `WWW-Authenticate` header naming the realm.
pub open spec fn auth_challenge_model() -> ResponseModel {
    ResponseModel {
        status: 401,
        headers: seq![
            ("WWW-Authenticate".spec_bytes(), "Basic realm=\"publish\"".spec_bytes()),
        ],
        body: Seq::empty(),
    }
}

/// The model of a bare server-error answer: status 500, nothing else.
pub open spec fn server_error_model() -> ResponseModel {
    ResponseModel { status: 500, headers: Seq::empty(), body: Seq::empty() }
}

impl PublishError {
    /// The response the web layer answers this failure with.
    pub fn error_response(&self) -> (r: SavedResponse)
        ensures
            r@ == (match self {
                PublishError::AuthError => auth_challenge_model(),
                PublishError::UnexpectedError => server_error_model(),
            }),
            r.wf(),
    {
        match self {
            PublishError::AuthError => {
                let name = "WWW-Authenticate".as_bytes_vec();
                let value = "Basic realm=\"publish\"".as_bytes_vec();
                let mut headers: Vec<crate::response::HeaderPair> = Vec::new();
                headers.push(crate::response::HeaderPair { name, value });
                let r = SavedResponse { status_code: 401, headers, body: Vec::new() };
                proof {
                    assert(r@.headers =~= auth_challenge_model().headers);
                    assert(r@.body =~= Seq::<u8>::empty());
                    assert(r@ =~= auth_challenge_model());
                }
                r
            },
            PublishError::UnexpectedError => {
                let r = SavedResponse {
                    status_code: 500,
                    headers: Vec::new(),
                    body: Vec::new(),
                };
                proof {
                    assert(r@.headers =~= Seq::<(Seq<u8>, Seq<u8>)>::empty());
                    assert(r@.body =~= Seq::<u8>::empty());
                    assert(r@ =~= server_error_model());
                }
                r
            },
        }
    }
}

/// Why a Basic authorization header was rejected.
#[derive(Clone, Copy, Debug, PartialEq, Eq, Structural)]
pub enum BasicAuthError {
    /// The header does not carry the Basic scheme.
    NotBasic,
    /// The credentials segment is not valid standard base64.
    InvalidBase64,
    /// The decoded segment is not valid UTF-8.
    InvalidUtf8,
    /// The decoded segment has no `':'`, so no password was provided.
    MissingPassword,
}

impl BasicAuthError {
    /// A short description, usable in an error report.
    pub fn message(&self) -> (r: &'static str)
        ensures
            r@ == (match self {
                BasicAuthError::NotBasic => "Given authentication is not Basic"@,
                BasicAuthError::InvalidBase64 => "Failed to decode credentials segment from base64"@,
                BasicAuthError::InvalidUtf8 => "credentials segment is not a valid UTF8 string"@,
                BasicAuthError::MissingPassword => "password not provided"@,
            }),
    {
        match self {
            BasicAuthError::NotBasic => "Given authentication is not Basic",
            BasicAuthError::InvalidBase64 => "Failed to decode credentials segment from base64",
            BasicAuthError::InvalidUtf8 => "credentials segment is not a valid UTF8 string",
            BasicAuthError::MissingPassword => "password not provided",
        }
    }
}

/// What the standard base64 alphabet decodes these characters to, if
/// anything. A function of the characters alone.
pub uninterp spec fn base64_decode_standard(s: Seq<char>) -> Option<Seq<u8>>;

/// Relies on base64's `STANDARD` engine `decode`: RFC 4648 standard
/// alphabet with padding, deterministic in the input characters.
#[verifier::external_body]
fn base64_decode(s: &str) -> (r: Option<Vec<u8>>)
    ensures
        match r {
            Some(v) => base64_decode_standard(s@) == Some(v@),
            None => base64_decode_standard(s@) is None,
        },
{
    base64::Engine::decode(&base64::engine::general_purpose::STANDARD, s).ok()
}

/// Relies on `String::from_utf8`: succeeds exactly on valid UTF-8 and
/// yields the decoded characters, per vstd's UTF-8 specification.
#[verifier::external_body]
fn string_from_utf8(bytes: Vec<u8>) -> (r: Option<String>)
    ensures
        match r {
            Some(s) => valid_utf8(bytes@) && s@ == decode_utf8(bytes@),
            None => !valid_utf8(bytes@),
        },
{
    String::from_utf8(bytes).ok()
}

/// Does the string contain a colon?
pub open spec fn has_colon(s: Seq<char>) -> bool {
    exists|i: int| 0 <= i < s.len() && s[i] == ':'
}

/// The index of the first colon; meaningful only when [`has_colon`] holds.
pub open spec fn first_colon(s: Seq<char>) -> int {
    choose|i: int|
        0 <= i < s.len() && s[i] == ':' && (forall|k: int| 0 <= k < i ==> s[k] != ':')
}

/// The username and password packed into a decoded credentials segment:
/// what stands before the first colon, and everything after it.
pub open spec fn split_credentials(d: Seq<char>) -> Option<(Seq<char>, Seq<char>)> {
    if has_colon(d) {
        let i = first_colon(d);
        Some((d.take(i), d.skip(i + 1)))
    } else {
        None
    }
}

/// Exactly how a Basic authorization header value resolves: the scheme
/// prefix, the base64 decode, the UTF-8 decode, and the colon split, with
/// the first failure named.
pub open spec fn basic_auth_spec(hv: Seq<char>) -> Result<(Seq<char>, Seq<char>), BasicAuthError> {
    if !(hv.len() >= 6 && hv.subrange(0, 6) == "Basic "@) {
        Err(BasicAuthError::NotBasic)
    } else {
        match base64_decode_standard(hv.skip(6)) {
            None => Err(BasicAuthError::InvalidBase64),
            Some(bytes) => {
                if !valid_utf8(bytes) {
                    Err(BasicAuthError::InvalidUtf8)
                } else {
                    match split_credentials(decode_utf8(bytes)) {
                        None => Err(BasicAuthError::MissingPassword),
                        Some(p) => Ok(p),
                    }
                }
            },
        }
    }
}

/// Extracts the credentials packed into a `Basic` authorization header
/// value.
#[verifier::loop_isolation(false)]
pub fn basic_authentication(header_value: &str) -> (r: Result<Credentials, BasicAuthError>)
    ensures
        match r {
            Ok(c) => basic_auth_spec(header_value@) == Ok::<_, BasicAuthError>(
                (c.username@, c.password@),
            ),
            Err(e) => basic_auth_spec(header_value@) == Err::<(Seq<char>, Seq<char>), _>(e),
        },
{
    let hv_len = header_value.unicode_len();
    proof {
        reveal_strlit("Basic ");
    }
    if hv_len < 6 {
        return Err(BasicAuthError::NotBasic);
    }
    if !(header_value.get_char(0) == 'B' && header_value.get_char(1) == 'a'
        && header_value.get_char(2) == 's' && header_value.get_char(3) == 'i'
        && header_value.get_char(4) == 'c' && header_value.get_char(5) == ' ') {
        proof {
            assert(header_value@.subrange(0, 6) != "Basic "@) by {
                reveal_strlit("Basic ");
                if header_value@.subrange(0, 6) == "Basic "@ {
                    assert(header_value@[0] == header_value@.subrange(0, 6)[0]);
                    assert(header_value@[1] == header_value@.subrange(0, 6)[1]);
                    assert(header_value@[2] == header_value@.subrange(0, 6)[2]);
                    assert(header_value@[3] == header_value@.subrange(0, 6)[3]);
                    assert(header_value@[4] == header_value@.subrange(0, 6)[4]);
                    assert(header_value@[5] == header_value@.subrange(0, 6)[5]);
                    assert(header_value@[0] == 'B' && header_value@[1] == 'a' && header_value@[2]
                        == 's' && header_value@[3] == 'i' && header_value@[4] == 'c'
                        && header_value@[5] == ' ');
                }
            }
        }
        return Err(BasicAuthError::NotBasic);
    }
    proof {
        assert(header_value@.subrange(0, 6) =~= "Basic "@);
    }
    let segment = header_value.substring_char(6, hv_len);
    proof {
        assert(segment@ == header_value@.skip(6));
    }
    let decoded_bytes = match base64_decode(segment) {
        Some(b) => b,
        None => {
            return Err(BasicAuthError::InvalidBase64);
        },
    };
    let ghost bytes_view = decoded_bytes@;
    let decoded = match string_from_utf8(decoded_bytes) {
        Some(s) => s,
        None => {
            return Err(BasicAuthError::InvalidUtf8);
        },
    };
    let d = decoded.as_str();
    let d_len = d.unicode_len();
    let mut i: usize = 0;
    while i < d_len
        invariant
            i <= d_len,
            d_len == d@.len(),
            forall|k: int| 0 <= k < i ==> d@[k] != ':',
        decreases d_len - i,
    {
        if d.get_char(i) == ':' {
            proof {
                assert(has_colon(d@));
                let ci = first_colon(d@);
                assert(0 <= ci < d@.len() && d@[ci] == ':' && (forall|k: int|
                    0 <= k < ci ==> d@[k] != ':'));
                if ci < i as int {
                    assert(d@[ci] != ':');
                }
                if (i as int) < ci {
                    assert(d@[i as int] != ':');
                }
                assert(ci == i as int);
            }
            let username = d.substring_char(0, i).to_owned();
            let password = d.substring_char(i + 1, d_len).to_owned();
            proof {
                assert(username@ =~= d@.take(i as int));
                assert(password@ =~= d@.skip(i + 1));
            }
            return Ok(Credentials { username, password });
        }
        i = i + 1;
    }
    proof {
        assert(!has_colon(d@));
    }
    Err(BasicAuthError::MissingPassword)
}

/// The e-mail addresses of the confirmed subscribers, in table order.
pub open spec fn confirmed_emails(subs: Seq<SubscriberModel>) -> Seq<Seq<char>>
    decreases subs.len(),
{
    if subs.len() == 0 {
        Seq::empty()
    } else {
        let rest = confirmed_emails(subs.drop_last());
        if subs.last().confirmed {
            rest.push(subs.last().email)
        } else {
            rest
        }
    }
}

/// Fetches every confirmed subscriber, each stored address re-validated:
/// a row whose address no longer parses comes back as the error the
/// caller logs and skips.
pub fn get_confirmed_subscribers(store: &Store) -> (r: Vec<Result<SubscriberEmail, String>>)
    ensures
        r@.len() == confirmed_emails(store@.subscribers).len(),
        forall|k: int|
            0 <= k < r@.len() ==> match #[trigger] r@[k] {
                Ok(em) => is_valid_email(confirmed_emails(store@.subscribers)[k]) && em@
                    == confirmed_emails(store@.subscribers)[k],
                Err(e) => !is_valid_email(confirmed_emails(store@.subscribers)[k]) && e@ == "\""@
                    + confirmed_emails(store@.subscribers)[k]
                    + "\" is not a valid email address"@,
            },
{
    let ghost subs = store@.subscribers;
    let n = store.subscribers.len();
    let mut r: Vec<Result<SubscriberEmail, String>> = Vec::new();
    let mut i: usize = 0;
    proof {
        assert(confirmed_emails(subs.take(0)) =~= Seq::<Seq<char>>::empty());
    }
    while i < n
        invariant
            i <= n,
            n == store.subscribers@.len(),
            subs == store@.subscribers,
            subs.len() == n,
            r@.len() == confirmed_emails(subs.take(i as int)).len(),
            forall|k: int|
                0 <= k < r@.len() ==> match #[trigger] r@[k] {
                    Ok(em) => is_valid_email(confirmed_emails(subs.take(i as int))[k]) && em@
                        == confirmed_emails(subs.take(i as int))[k],
                    Err(e) => !is_valid_email(confirmed_emails(subs.take(i as int))[k]) && e@
                        == "\""@ + confirmed_emails(subs.take(i as int))[k]
                        + "\" is not a valid email address"@,
                },
        decreases n - i,
    {
        let ghost before = confirmed_emails(subs.take(i as int));
        proof {
            let t1 = subs.take(i + 1);
            assert(t1.drop_last() =~= subs.take(i as int));
            assert(t1.last() == subs[i as int]);
        }
        if store.subscribers[i].confirmed {
            let parsed = SubscriberEmail::parse(store.subscribers[i].email.as_str());
            r.push(parsed);
            proof {
                assert(confirmed_emails(subs.take(i + 1)) =~= before.push(subs[i as int].email));
                assert(forall|k: int|
                    0 <= k < before.len() ==> confirmed_emails(subs.take(i + 1))[k]
                        == #[trigger] before[k]);
            }
        } else {
            proof {
                assert(confirmed_emails(subs.take(i + 1)) =~= before);
            }
        }
        i = i + 1;
    }
    proof {
        assert(subs.take(n as int) =~= subs);
    }
    r
}

/// The deliveries the legacy endpoint performs: one per confirmed
/// subscriber whose stored address is valid, in table order, all with the
/// same title and content.
pub open spec fn sends_for_emails(
    emails: Seq<Seq<char>>,
    title: Seq<char>,
    html: Seq<char>,
    text: Seq<char>,
) -> Seq<SendModel>
    decreases emails.len(),
{
    if emails.len() == 0 {
        Seq::empty()
    } else {
        let rest = sends_for_emails(emails.drop_last(), title, html, text);
        if is_valid_email(emails.last()) {
            rest.push(
                (SendModel {
                    recipient: emails.last(),
                    title,
                    html_content: html,
                    text_content: text,
                }),
            )
        } else {
            rest
        }
    }
}

/// The legacy publish computation: the full send list for this issue —
/// every confirmed subscriber with a valid stored address, skipping (for
/// the caller to log) the rows whose address no longer parses. The web
/// layer authenticates before calling this and performs the sends after.
pub fn publish_newsletter(store: &Store, body: &BodyData) -> (sends: Vec<SendRequest>)
    ensures
        sends@.map_values(|s: SendRequest| s@) == sends_for_emails(
            confirmed_emails(store@.subscribers),
            body.title@,
            body.content.html@,
            body.content.text@,
        ),
{
    let ghost title = body.title@;
    let ghost html = body.content.html@;
    let ghost text = body.content.text@;
    let subscribers = get_confirmed_subscribers(store);
    let ghost emails = confirmed_emails(store@.subscribers);
    let n = subscribers.len();
    let mut sends: Vec<SendRequest> = Vec::new();
    let mut i: usize = 0;
    proof {
        assert(sends@.map_values(|s: SendRequest| s@) =~= Seq::<SendModel>::empty());
        assert(emails.take(0) =~= Seq::<Seq<char>>::empty());
    }
    while i < n
        invariant
            i <= n,
            n == subscribers@.len(),
            emails == confirmed_emails(store@.subscribers),
            emails.len() == n,
            title == body.title@,
            html == body.content.html@,
            text == body.content.text@,
            forall|k: int|
                0 <= k < n ==> match #[trigger] subscribers@[k] {
                    Ok(em) => is_valid_email(emails[k]) && em@ == emails[k],
                    Err(e) => !is_valid_email(emails[k]),
                },
            sends@.map_values(|s: SendRequest| s@) == sends_for_emails(
                emails.take(i as int),
                title,
                html,
                text,
            ),
        decreases n - i,
    {
        let ghost before = sends@.map_values(|s: SendRequest| s@);
        proof {
            let t1 = emails.take(i + 1);
            assert(t1.drop_last() =~= emails.take(i as int));
            assert(t1.last() == emails[i as int]);
        }
        match &subscribers[i] {
            Ok(em) => {
                let rq = SendRequest {
                    recipient: em.as_ref().to_owned(),
                    title: body.title.clone(),
                    html_content: body.content.html.clone(),
                    text_content: body.content.text.clone(),
                };
                sends.push(rq);
                proof {
                    assert(sends@.map_values(|s: SendRequest| s@) =~= before.push(
                        (SendModel {
                            recipient: emails[i as int],
                            title,
                            html_content: html,
                            text_content: text,
                        }),
                    ));
                    assert(sends_for_emails(emails.take(i + 1), title, html, text) =~= before.push(
                        (SendModel {
                            recipient: emails[i as int],
                            title,
                            html_content: html,
                            text_content: text,
                        }),
                    ));
                }
            },
            Err(_) => {
                // The stored address is invalid; the caller logs the
                // skipped subscriber.
                proof {
                    assert(sends_for_emails(emails.take(i + 1), title, html, text) =~= before);
                }
            },
        }
        i = i + 1;
    }
    proof {
        assert(emails.take(n as int) =~= emails);
    }
    sends
}

} // verus!
