//! Validated subscriber data: e-mail addresses and display names.
//!
//! A value of these types can only be obtained through its `parse`
//! constructor, so holding one is proof the validation ran.

use unicode_segmentation::UnicodeSegmentation;
use validator::ValidateEmail;
use vstd::prelude::*;

verus! {

/// Whether the HTML5-shape e-mail check accepts these characters. The
/// check is deterministic in the characters alone; the library treats it
/// as the definition of a well-formed address.
pub uninterp spec fn is_valid_email(s: Seq<char>) -> bool;

/// Relies on `validator::ValidateEmail::validate_email` (for `&str`): the
/// HTML5-spec e-mail shape check, a pure function of the characters. Its
/// body rejects the empty string and any string without `'@'` before all
/// other tests.
#[verifier::external_body]
fn validate_email_str(s: &str) -> (r: bool)
    ensures
        r == is_valid_email(s@),
        s@.len() == 0 ==> !r,
        !s@.contains('@') ==> !r,
{
    s.validate_email()
}

/// How many extended grapheme clusters the characters form. The
/// segmentation is deterministic in the characters alone.
pub uninterp spec fn grapheme_count(s: Seq<char>) -> nat;

/// Relies on `unicode_segmentation::UnicodeSegmentation::graphemes` with
/// extended clusters: grapheme clusters partition the string, each cluster
/// holding at least one character, so the count is zero exactly on the
/// empty string and never exceeds the character count.
#[verifier::external_body]
fn count_graphemes(s: &str) -> (n: usize)
    ensures
        n == grapheme_count(s@),
        n <= s@.len(),
        (n == 0) == (s@.len() == 0),
{
    s.graphemes(true).count()
}

/// The characters left after removing leading and trailing whitespace.
pub uninterp spec fn trimmed(s: Seq<char>) -> Seq<char>;

/// Relies on `str::trim`: returns the slice with leading and trailing
/// whitespace removed, a pure function of the characters, never longer
/// than its input.
#[verifier::external_body]
fn trim_str(s: &str) -> (r: &str)
    ensures
        r@ == trimmed(s@),
        r@.len() <= s@.len(),
{
    s.trim()
}

/// A syntactically valid subscriber e-mail address.
#[derive(Clone, Debug)]
pub struct SubscriberEmail {
    email: String,
}

impl View for SubscriberEmail {
    type V = Seq<char>;

    closed spec fn view(&self) -> Seq<char> {
        self.email@
    }
}

impl SubscriberEmail {
    /// Accepts exactly the strings the e-mail shape check accepts; the
    /// error carries the offending string.
    pub fn parse(s: &str) -> (r: Result<SubscriberEmail, String>)
        ensures
            match r {
                Ok(em) => is_valid_email(s@) && em@ == s@,
                Err(e) => !is_valid_email(s@) && e@ == "\""@ + s@
                    + "\" is not a valid email address"@,
            },
    {
        if validate_email_str(s) {
            Ok(SubscriberEmail { email: s.to_owned() })
        } else {
            let mut msg = String::from_str("\"");
            msg.append(s);
            msg.append("\" is not a valid email address");
            Err(msg)
        }
    }

    /// The address as a string slice.
    pub fn as_ref(&self) -> (r: &str)
        ensures
            r@ == self@,
    {
        self.email.as_str()
    }
}

/// The characters a subscriber name may not contain.
pub open spec fn forbidden_name_char(c: char) -> bool {
    c == '/' || c == '(' || c == ')' || c == '"' || c == '<' || c == '>' || c == '\\' || c == '{'
        || c == '}'
}

/// Does the string contain a forbidden character?
pub open spec fn has_forbidden_char(s: Seq<char>) -> bool {
    exists|i: int| 0 <= i < s.len() && forbidden_name_char(#[trigger] s[i])
}

/// The largest number of grapheme clusters a subscriber name may have.
pub const NAME_MAX_GRAPHEMES: usize = 256;

/// A valid name: not whitespace-only, at most [`NAME_MAX_GRAPHEMES`]
/// grapheme clusters, and free of forbidden characters.
pub open spec fn valid_subscriber_name(s: Seq<char>) -> bool {
    &&& trimmed(s).len() != 0
    &&& grapheme_count(s) <= NAME_MAX_GRAPHEMES
    &&& !has_forbidden_char(s)
}

fn contains_forbidden_char(s: &str) -> (r: bool)
    ensures
        r == has_forbidden_char(s@),
{
    let n = s.unicode_len();
    let mut i: usize = 0;
    while i < n
        invariant
            i <= n,
            n == s@.len(),
            forall|k: int| 0 <= k < i ==> !forbidden_name_char(#[trigger] s@[k]),
        decreases n - i,
    {
        let c = s.get_char(i);
        if c == '/' || c == '(' || c == ')' || c == '"' || c == '<' || c == '>' || c == '\\' || c
            == '{' || c == '}' {
            return true;
        }
        i = i + 1;
    }
    false
}

/// A valid subscriber display name.
#[derive(Clone, Debug)]
pub struct SubscriberName {
    name: String,
}

impl View for SubscriberName {
    type V = Seq<char>;

    closed spec fn view(&self) -> Seq<char> {
        self.name@
    }
}

impl SubscriberName {
    /// Accepts exactly the valid names: rejects whitespace-only strings,
    /// strings over [`NAME_MAX_GRAPHEMES`] grapheme clusters, and strings
    /// holding a forbidden character; the error carries the offending
    /// string.
    pub fn parse(s: &str) -> (r: Result<SubscriberName, String>)
        ensures
            match r {
                Ok(nm) => valid_subscriber_name(s@) && nm@ == s@,
                Err(e) => !valid_subscriber_name(s@) && e@ == "\""@ + s@
                    + "\" is not a valid subscriber name"@,
            },
    {
        let is_empty_or_whitespace = trim_str(s).is_empty();
        let is_too_long = count_graphemes(s) > NAME_MAX_GRAPHEMES;
        let has_forbidden_characters = contains_forbidden_char(s);
        if is_empty_or_whitespace || is_too_long || has_forbidden_characters {
            let mut msg = String::from_str("\"");
            msg.append(s);
            msg.append("\" is not a valid subscriber name");
            Err(msg)
        } else {
            Ok(SubscriberName { name: s.to_owned() })
        }
    }

    /// The name as a string slice.
    pub fn as_ref(&self) -> (r: &str)
        ensures
            r@ == self@,
    {
        self.name.as_str()
    }
}

/// A fully validated signup: both fields parsed.
#[derive(Clone, Debug)]
pub struct NewSubscriber {
    pub email: SubscriberEmail,
    pub name: SubscriberName,
}

impl NewSubscriber {
    /// Validates a raw signup form, name first, then e-mail, reporting the
    /// first failure.
    pub fn parse(email: &str, name: &str) -> (r: Result<NewSubscriber, String>)
        ensures
            match r {
                Ok(ns) => valid_subscriber_name(name@) && is_valid_email(email@) && ns.name@
                    == name@ && ns.email@ == email@,
                Err(e) => {
                    &&& !(valid_subscriber_name(name@) && is_valid_email(email@))
                    &&& e@ == (if !valid_subscriber_name(name@) {
                        "\""@ + name@ + "\" is not a valid subscriber name"@
                    } else {
                        "\""@ + email@ + "\" is not a valid email address"@
                    })
                },
            },
    {
        let name = match SubscriberName::parse(name) {
            Ok(n) => n,
            Err(e) => {
                return Err(e);
            },
        };
        let email = match SubscriberEmail::parse(email) {
            Ok(em) => em,
            Err(e) => {
                return Err(e);
            },
        };
        Ok(NewSubscriber { email, name })
    }
}

} // verus!
