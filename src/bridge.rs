//! Turning what `git config` prints, and what a user types, into values.
use vstd::prelude::*;
use vstd::string::StringExecFns;
use vstd::utf8::{decode_utf8, valid_utf8};
use crate::identity::{ConfigKey, key_name};

verus! {

/// The text without its leading and trailing white space.
pub uninterp spec fn trimmed(s: Seq<char>) -> Seq<char>;

/// Relies on `str::trim`: the text with leading and trailing white space
/// removed, which depends on the characters alone and is no longer than
/// the text.
#[verifier::external_body]
fn trim_text(s: &str) -> (r: String)
    ensures
        r@ == trimmed(s@),
        r@.len() <= s@.len(),
{
    s.trim().to_owned()
}

/// Relies on `String::from_utf8`: it succeeds exactly on valid UTF-8, and
/// then holds the decoded characters.
#[verifier::external_body]
fn decode_bytes(b: Vec<u8>) -> (r: Option<String>)
    ensures
        r is Some <==> valid_utf8(b@),
        r is Some ==> r->Some_0@ == decode_utf8(b@),
{
    String::from_utf8(b).ok()
}

/// The message for output of `git config` that is not UTF-8.
pub open spec fn not_utf8_message(k: ConfigKey) -> Seq<char> {
    "Failed to convert "@ + key_name(k) + " to utf8"@
}

/// The message for a `git config` process that could not be run.
pub open spec fn spawn_failure_text(k: ConfigKey, reason: Seq<char>) -> Seq<char> {
    "Failed to get "@ + key_name(k) + " due to "@ + reason
}

/// The value of `key` from the standard output of `git config <key>`: the
/// decoded text, trimmed. Output that is not UTF-8 is an error.
pub fn config_value_from_output(key: ConfigKey, stdout: Vec<u8>) -> (r: Result<String, String>)
    ensures
        valid_utf8(stdout@) ==> r is Ok && r->Ok_0@ == trimmed(decode_utf8(stdout@)),
        !valid_utf8(stdout@) ==> r is Err && r->Err_0@ == not_utf8_message(key),
{
    match decode_bytes(stdout) {
        Some(text) => Ok(trim_text(text.as_str())),
        None => {
            let mut msg = String::from_str("Failed to convert ");
            msg.append(key.as_str());
            msg.append(" to utf8");
            Err(msg)
        },
    }
}

/// The error reported when `git config <key>` could not be run, with the
/// operating system's reason.
pub fn spawn_failure_message(key: ConfigKey, reason: &str) -> (r: String)
    ensures
        r@ == spawn_failure_text(key, reason@),
{
    let mut msg = String::from_str("Failed to get ");
    msg.append(key.as_str());
    msg.append(" due to ");
    msg.append(reason);
    msg
}

/// A line typed by the user, trimmed, or `None` where nothing but white
/// space is left and another line must be read.
pub fn accept_line(line: &str) -> (r: Option<String>)
    ensures
        trimmed(line@).len() == 0 ==> r is None,
        trimmed(line@).len() > 0 ==> r is Some && r->Some_0@ == trimmed(line@),
{
    let t = trim_text(line);
    if t.as_str().is_empty() {
        None
    } else {
        Some(t)
    }
}

} // verus!
