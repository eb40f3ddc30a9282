//! The text that users see: nicknames taken from what they typed, and the
//! lines that the server sends around.

use vstd::prelude::*;
use vstd::string::StringExecFns;
use crate::text::{str_trim, trim_spec};

verus! {

broadcast use vstd::string::group_string_axioms;

/// The nickname given to a user who typed nothing but white space.
pub open spec fn unknown_nickname() -> Seq<char> {
    "<unknown>"@
}

/// The nickname chosen by a user who typed `line`: the line without its
/// surrounding white space, or `<unknown>` when nothing else is left.
pub fn nickname_from_line(line: &str) -> (nickname: String)
    ensures
        trim_spec(line@).len() == 0 ==> nickname@ == "<unknown>"@,
        trim_spec(line@).len() == 0 ==> nickname@ == unknown_nickname(),
        trim_spec(line@).len() != 0 ==> nickname@ == trim_spec(line@),
        nickname@.len() > 0,
{
    proof {
        reveal_strlit("<unknown>");
    }
    let trimmed = str_trim(line);
    if trimmed.is_empty() {
        String::from_str("<unknown>")
    } else {
        String::from_str(trimmed)
    }
}

/// The nickname of a connection whose first message is `first`; a
/// connection that closed before sending one gets the empty nickname.
pub fn nickname_or_empty(first: Option<String>) -> (nickname: String)
    ensures
        first matches Some(s) ==> nickname@ == s@,
        first is None ==> nickname@ == Seq::<char>::empty(),
{
    match first {
        Some(s) => s,
        None => String::new(),
    }
}

/// The line that forwards `text` from the user `nickname`: `nickname: text`.
pub fn chat_message(nickname: &str, text: &str) -> (line: String)
    ensures
        line@ == nickname@ + ": "@ + text@,
{
    let mut line = String::from_str(nickname);
    line.append(": ");
    line.append(text);
    line
}

/// The line that announces the user `nickname` to the others:
/// `nickname has logged in`.
pub fn has_logged_in_message(nickname: &str) -> (line: String)
    ensures
        line@ == nickname@ + " has logged in"@,
{
    let mut line = String::from_str(nickname);
    line.append(" has logged in");
    line
}

/// The shorter announcement of the thread-per-connection server:
/// `nickname logged in`.
pub fn logged_in_message(nickname: &str) -> (line: String)
    ensures
        line@ == nickname@ + " logged in"@,
{
    let mut line = String::from_str(nickname);
    line.append(" logged in");
    line
}

} // verus!
