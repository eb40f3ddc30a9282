//! What a server does with each message of one connection: the first
//! message is the user's nickname and makes the connection join the chat,
//! announced to the others; every later message is forwarded, prefixed with
//! that nickname.

use vstd::prelude::*;
use crate::messages::{chat_message, has_logged_in_message, logged_in_message};

verus! {

broadcast use vstd::string::group_string_axioms;

/// How a server announces a user who has just joined.
#[derive(Debug, Clone, Copy, PartialEq, Eq, Structural)]
pub enum Greeting {
    /// `nickname has logged in`, as the event-loop server says.
    HasLoggedIn,
    /// `nickname logged in`, as the thread-per-connection server says.
    LoggedIn,
}

/// The announcement of `nickname` in the style `greeting`.
pub open spec fn login_text(greeting: Greeting, nickname: Seq<char>) -> Seq<char> {
    match greeting {
        Greeting::HasLoggedIn => nickname + " has logged in"@,
        Greeting::LoggedIn => nickname + " logged in"@,
    }
}

/// What the server is to do with a message of the connection.
pub enum SessionAction {
    /// Subscribe the connection, then broadcast this announcement.
    Join(String),
    /// Broadcast this line.
    Forward(String),
}

/// An action seen as whether it joins, and the line it broadcasts.
pub open spec fn action_view(a: SessionAction) -> (bool, Seq<char>) {
    match a {
        SessionAction::Join(line) => (true, line@),
        SessionAction::Forward(line) => (false, line@),
    }
}

/// A nickname seen as its characters.
pub open spec fn nickname_view(n: Option<String>) -> Option<Seq<char>> {
    match n {
        Some(s) => Some(s@),
        None => None,
    }
}

/// The nickname after `msg` arrives: the first message sets it, later ones
/// keep it.
pub open spec fn next_nickname(nickname: Option<Seq<char>>, msg: Seq<char>) -> Option<Seq<char>> {
    match nickname {
        None => Some(msg),
        Some(n) => Some(n),
    }
}

/// What to do with `msg`: join with the announcement of `msg` when there is
/// no nickname yet, otherwise forward `nickname: msg`.
pub open spec fn next_action(
    nickname: Option<Seq<char>>,
    greeting: Greeting,
    msg: Seq<char>,
) -> (bool, Seq<char>) {
    match nickname {
        None => (true, login_text(greeting, msg)),
        Some(n) => (false, n + ": "@ + msg),
    }
}

/// The state of one connection.
pub struct Session {
    /// How joins are announced.
    pub greeting: Greeting,
    /// The nickname, once the first message has arrived.
    pub nickname: Option<String>,
}

impl Session {
    /// A connection that has sent nothing yet.
    pub fn new(greeting: Greeting) -> (s: Session)
        ensures
            s.greeting == greeting,
            s.nickname is None,
    {
        Session { greeting, nickname: None }
    }

    /// Takes the next message of the connection and says what to do with it.
    pub fn receive(&mut self, msg: String) -> (a: SessionAction)
        ensures
            final(self).greeting == old(self).greeting,
            old(self).nickname is None ==> (final(self).nickname matches Some(n) && n@ == msg@),
            old(self).nickname is None && old(self).greeting == Greeting::HasLoggedIn ==> (a matches SessionAction::Join(line)
                && line@ == msg@ + " has logged in"@),
            old(self).nickname is None && old(self).greeting == Greeting::LoggedIn ==> (a matches SessionAction::Join(line)
                && line@ == msg@ + " logged in"@),
            old(self).nickname is Some ==> final(self).nickname == old(self).nickname,
            old(self).nickname matches Some(n) ==> (a matches SessionAction::Forward(line)
                && line@ == n@ + ": "@ + msg@),
            nickname_view(final(self).nickname) == next_nickname(
                nickname_view(old(self).nickname),
                msg@,
            ),
            action_view(a) == next_action(nickname_view(old(self).nickname), old(self).greeting, msg@),
    {
        match &self.nickname {
            Some(n) => SessionAction::Forward(chat_message(n.as_str(), msg.as_str())),
            None => {
                let line = match self.greeting {
                    Greeting::HasLoggedIn => has_logged_in_message(msg.as_str()),
                    Greeting::LoggedIn => logged_in_message(msg.as_str()),
                };
                self.nickname = Some(msg);
                SessionAction::Join(line)
            },
        }
    }
}

/// The nickname after the messages `msgs` of a new connection.
pub open spec fn nickname_after(msgs: Seq<Seq<char>>) -> Option<Seq<char>>
    decreases msgs.len(),
{
    if msgs.len() == 0 {
        None
    } else {
        next_nickname(nickname_after(msgs.drop_last()), msgs.last())
    }
}

/// The actions taken, one per message, for the messages `msgs` of a new
/// connection.
pub open spec fn actions_for(greeting: Greeting, msgs: Seq<Seq<char>>) -> Seq<(bool, Seq<char>)>
    decreases msgs.len(),
{
    if msgs.len() == 0 {
        Seq::empty()
    } else {
        actions_for(greeting, msgs.drop_last()).push(
            next_action(nickname_after(msgs.drop_last()), greeting, msgs.last()),
        )
    }
}

/// Over a whole connection: the first message joins and is announced as the
/// nickname, and every later message is forwarded prefixed with that first
/// message.
pub proof fn lemma_first_message_is_the_nickname(greeting: Greeting, msgs: Seq<Seq<char>>)
    requires
        msgs.len() > 0,
    ensures
        actions_for(greeting, msgs).len() == msgs.len(),
        nickname_after(msgs) == Some(msgs[0]),
        greeting == Greeting::HasLoggedIn ==> actions_for(greeting, msgs)[0] == (
            true,
            msgs[0] + " has logged in"@,
        ),
        greeting == Greeting::LoggedIn ==> actions_for(greeting, msgs)[0] == (
            true,
            msgs[0] + " logged in"@,
        ),
        forall|k: int|
            1 <= k < msgs.len() ==> #[trigger] actions_for(greeting, msgs)[k] == (
                false,
                msgs[0] + ": "@ + msgs[k],
            ),
    decreases msgs.len(),
{
    let init = msgs.drop_last();
    if msgs.len() == 1 {
        assert(init.len() == 0);
        assert(actions_for(greeting, init) == Seq::<(bool, Seq<char>)>::empty());
    } else {
        lemma_first_message_is_the_nickname(greeting, init);
        assert(init[0] == msgs[0]);
        assert forall|k: int| 1 <= k < msgs.len() implies #[trigger] actions_for(greeting, msgs)[k] == (
            false,
            msgs[0] + ": "@ + msgs[k],
        ) by {
            if k < msgs.len() - 1 {
                assert(actions_for(greeting, msgs)[k] == actions_for(greeting, init)[k]);
                assert(init[k] == msgs[k]);
            }
        }
        assert(actions_for(greeting, msgs)[0] == actions_for(greeting, init)[0]);
    }
}

/// The announcement of a new user is the user's whole first message followed
/// by the greeting; forwarded lines carry the whole nickname and the whole
/// message.
pub proof fn lemma_announcements(greeting: Greeting, nickname: Seq<char>, msg: Seq<char>)
    ensures
        greeting == Greeting::HasLoggedIn ==> login_text(greeting, msg) == msg + " has logged in"@,
        greeting == Greeting::LoggedIn ==> login_text(greeting, msg) == msg + " logged in"@,
        login_text(greeting, msg).take(msg.len() as int) == msg,
        next_action(None, greeting, msg) == (true, login_text(greeting, msg)),
        next_action(Some(nickname), greeting, msg) == (false, nickname + ": "@ + msg),
        next_nickname(None, msg) == Some(msg),
        next_nickname(Some(nickname), msg) == Some(nickname),
{
    assert(login_text(greeting, msg).take(msg.len() as int) =~= msg);
}

} // verus!
