//! One-to-one calls: a short message to a contact and an acknowledgement
//! back. The callee answers only its contacts. The connection itself is the
//! caller's part; this module decides what is said.

use vstd::prelude::*;

use crate::cli::Contact;
use crate::text::same_text;

verus! {

/// The message a call carries each way.
#[derive(Debug, Clone)]
pub struct CallMsg {
    pub nick: String,
    pub text: String,
}

/// What the callee does with an incoming call.
#[derive(Debug, Clone)]
pub enum CallAnswer {
    /// The caller is not a contact: send this acknowledgement and close,
    /// without reading the caller's message.
    Reject { ack: CallMsg },
    /// Read the caller's message, log it with [`incoming_call`], then send
    /// this acknowledgement.
    Accept { ack: CallMsg },
}

/// How the callee answers: contacts are accepted, everyone else is told why
/// not.
pub fn answer_call(own_nick: &str, is_contact: bool) -> (r: CallAnswer)
    ensures
        match r {
            CallAnswer::Reject { ack } => !is_contact && ack.nick@ == own_nick@ && ack.text@
                == "call rejected: you are not in their contacts"@,
            CallAnswer::Accept { ack } => is_contact && ack.nick@ == own_nick@ && ack.text@
                == "call accepted"@,
        },
{
    if is_contact {
        CallAnswer::Accept {
            ack: CallMsg { nick: String::from_str(own_nick), text: String::from_str("call accepted") },
        }
    } else {
        CallAnswer::Reject {
            ack: CallMsg {
                nick: String::from_str(own_nick),
                text: String::from_str("call rejected: you are not in their contacts"),
            },
        }
    }
}

/// The log entry for an accepted call: the caller's nick as the callee's
/// contacts know it (else as the caller gave it) and the call's text.
pub fn incoming_call(contact_nick: Option<String>, msg: &CallMsg) -> (r: (String, String))
    ensures
        r.0@ == match contact_nick {
            Some(n) => n@,
            None => msg.nick@,
        },
        r.1@ == "\u{1F4DE} incoming call: "@ + msg.text@,
{
    let nick = match contact_nick {
        Some(n) => n,
        None => msg.nick.clone(),
    };
    let mut text = String::from_str("\u{1F4DE} incoming call: ");
    text.append(msg.text.as_str());
    (nick, text)
}

/// The callee's side of calls: its own nick and the contacts it answers.
#[derive(Debug, Clone)]
pub struct CallHandler {
    pub nick: String,
    pub contacts: Vec<Contact>,
}

/// The nick the contacts know `id` by: the first contact with that id.
pub open spec fn contact_nick(contacts: Seq<Contact>, id: Seq<char>) -> Option<Seq<char>>
    decreases contacts.len(),
{
    if contacts.len() == 0 {
        None
    } else if contacts[0].id@ == id {
        Some(contacts[0].nick@)
    } else {
        contact_nick(contacts.drop_first(), id)
    }
}

impl CallHandler {
    pub fn new(nick: String, contacts: Vec<Contact>) -> (r: CallHandler)
        ensures
            r.nick == nick,
            r.contacts == contacts,
    {
        CallHandler { nick, contacts }
    }

    /// The nick the contacts know a caller by, if the caller is a contact.
    pub fn nick_of(&self, remote: &str) -> (r: Option<String>)
        ensures
            match (r, contact_nick(self.contacts@, remote@)) {
                (Some(n), Some(m)) => n@ == m,
                (None, None) => true,
                _ => false,
            },
    {
        let mut i: usize = 0;
        let ghost all = self.contacts@;
        assert(all.subrange(0, all.len() as int) =~= all);
        while i < self.contacts.len()
            invariant
                0 <= i <= all.len(),
                all == self.contacts@,
                contact_nick(all, remote@) == contact_nick(all.subrange(i as int, all.len() as int), remote@),
            decreases all.len() - i,
        {
            let ghost rest = all.subrange(i as int, all.len() as int);
            assert(rest.drop_first() =~= all.subrange(i + 1, all.len() as int));
            if same_text(self.contacts[i].id.as_str(), remote) {
                return Some(self.contacts[i].nick.clone());
            }
            i = i + 1;
        }
        assert(all.subrange(i as int, all.len() as int) =~= Seq::<Contact>::empty());
        None
    }

    /// How to answer a call from `remote`: only contacts are accepted.
    pub fn answer(&self, remote: &str) -> (r: CallAnswer)
        ensures
            match r {
                CallAnswer::Reject { ack } => contact_nick(self.contacts@, remote@) is None
                    && ack.nick@ == self.nick@ && ack.text@
                    == "call rejected: you are not in their contacts"@,
                CallAnswer::Accept { ack } => contact_nick(self.contacts@, remote@) is Some
                    && ack.nick@ == self.nick@ && ack.text@ == "call accepted"@,
            },
    {
        let is_contact = self.nick_of(remote).is_some();
        answer_call(self.nick.as_str(), is_contact)
    }

    /// The log entry for an accepted call from `remote` carrying `msg`.
    pub fn incoming(&self, remote: &str, msg: &CallMsg) -> (r: (String, String))
        ensures
            r.0@ == match contact_nick(self.contacts@, remote@) {
                Some(n) => n,
                None => msg.nick@,
            },
            r.1@ == "\u{1F4DE} incoming call: "@ + msg.text@,
    {
        incoming_call(self.nick_of(remote), msg)
    }
}

} // verus!
