//! Sessions: a conversation's messages, in the order in which they were said.
use vstd::prelude::*;

use crate::text::{concat2, views};
use crate::types::{copy_messages, Message, MessageV};

verus! {

/// Why a session refused.
#[derive(Debug, PartialEq)]
pub enum SessionError {
    Failed { message: String },
}

impl View for SessionError {
    type V = Seq<char>;

    /// What the session said.
    open spec fn view(&self) -> Seq<char> {
        match self {
            SessionError::Failed { message } => message@,
        }
    }
}

impl SessionError {
    /// The error in words.
    pub fn words(&self) -> (r: String)
        ensures
            r@ == "session error: "@ + self@,
    {
        match self {
            SessionError::Failed { message } => concat2("session error: ", message.as_str()),
        }
    }
}

/// What was said in a session, as contracts see it.
pub type Said = Seq<MessageV>;

/// A conversation that can be read and gone on with.
///
/// `said` and `willing` say what its functions do; nothing runs them, so that a session written
/// outside Verus may leave them unreachable.
pub trait Session: Sized {
    /// What was said so far.
    spec fn said(&self) -> Said;

    /// Whether it refuses no message.
    spec fn willing(&self) -> bool;

    /// Adds a message behind the others.
    fn append(&mut self, message: Message) -> (r: Result<(), SessionError>)
        ensures
            match r {
                Ok(_) => final(self).said() == old(self).said().push(message@),
                Err(_) => final(self).said() == old(self).said() && !old(self).willing(),
            },
            old(self).willing() ==> final(self).willing(),
    ;

    /// What was said so far.
    fn messages(&self) -> (r: &Vec<Message>)
        ensures
            views(r@) == self.said(),
    ;
}

/// A session that lives in memory.
#[derive(Debug, PartialEq)]
pub struct InMemorySession {
    messages: Vec<Message>,
}

impl View for InMemorySession {
    type V = Seq<MessageV>;

    closed spec fn view(&self) -> Seq<MessageV> {
        views(self.messages@)
    }
}

impl Clone for InMemorySession {
    fn clone(&self) -> (r: Self)
        ensures
            r@ == self@,
    {
        InMemorySession { messages: copy_messages(&self.messages) }
    }
}

impl InMemorySession {
    /// A session in which nothing was said yet.
    pub fn new() -> (r: Self)
        ensures
            r@ == Seq::<MessageV>::empty(),
    {
        let r = InMemorySession { messages: Vec::new() };
        assert(r@ =~= Seq::empty());
        r
    }

    /// A session in which `messages` were said.
    pub fn of(messages: Vec<Message>) -> (r: Self)
        ensures
            r@ == views(messages@),
    {
        InMemorySession { messages }
    }

    /// Adds a message behind the others. Memory refuses nothing.
    pub fn append(&mut self, message: Message) -> (r: Result<(), SessionError>)
        ensures
            r is Ok,
            final(self)@ == old(self)@.push(message@),
    {
        let ghost before = self@;
        let ghost shown = message@;
        self.messages.push(message);
        assert(self@ =~= before.push(shown));
        Ok(())
    }

    /// What was said so far.
    pub fn messages(&self) -> (r: &Vec<Message>)
        ensures
            views(r@) == self@,
    {
        &self.messages
    }
}

impl Session for InMemorySession {
    open spec fn said(&self) -> Seq<MessageV> {
        self@
    }

    open spec fn willing(&self) -> bool {
        true
    }

    fn append(&mut self, message: Message) -> (r: Result<(), SessionError>) {
        InMemorySession::append(self, message)
    }

    fn messages(&self) -> (r: &Vec<Message>) {
        InMemorySession::messages(self)
    }
}

} // verus!
