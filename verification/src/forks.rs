//! Sessions that branch: a main session, and the forks that were taken of it.
use vstd::prelude::*;

use crate::ids::fresh_id;
use crate::names::{law_put, lemma_put_seen, lemma_seen, lookup, put, seen, NameMap};
use crate::session::{InMemorySession, Session, SessionError};
use crate::text::{concat2, ends_with, lemma_ends_with, views, Chars};
use crate::types::{copy_messages, Message, MessageV};

verus! {

/// What a [`SessionAdapter`] is.
#[verifier::ext_equal]
pub struct AdapterV {
    /// What was said in the main session.
    pub main: Seq<MessageV>,
    /// What was said in each fork, by the fork's id.
    pub forks: Seq<(Seq<char>, Seq<MessageV>)>,
}

impl AdapterV {
    /// Something is said in the main session.
    pub open spec fn said(self, message: MessageV) -> AdapterV {
        AdapterV { main: self.main.push(message), forks: self.forks }
    }

    /// The main session is forked under an id.
    pub open spec fn forked(self, id: Seq<char>) -> AdapterV {
        AdapterV { main: self.main, forks: put(self.forks, id, self.main) }
    }

    /// Something is said in a fork.
    pub open spec fn said_in(self, id: Seq<char>, message: MessageV) -> AdapterV {
        match lookup(self.forks, id) {
            Some(history) => AdapterV {
                main: self.main,
                forks: put(self.forks, id, history.push(message)),
            },
            None => self,
        }
    }
}

/// What is said where no fork of that id was taken.
pub open spec fn no_fork(id: Seq<char>) -> Seq<char> {
    "fork not found: "@ + id
}

/// The error of a session whose lock was left by a holder that panicked.
pub fn poison() -> (r: SessionError)
    ensures
        r@ == "session lock poisoned"@,
{
    SessionError::Failed { message: "session lock poisoned".to_owned() }
}

/// A main session that can be forked. It is its main session: what is appended to it is said
/// there. Forks live in memory, as long as it does, and go their own ways.
#[derive(Debug, PartialEq)]
pub struct SessionAdapter<S = InMemorySession> {
    main: S,
    forks: NameMap<InMemorySession>,
}

impl<S: Session> View for SessionAdapter<S> {
    type V = AdapterV;

    closed spec fn view(&self) -> AdapterV {
        AdapterV { main: self.main.said(), forks: seen(self.forks@) }
    }
}

impl<S: Session> SessionAdapter<S> {
    /// Whether the main session refuses no message.
    pub closed spec fn main_willing(self) -> bool {
        self.main.willing()
    }

    /// Makes a session the main one.
    pub fn new(session: S) -> (r: SessionAdapter<S>)
        ensures
            r@.main == session.said(),
            r.main_willing() == session.willing(),
            r@.forks == Seq::<(Seq<char>, Seq<MessageV>)>::empty(),
    {
        let r = SessionAdapter { main: session, forks: NameMap::new() };
        assert(r@.forks =~= Seq::empty());
        r
    }

    /// Says something in the main session.
    pub fn append(&mut self, message: Message) -> (r: Result<(), SessionError>)
        ensures
            match r {
                Ok(_) => final(self)@ == old(self)@.said(message@),
                Err(_) => final(self)@ == old(self)@ && !old(self).main_willing(),
            },
            old(self).main_willing() ==> final(self).main_willing(),
    {
        self.main.append(message)
    }

    /// What was said in the main session.
    pub fn messages(&self) -> (r: &Vec<Message>)
        ensures
            views(r@) == self@.main,
    {
        self.main.messages()
    }

    /// Forks the main session under a fresh id.
    pub fn fork(&mut self) -> (r: Result<String, SessionError>)
        ensures
            r matches Ok(id) && id@.len() == 36 && final(self)@ == old(self)@.forked(id@),
            final(self).main_willing() == old(self).main_willing(),
    {
        let id = fresh_id();
        let branch = InMemorySession::of(copy_messages(self.main.messages()));
        proof {
            lemma_put_seen(self.forks@, id@, branch);
        }
        self.forks.insert(id.clone(), branch);
        Ok(id)
    }

    /// The fork of that id.
    pub fn get(&self, id: &str) -> (r: Result<&InMemorySession, SessionError>)
        ensures
            match r {
                Ok(session) => lookup(self@.forks, id@) == Some(session@),
                Err(e) => lookup(self@.forks, id@) is None && e@ == no_fork(id@),
            },
    {
        proof {
            lemma_seen(self.forks@, id@);
        }
        match self.forks.get(id) {
            Some(session) => Ok(session),
            None => Err(SessionError::Failed { message: concat2("fork not found: ", id) }),
        }
    }

    /// Says something in a fork.
    pub fn append_to(&mut self, id: &str, message: Message) -> (r: Result<(), SessionError>)
        ensures
            final(self)@ == old(self)@.said_in(id@, message@),
            match r {
                Ok(_) => lookup(old(self)@.forks, id@) is Some,
                Err(e) => lookup(old(self)@.forks, id@) is None && e@ == no_fork(id@),
            },
            final(self).main_willing() == old(self).main_willing(),
    {
        let mut session = match self.get(id) {
            Ok(session) => session.clone(),
            Err(e) => {
                return Err(e);
            },
        };
        let _ = session.append(message);
        proof {
            lemma_put_seen(self.forks@, id@, session);
        }
        self.forks.insert(id.to_owned(), session);
        Ok(())
    }
}

/// A main session that can be forked, and whose forks can be opened again by their ids. It is
/// its main session: what is appended to it is said there.
///
/// `held`, `opens` and `willing` say what its functions do; nothing runs them, so that a manager
/// written outside Verus may leave them unreachable.
pub trait SessionManager: Sized {
    /// What was said in the main session, and in each fork.
    spec fn held(&self) -> AdapterV;

    /// Whether the fork of an id can be opened.
    spec fn opens(&self, id: Chars) -> bool;

    /// Whether it refuses neither to fork nor to take in a message.
    spec fn willing(&self) -> bool;

    /// Says something in the main session.
    fn append(&mut self, message: Message) -> (r: Result<(), SessionError>)
        ensures
            match r {
                Ok(_) => final(self).held() == old(self).held().said(message@),
                Err(_) => final(self).held() == old(self).held() && !old(self).willing(),
            },
    ;

    /// What was said in the main session.
    fn messages(&self) -> (r: Vec<Message>)
        ensures
            views(r@) == self.held().main,
    ;

    /// Forks the main session under a fresh id.
    fn fork(&mut self) -> (r: Result<String, SessionError>)
        ensures
            match r {
                Ok(id) => final(self).held() == old(self).held().forked(id@),
                Err(_) => final(self).held() == old(self).held() && !old(self).willing(),
            },
            old(self).willing() ==> final(self).willing(),
    ;

    /// What was said in the fork of an id.
    fn get(&self, id: &str) -> (r: Result<Vec<Message>, SessionError>)
        ensures
            match r {
                Ok(messages) => self.opens(id@) && lookup(self.held().forks, id@) == Some(
                    views(messages@),
                ),
                Err(_) => !self.opens(id@),
            },
    ;

    /// Says something in the fork of an id.
    fn append_to(&mut self, id: &str, message: Message) -> (r: Result<(), SessionError>)
        ensures
            match r {
                Ok(_) => final(self).held() == old(self).held().said_in(id@, message@) && lookup(
                    old(self).held().forks,
                    id@,
                ) is Some,
                Err(_) => final(self).held() == old(self).held() && !(old(self).willing()
                    && lookup(old(self).held().forks, id@) is Some),
            },
    ;
}

impl<S: Session> SessionManager for SessionAdapter<S> {
    open spec fn held(&self) -> AdapterV {
        self@
    }

    open spec fn opens(&self, id: Seq<char>) -> bool {
        lookup(self@.forks, id) is Some
    }

    open spec fn willing(&self) -> bool {
        self.main_willing()
    }

    fn append(&mut self, message: Message) -> (r: Result<(), SessionError>) {
        SessionAdapter::<S>::append(self, message)
    }

    fn messages(&self) -> (r: Vec<Message>) {
        copy_messages(SessionAdapter::<S>::messages(self))
    }

    fn fork(&mut self) -> (r: Result<String, SessionError>) {
        SessionAdapter::<S>::fork(self)
    }

    fn get(&self, id: &str) -> (r: Result<Vec<Message>, SessionError>) {
        match SessionAdapter::<S>::get(self, id) {
            Ok(session) => Ok(copy_messages(session.messages())),
            Err(e) => Err(e),
        }
    }

    fn append_to(&mut self, id: &str, message: Message) -> (r: Result<(), SessionError>) {
        SessionAdapter::<S>::append_to(self, id, message)
    }
}

/// A fork starts with what was said in the main session. What is said in it afterwards is
/// found in it, and neither in the main session nor in another fork; what is said in the main
/// session afterwards is not found in it.
pub proof fn law_forks_are_independent(
    sessions: AdapterV,
    id: Seq<char>,
    other: Seq<char>,
    message: MessageV,
)
    ensures
        lookup(sessions.forked(id).forks, id) == Some(sessions.main),
        sessions.forked(id).main == sessions.main,
        lookup(sessions.forked(id).said(message).forks, id) == Some(sessions.main),
        sessions.forked(id).said_in(id, message).main == sessions.main,
        lookup(sessions.forked(id).said_in(id, message).forks, id) == Some(
            sessions.main.push(message),
        ),
        other != id ==> lookup(sessions.forked(id).said_in(id, message).forks, other) == lookup(
            sessions.forks,
            other,
        ),
{
    let forked = sessions.forked(id);
    law_put(sessions.forks, id, sessions.main, other);
    law_put(forked.forks, id, sessions.main.push(message), other);
}

/// What is said in the main session is said there and nowhere else; a fork that was not taken
/// takes nothing in.
pub proof fn law_what_is_said_stays_where_it_is_said(
    sessions: AdapterV,
    id: Seq<char>,
    message: MessageV,
)
    ensures
        sessions.said(message).main == sessions.main.push(message),
        sessions.said(message).forks == sessions.forks,
        lookup(sessions.forks, id) is None ==> sessions.said_in(id, message) == sessions,
        lookup(sessions.forks, id) matches Some(history) ==> lookup(
            sessions.said_in(id, message).forks,
            id,
        ) == Some(history.push(message)),
        ends_with(no_fork(id), id),
{
    match lookup(sessions.forks, id) {
        Some(history) => {
            law_put(sessions.forks, id, history.push(message), id);
        },
        None => {},
    }
    lemma_ends_with("fork not found: "@, id);
}

} // verus!
