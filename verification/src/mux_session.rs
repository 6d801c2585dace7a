//! A session made of sessions: one conversation per topic, and a router session that decides
//! between them.
//!
//! What is said goes to a pending list first. A switch takes effect at the next look at the
//! messages or at the end of the turn: only the user's words that led to it go along.
use vstd::prelude::*;

use crate::extensions::{ExtensionError, ExtensionErrorV};
use crate::ids::fresh_id;
use crate::json::{law_first_member_is_found, member_views, Json, JsonV};
use crate::params::{
    law_parameters_declare_an_object, law_text_parameters_declare_texts, parameters,
    parameters_schema, text_parameter, text_parameter_schema,
};
use crate::session::{InMemorySession, Session, SessionError};
use crate::text::{concat2, concat3, ends_with, lemma_ends_with, views};
use crate::tools::{ToolError, ToolErrorV};
use crate::types::{
    blocks_text, copy_messages, law_text_is_read_in_order, law_texts_are_read_back, text_message,
    text_result, BlockV, ContentBlock, Message, MessageV, TextContent, ToolDefinition,
    ToolDefinitionV, ToolResult,
};

verus! {

/// What the router session is told last.
pub open spec fn router_prompt() -> Seq<char> {
    "LLM performance would be affected by unrelated messages in the context. Tool session-mux-switch is used for LLM to manage different topics.\n\nThis is a routing session to decide which existing session is more related to the latest user message. If no existing session is related, call the tool with empty id to create a new session.\n\nRouting session MUST immediately call session-mux-switch to select or create a session."@
}

/// The messages that come before the first one that is not the user's.
pub open spec fn leading_users(messages: Seq<MessageV>) -> Seq<MessageV>
    decreases messages.len(),
{
    if messages.len() == 0 || messages[0].role != "user"@ {
        Seq::empty()
    } else {
        seq![messages[0]] + leading_users(messages.skip(1))
    }
}

/// What a [`MuxSession`] is.
#[verifier::ext_equal]
pub struct MuxV {
    /// The topic that is talked about, with what was said of it.
    pub active: Option<(Seq<char>, Seq<MessageV>)>,
    /// What the router session knows of the topics.
    pub router: Seq<MessageV>,
    /// What was said and not filed yet.
    pub pending: Seq<MessageV>,
    /// A switch has not taken effect yet.
    pub switching: bool,
}

impl MuxV {
    /// What the model sees: the topic with what is pending, or the router session with the
    /// user's words and the request to decide.
    pub open spec fn messages(self) -> Seq<MessageV> {
        match self.active {
            Some((_, history)) => history + self.pending,
            None => self.router + leading_users(self.pending) + seq![
                text_message("user"@, router_prompt()),
            ],
        }
    }

    /// Something is said.
    pub open spec fn said(self, message: MessageV) -> MuxV {
        MuxV {
            active: self.active,
            router: self.router,
            pending: self.pending.push(message),
            switching: self.switching,
        }
    }

    /// A topic is talked about from now on.
    pub open spec fn switched(self, id: Seq<char>, history: Seq<MessageV>) -> MuxV {
        MuxV {
            active: Some((id, history)),
            router: self.router,
            pending: self.pending,
            switching: true,
        }
    }

    /// The topic is left for the router session, with a summary.
    pub open spec fn left(self, summary: Seq<char>) -> MuxV {
        MuxV {
            active: None,
            router: self.router.push(topic_record((self.active->0).0, summary)),
            pending: self.pending,
            switching: self.switching,
        }
    }

    /// Only the user's words stay pending.
    pub open spec fn truncated(self) -> MuxV {
        MuxV {
            active: self.active,
            router: self.router,
            pending: leading_users(self.pending),
            switching: self.switching,
        }
    }

    /// The first `n` messages of what is pending are filed under the topic. What is left of it
    /// is dropped.
    pub open spec fn filed(self, n: int) -> MuxV {
        match self.active {
            Some((id, history)) => MuxV {
                active: Some((id, history + self.pending.take(n))),
                router: self.router,
                pending: Seq::empty(),
                switching: self.switching,
            },
            None => self,
        }
    }

    /// What is pending is filed under the topic.
    pub open spec fn flushed(self) -> MuxV {
        self.filed(self.pending.len() as int)
    }

    /// A switch has taken effect.
    pub open spec fn settled(self) -> MuxV {
        MuxV {
            active: self.active,
            router: self.router,
            pending: leading_users(self.pending),
            switching: false,
        }
    }
}

/// What the router session learns of a topic that is left.
pub open spec fn topic_record(id: Seq<char>, summary: Seq<char>) -> MessageV {
    MessageV {
        role: "user"@,
        content: seq![
            BlockV::Text("id: "@ + id),
            BlockV::Text("summary: "@ + summary),
        ],
    }
}

/// What a call of the switch tool asks for.
#[derive(Debug, PartialEq)]
pub enum SwitchPlan {
    /// A topic cannot be left without a summary.
    Refuse,
    /// The topic is left.
    Leave { summary: String },
    /// The topic of that id is to be loaded.
    Enter { id: String },
}

/// The text of a member, where it says something.
pub open spec fn nonempty_at(params: JsonV, key: Seq<char>) -> Option<Seq<char>> {
    match params.text_at(key) {
        Some(t) if t.len() > 0 => Some(t),
        _ => None,
    }
}

/// The text of a member, where it says something.
pub fn text_member(params: &Json, key: &str) -> (r: Option<String>)
    ensures
        crate::text::opt_view(r) == nonempty_at(params@, key@),
{
    match params.text_at(key) {
        Some(t) => if t.as_str().is_empty() {
            None
        } else {
            Some(t)
        },
        None => None,
    }
}

/// The tool with which a model moves between topics.
pub struct MuxSwitchTool;

impl MuxSwitchTool {
    /// What a model is told of the tool.
    pub open spec fn declared() -> ToolDefinitionV {
        ToolDefinitionV {
            name: "session-mux-switch"@,
            description:
                "Switch to an existing conversation or create a new one. - For regular session must only provide summary to switch to router session. - For router sesion optionally omit next_id to auto-generate new session."@,
            parameters: parameters_schema(
                seq![
                    ("next_id"@, text_parameter_schema("Target conversation ID."@)),
                    (
                        "summary"@,
                        text_parameter_schema(
                            "Brief summary of the current conversation topic EXCLUDING the message triggers the switch, used to identify this session for future routing."@,
                        ),
                    ),
                ],
                Seq::empty(),
            ),
        }
    }

    /// What a model is told of the tool.
    pub fn definition() -> (r: ToolDefinition)
        ensures
            r@ == MuxSwitchTool::declared(),
    {
        let mut properties: Vec<(String, Json)> = Vec::new();
        properties.push(("next_id".to_owned(), text_parameter("Target conversation ID.")));
        properties.push(
            (
                "summary".to_owned(),
                text_parameter(
                    "Brief summary of the current conversation topic EXCLUDING the message triggers the switch, used to identify this session for future routing.",
                ),
            ),
        );
        let required: Vec<String> = Vec::new();
        proof {
            assert(views(required@) =~= Seq::empty());
            assert(member_views(properties@) =~= seq![
                ("next_id"@, text_parameter_schema("Target conversation ID."@)),
                (
                    "summary"@,
                    text_parameter_schema(
                        "Brief summary of the current conversation topic EXCLUDING the message triggers the switch, used to identify this session for future routing."@,
                    ),
                ),
            ]);
        }
        ToolDefinition {
            name: "session-mux-switch".to_owned(),
            description: "Switch to an existing conversation or create a new one. - For regular session must only provide summary to switch to router session. - For router sesion optionally omit next_id to auto-generate new session.".to_owned(),
            parameters: parameters(properties, &required),
        }
    }
}

/// A session made of sessions.
#[derive(Debug, PartialEq)]
pub struct MuxSession<S = InMemorySession> {
    pub active: Option<(String, S)>,
    pub router: S,
    pub pending: Vec<Message>,
    pub switching: bool,
}

impl<S: Session> View for MuxSession<S> {
    type V = MuxV;

    open spec fn view(&self) -> MuxV {
        MuxV {
            active: match self.active {
                Some((id, session)) => Some((id@, session.said())),
                None => None,
            },
            router: self.router.said(),
            pending: views(self.pending@),
            switching: self.switching,
        }
    }
}

/// The number of messages before the first one that is not the user's.
fn count_leading_users(messages: &Vec<Message>) -> (n: usize)
    ensures
        n <= messages@.len(),
        leading_users(views(messages@)) == views(messages@).take(n as int),
{
    let ghost all = views(messages@);
    let mut n: usize = 0;
    assert(all.skip(0) =~= all);
    assert(all.take(0) + leading_users(all) =~= leading_users(all));
    while n < messages.len() && messages[n].plays("user")
        invariant
            n <= messages@.len(),
            all == views(messages@),
            leading_users(all) == all.take(n as int) + leading_users(all.skip(n as int)),
        decreases messages@.len() - n,
    {
        proof {
            let rest = all.skip(n as int);
            assert(rest[0] == messages@[n as int]@);
            assert(rest.skip(1) =~= all.skip(n + 1));
            assert(all.take(n as int) + (seq![rest[0]] + leading_users(all.skip(n + 1)))
                =~= all.take(n + 1) + leading_users(all.skip(n + 1)));
        }
        n += 1;
    }
    proof {
        let rest = all.skip(n as int);
        if n < messages@.len() {
            assert(rest[0] == messages@[n as int]@);
        }
        assert(leading_users(rest) =~= Seq::empty());
        assert(leading_users(all) =~= all.take(n as int));
    }
    n
}

impl MuxSession {
    /// An id that no topic has yet.
    pub fn fresh_id() -> (r: String)
        ensures
            r@.len() == 36,
    {
        fresh_id()
    }

    /// What the tool returns where a topic is to be left without a summary.
    pub fn refuse() -> (r: ToolResult)
        ensures
            r@ == text_result("summary is required when switching to router session."@, true),
    {
        ToolResult::text("summary is required when switching to router session.".to_owned(), true)
    }
}

impl<S: Session> MuxSession<S> {
    /// Whether the session of the topic refuses no message.
    pub open spec fn topic_willing(self) -> bool {
        self.active matches Some((_, session)) ==> session.willing()
    }

    /// A session over the router session, talking about a topic, given what was said of it, or
    /// why it cannot be loaded.
    pub fn new(router: S, id: &str, loaded: Result<S, String>) -> (r: Result<
        MuxSession<S>,
        SessionError,
    >)
        ensures
            match (loaded, r) {
                (Ok(session), Ok(mux)) => mux@ == (MuxV {
                    active: None,
                    router: router.said(),
                    pending: Seq::empty(),
                    switching: false,
                }).switched(id@, session.said()),
                (Err(why), Err(e)) => e@ == why@,
                _ => false,
            },
    {
        let mut mux = MuxSession { active: None, router, pending: Vec::new(), switching: false };
        assert(mux@.pending =~= Seq::empty());
        match mux.switch(id, loaded) {
            Ok(_) => Ok(mux),
            Err(e) => Err(e),
        }
    }

    /// Takes in what is said.
    pub fn append(&mut self, message: Message) -> (r: Result<(), SessionError>)
        ensures
            r is Ok,
            final(self)@ == old(self)@.said(message@),
            final(self).active == old(self).active,
            final(self).router == old(self).router,
    {
        let ghost before = self@;
        let ghost shown = message@;
        self.pending.push(message);
        assert(self@.pending =~= before.pending.push(shown));
        Ok(())
    }

    /// What the model sees.
    pub fn messages(&self) -> (r: Vec<Message>)
        ensures
            views(r@) == self@.messages(),
    {
        match &self.active {
            Some(active) => {
                let mut out = copy_messages(active.1.messages());
                let ghost history = views(out@);
                let mut rest = copy_messages(&self.pending);
                let ghost more = views(rest@);
                out.append(&mut rest);
                assert(views(out@) =~= history + more);
                out
            },
            None => {
                let n: usize = count_leading_users(&self.pending);
                let mut out = copy_messages(self.router.messages());
                let ghost known = views(out@);
                let mut rest = crate::control::copy_range(&self.pending, 0, n);
                let ghost more = views(rest@);
                out.append(&mut rest);
                let prompt = Message::text("user", "LLM performance would be affected by unrelated messages in the context. Tool session-mux-switch is used for LLM to manage different topics.\n\nThis is a routing session to decide which existing session is more related to the latest user message. If no existing session is related, call the tool with empty id to create a new session.\n\nRouting session MUST immediately call session-mux-switch to select or create a session.".to_owned());
                let ghost asked = prompt@;
                out.push(prompt);
                proof {
                    assert(more =~= self@.pending.take(n as int));
                    assert(views(out@) =~= known + more + seq![asked]);
                }
                out
            },
        }
    }

    /// Files what is pending under the topic. Where its session refuses a message, that one and
    /// what follows it are dropped.
    pub fn flush(&mut self) -> (r: Result<(), SessionError>)
        requires
            old(self)@.active is Some,
        ensures
            match r {
                Ok(_) => final(self)@ == old(self)@.flushed(),
                Err(_) => !old(self).topic_willing() && exists|n: int|
                    0 <= n < old(self)@.pending.len() && final(self)@ == #[trigger] old(
                        self,
                    )@.filed(n),
            },
    {
        let ghost before = self@;
        let ghost all = before.pending;
        let ghost willing = self.topic_willing();
        let mut pending: Vec<Message> = Vec::new();
        core::mem::swap(&mut self.pending, &mut pending);
        assert(views(self.pending@) =~= Seq::empty());
        let mut active: Option<(String, S)> = None;
        core::mem::swap(&mut self.active, &mut active);
        match active {
            Some((id, session)) => {
                let mut session = session;
                let mut refused: Option<SessionError> = None;
                let mut i: usize = 0;
                let ghost history = session.said();
                assert(history + all.take(0) =~= history);
                while i < pending.len() && refused.is_none()
                    invariant
                        i <= pending@.len(),
                        all == views(pending@),
                        session.said() == history + all.take(i as int),
                        refused is None ==> (willing ==> session.willing()),
                        refused is Some ==> i < pending@.len() && !willing,
                    decreases
                            pending@.len() - i,
                            (if refused is None {
                                1int
                            } else {
                                0int
                            }),
                {
                    match session.append(pending[i].clone()) {
                        Ok(_) => {
                            assert((history + all.take(i as int)).push(all[i as int])
                                =~= history + all.take(i + 1));
                            i += 1;
                        },
                        Err(e) => {
                            refused = Some(e);
                        },
                    }
                }
                self.active = Some((id, session));
                assert(self@ =~= before.filed(i as int));
                match refused {
                    Some(e) => Err(e),
                    None => Ok(()),
                }
            },
            None => Ok(()),
        }
    }

    /// Talks about a topic from now on, given what was said of it, or why it cannot be loaded.
    pub fn switch(&mut self, id: &str, loaded: Result<S, String>) -> (r: Result<(), SessionError>)
        ensures
            match (loaded, r) {
                (Ok(session), Ok(_)) => final(self)@ == old(self)@.switched(id@, session.said())
                    && final(self).topic_willing() == session.willing(),
                (Err(why), Err(e)) => e@ == why@ && final(self)@ == old(self)@,
                _ => false,
            },
    {
        match loaded {
            Ok(session) => {
                self.active = Some((id.to_owned(), session));
                self.switching = true;
                Ok(())
            },
            Err(why) => Err(SessionError::Failed { message: why }),
        }
    }

    /// Keeps only the user's words pending, up to the first that is not theirs.
    pub fn truncate_pending(&mut self)
        ensures
            final(self)@ == old(self)@.truncated(),
            final(self).active == old(self).active,
    {
        let ghost before = self@;
        let n: usize = count_leading_users(&self.pending);
        self.pending.truncate(n);
        assert(self@.pending =~= before.pending.take(n as int));
    }

    /// What a call of the switch tool asks for: a topic is left with a summary, and the router
    /// session picks one by its id or asks for a new one.
    pub fn plan(&self, params: &Json) -> (r: SwitchPlan)
        ensures
            match r {
                SwitchPlan::Refuse => self@.active is Some && nonempty_at(
                    params@,
                    "summary"@,
                ) is None,
                SwitchPlan::Leave { summary } => self@.active is Some && nonempty_at(
                    params@,
                    "summary"@,
                ) == Some(summary@),
                SwitchPlan::Enter { id } => self@.active is None && match nonempty_at(
                    params@,
                    "next_id"@,
                ) {
                    Some(asked) => id@ == asked,
                    None => id@.len() == 36,
                },
            },
    {
        match &self.active {
            Some(_) => match text_member(params, "summary") {
                Some(summary) => SwitchPlan::Leave { summary },
                None => SwitchPlan::Refuse,
            },
            None => match text_member(params, "next_id") {
                Some(id) => SwitchPlan::Enter { id },
                None => SwitchPlan::Enter { id: fresh_id() },
            },
        }
    }

    /// Leaves the topic for the router session, which is told its id and summary. Where the
    /// router session refuses to be told, the topic is not left.
    pub fn leave(&mut self, summary: &str) -> (r: Result<ToolResult, ToolError>)
        requires
            old(self)@.active is Some,
        ensures
            match r {
                Ok(result) => final(self)@ == old(self)@.left(summary@) && result@ == text_result(
                    "id: "@ + (old(self)@.active->0).0,
                    false,
                ),
                Err(e) => {
                    &&& final(self)@ == old(self)@
                    &&& !old(self).router.willing()
                    &&& exists|why: Seq<char>| e@ == #[trigger] leave_failure(why)
                },
            },
    {
        let ghost before = self@;
        let id = match &self.active {
            Some(active) => active.0.clone(),
            None => String::new(),
        };
        let shown = concat2("id: ", id.as_str());
        let mut content: Vec<ContentBlock> = Vec::new();
        content.push(ContentBlock::Text(TextContent { content: shown.clone() }));
        content.push(
            ContentBlock::Text(TextContent { content: concat2("summary: ", summary) }),
        );
        let record = Message { role: "user".to_owned(), content };
        proof {
            assert(id@ == (before.active->0).0);
            assert(record@.content =~= topic_record(id@, summary@).content);
        }
        match self.router.append(record) {
            Ok(_) => {
                self.active = None;
                assert(self@ =~= before.left(summary@));
                Ok(ToolResult::text(shown, false))
            },
            Err(e) => {
                assert(self@ =~= before);
                let failed = ToolError::Execution(e.words());
                assert(failed@ == leave_failure(e@));
                Err(failed)
            },
        }
    }

    /// Enters a topic, given what was said of it, or why it cannot be loaded.
    pub fn enter(&mut self, id: &str, loaded: Result<S, String>) -> (r: Result<
        ToolResult,
        ToolError,
    >)
        ensures
            match (loaded, r) {
                (Ok(session), Ok(result)) => final(self)@ == old(self)@.switched(
                    id@,
                    session.said(),
                ) && result@ == text_result("switched to session '"@ + id@ + "'."@, false),
                (Err(why), Err(e)) => final(self)@ == old(self)@ && e@ == ToolErrorV::Execution(
                    "session error: "@ + why@,
                ),
                _ => false,
            },
    {
        match self.switch(id, loaded) {
            Ok(_) => Ok(ToolResult::text(concat3("switched to session '", id, "'."), false)),
            Err(e) => Err(ToolError::Execution(e.words())),
        }
    }

    /// What the model is about to see: a switch takes effect now.
    pub fn on_message_start(&mut self, messages: Vec<Message>) -> (r: Vec<Message>)
        ensures
            old(self)@.switching ==> final(self)@ == old(self)@.settled() && views(r@) == final(
                self)@.messages(),
            !old(self)@.switching ==> final(self)@ == old(self)@ && views(r@) == views(messages@),
    {
        if self.switching {
            self.switching = false;
            self.truncate_pending();
            self.messages()
        } else {
            messages
        }
    }

    /// The turn is over: what is pending is filed. Where the router session picked no topic, it
    /// is filed under the fallback, without what the router session said.
    pub fn on_turn_end(&mut self, fallback: Option<(String, Result<S, String>)>) -> (r: Result<
        (),
        ExtensionError,
    >)
        requires
            old(self)@.active is None ==> fallback is Some,
        ensures
            match (old(self)@.active, fallback) {
                (None, Some((id, Ok(session)))) => filed_at_end(
                    old(self)@.switched(id@, session.said()).truncated(),
                    session.willing(),
                    final(self)@,
                    r,
                ),
                (None, Some((id, Err(why)))) => {
                    &&& final(self)@ == old(self)@
                    &&& r matches Err(e)
                    &&& e@ == (ExtensionErrorV::ExtensionFailed {
                        name: "session/mux"@,
                        message: "session error: "@ + why@,
                    })
                },
                _ => filed_at_end(
                    old(self)@,
                    old(self).topic_willing(),
                    final(self)@,
                    r,
                ),
            },
    {
        if self.active.is_none() {
            match fallback {
                Some((id, loaded)) => {
                    match self.switch(id.as_str(), loaded) {
                        Ok(_) => {},
                        Err(e) => {
                            let message = e.words();
                            return Err(ExtensionError::failed("session/mux", message.as_str()));
                        },
                    }
                    self.truncate_pending();
                },
                None => {},
            }
        }
        let ghost ready = self@;
        match self.flush() {
            Ok(_) => Ok(()),
            Err(e) => {
                let message = e.words();
                let failed = ExtensionError::failed("session/mux", message.as_str());
                assert(failed@ == flush_failure(e@));
                Err(failed)
            },
        }
    }
}

/// What is said where the router session refuses to be told of a topic.
pub open spec fn leave_failure(why: Seq<char>) -> ToolErrorV {
    ToolErrorV::Execution("session error: "@ + why)
}

/// What is said where the session of the topic refuses what is to be filed.
pub open spec fn flush_failure(why: Seq<char>) -> ExtensionErrorV {
    ExtensionErrorV::ExtensionFailed {
        name: "session/mux"@,
        message: "session error: "@ + why,
    }
}

/// How a turn ends: what is pending is filed, all of it where the session of the topic is
/// willing, or else it may be up to a message that it refuses.
pub open spec fn filed_at_end(
    before: MuxV,
    willing: bool,
    after: MuxV,
    r: Result<(), ExtensionError>,
) -> bool {
    match r {
        Ok(_) => after == before.flushed(),
        Err(e) => {
            &&& !willing
            &&& exists|n: int| 0 <= n < before.pending.len() && after == #[trigger] before.filed(n)
            &&& exists|why: Seq<char>| e@ == #[trigger] flush_failure(why)
        },
    }
}

/// The user's leading words are a head of what was said, and all the user's.
pub proof fn law_leading_users(messages: Seq<MessageV>)
    ensures
        leading_users(messages).len() <= messages.len(),
        leading_users(messages) == messages.take(leading_users(messages).len() as int),
        forall|i: int|
            0 <= i < leading_users(messages).len() ==> (#[trigger] leading_users(
                messages,
            )[i]).role == "user"@,
        leading_users(messages).len() < messages.len() ==> messages[leading_users(
            messages,
        ).len() as int].role != "user"@,
    decreases messages.len(),
{
    if messages.len() > 0 && messages[0].role == "user"@ {
        let rest = messages.skip(1);
        law_leading_users(rest);
        let n = leading_users(rest).len() as int;
        let all = seq![messages[0]] + leading_users(rest);
        assert(leading_users(messages) == all);
        assert(all =~= messages.take(n + 1));
        assert forall|i: int| 0 <= i < all.len() implies (#[trigger] all[i]).role == "user"@ by {
            if i > 0 {
                assert(all[i] == leading_users(rest)[i - 1]);
            }
        }
        if n < rest.len() {
            assert(rest[n] == messages[n + 1]);
        }
    } else {
        assert(leading_users(messages) =~= messages.take(0));
    }
}

/// Filing what is pending changes nothing of what the model sees.
pub proof fn law_flush_keeps_the_view(mux: MuxV)
    requires
        mux.active is Some,
    ensures
        mux.flushed().messages() == mux.messages(),
        mux.flushed().pending == Seq::<MessageV>::empty(),
{
    assert(mux.pending.take(mux.pending.len() as int) =~= mux.pending);
    assert(mux.flushed().messages() =~= mux.messages());
}

/// A topic that is entered inherits nothing but the user's words: once the switch takes
/// effect, what the model sees behind the topic's history is the user's alone.
pub proof fn law_nothing_leaks_into_the_new_topic(
    mux: MuxV,
    id: Seq<char>,
    history: Seq<MessageV>,
    i: int,
)
    requires
        history.len() <= i < mux.switched(id, history).settled().messages().len(),
    ensures
        mux.switched(id, history).settled().messages()[i].role == "user"@,
        mux.switched(id, history).settled().messages().take(history.len() as int) == history,
{
    law_leading_users(mux.pending);
    let seen = mux.switched(id, history).settled().messages();
    assert(seen[i] == leading_users(mux.pending)[i - history.len()]);
    assert(seen.take(history.len() as int) =~= history);
}

/// Switching touches neither what is pending nor what the router session knows.
pub proof fn law_switch_only_binds(mux: MuxV, id: Seq<char>, history: Seq<MessageV>)
    ensures
        mux.switched(id, history).pending == mux.pending,
        mux.switched(id, history).router == mux.router,
        mux.switched(id, history).switching,
{
}

/// The topic that the router session's record names.
pub open spec fn recorded_id(record: MessageV) -> Option<Seq<char>> {
    if record.content.len() == 0 {
        None
    } else {
        match record.content[0] {
            BlockV::Text(line) => if line.len() >= 4 && line.take(4) == "id: "@ {
                Some(line.skip(4))
            } else {
                None
            },
            _ => None,
        }
    }
}

/// A record says which topic it is about and what the topic is about, as words of the user: the
/// id that is read from it is the one that it was written for, so that records of two topics
/// differ.
pub proof fn law_topic_records_name_their_topic(
    id: Seq<char>,
    summary: Seq<char>,
    other: Seq<char>,
    other_summary: Seq<char>,
)
    ensures
        recorded_id(topic_record(id, summary)) == Some(id),
        blocks_text(topic_record(id, summary).content) == "id: "@ + id + "summary: "@ + summary,
        topic_record(id, summary).role == "user"@,
        id != other ==> topic_record(id, summary) != topic_record(other, other_summary),
{
    reveal_strlit("id: ");
    assert("id: "@.len() == 4);
    let one = BlockV::Text("id: "@ + id);
    let two = BlockV::Text("summary: "@ + summary);
    assert(("id: "@ + id).take(4) =~= "id: "@);
    assert(("id: "@ + id).skip(4) =~= id);
    assert(("id: "@ + other).skip(4) =~= other);
    law_text_is_read_in_order(Seq::empty(), one);
    law_text_is_read_in_order(Seq::empty().push(one), two);
    assert(topic_record(id, summary).content =~= Seq::<BlockV>::empty().push(one).push(two));
    assert(blocks_text(topic_record(id, summary).content) =~= "id: "@ + id + "summary: "@
        + summary);
    if id != other && topic_record(id, summary) == topic_record(other, other_summary) {
        assert(topic_record(id, summary).content[0] == topic_record(
            other,
            other_summary,
        ).content[0]);
    }
}

/// Leaving a topic tells the router session of it, under its own id and behind what the router
/// session knew; what is pending stays, and no topic is talked about.
pub proof fn law_leaving_tells_the_router(
    mux: MuxV,
    id: Seq<char>,
    history: Seq<MessageV>,
    summary: Seq<char>,
)
    requires
        mux.active == Some((id, history)),
    ensures
        mux.left(summary).router.drop_last() == mux.router,
        recorded_id(mux.left(summary).router.last()) == Some(id),
        blocks_text(mux.left(summary).router.last().content) == "id: "@ + id + "summary: "@
            + summary,
        mux.left(summary).active is None,
        mux.left(summary).pending == mux.pending,
        mux.left(summary).switching == mux.switching,
        mux.left(summary).messages().take(mux.router.len() as int + 1) == mux.left(summary).router,
{
    law_topic_records_name_their_topic(id, summary, id, summary);
    assert(mux.left(summary).router.drop_last() =~= mux.router);
    assert(mux.left(summary).messages().take(mux.router.len() as int + 1) =~= mux.left(summary).router);
}

/// In a topic the model sees what was said of it and behind that what is pending, and nothing of
/// the router session. In the router session it sees what that knows, the user's leading words,
/// and last the request to decide.
pub proof fn law_what_is_seen(mux: MuxV)
    ensures
        mux.active matches Some((_, history)) ==> {
            &&& mux.messages().len() == history.len() + mux.pending.len()
            &&& mux.messages().take(history.len() as int) == history
            &&& mux.messages().skip(history.len() as int) == mux.pending
        },
        mux.active is None ==> {
            let seen = mux.messages();
            let known = mux.router.len() as int;
            &&& seen.take(known) == mux.router
            &&& seen.subrange(known, seen.len() - 1) == leading_users(mux.pending)
            &&& blocks_text(seen.last().content) == router_prompt()
            &&& seen.last().role == "user"@
        },
{
    law_texts_are_read_back("user"@, router_prompt(), false);
    match mux.active {
        Some((_, history)) => {
            assert(mux.messages().take(history.len() as int) =~= history);
            assert(mux.messages().skip(history.len() as int) =~= mux.pending);
        },
        None => {
            let seen = mux.messages();
            let known = mux.router.len() as int;
            assert(seen.take(known) =~= mux.router);
            assert(seen.subrange(known, seen.len() - 1) =~= leading_users(mux.pending));
        },
    }
}

/// What is said is pending, behind what was, until it is filed: in a topic it is what the model
/// sees last.
pub proof fn law_what_is_said_is_pending(mux: MuxV, message: MessageV)
    ensures
        mux.said(message).pending.last() == message,
        mux.said(message).pending.drop_last() == mux.pending,
        mux.said(message).active == mux.active,
        mux.said(message).router == mux.router,
        mux.said(message).switching == mux.switching,
        mux.active is Some ==> mux.said(message).messages() == mux.messages().push(message),
{
    assert(mux.said(message).pending.drop_last() =~= mux.pending);
    if mux.active is Some {
        assert(mux.said(message).messages() =~= mux.messages().push(message));
    }
}

/// What is filed stands behind what was said of the topic, in order; nothing is pending then. Of
/// what is not filed nothing is kept, and without a topic nothing is filed.
pub proof fn law_filing_is_in_order(mux: MuxV, n: int, i: int)
    requires
        0 <= n <= mux.pending.len(),
    ensures
        mux.active matches Some((id, history)) ==> {
            &&& mux.filed(n).active matches Some((same_id, now))
            &&& same_id == id
            &&& now.len() == history.len() + n
            &&& 0 <= i < history.len() ==> now[i] == history[i]
            &&& 0 <= i < n ==> now[history.len() + i] == mux.pending[i]
            &&& mux.filed(n).pending.len() == 0
            &&& mux.filed(n).router == mux.router
            &&& mux.filed(n).switching == mux.switching
            &&& mux.flushed() == mux.filed(mux.pending.len() as int)
        },
        mux.active is None ==> mux.filed(n) == mux && mux.flushed() == mux,
{
}

/// Once a switch takes effect only the user's leading words are pending, and the topic is the one
/// that was switched to.
pub proof fn law_switches_settle(mux: MuxV, id: Seq<char>, history: Seq<MessageV>)
    ensures
        mux.settled().pending == leading_users(mux.pending),
        !mux.settled().switching,
        mux.settled().active == mux.active,
        mux.settled().router == mux.router,
        mux.truncated().pending == leading_users(mux.pending),
        mux.truncated().active == mux.active,
        mux.truncated().router == mux.router,
        mux.truncated().switching == mux.switching,
        mux.switched(id, history).active == Some((id, history)),
{
}

/// The switch tool takes a topic and a summary as texts, and asks for neither.
pub proof fn law_the_switch_tool_is_declared()
    ensures
        MuxSwitchTool::declared().name == "session-mux-switch"@,
        ({
            &&& MuxSwitchTool::declared().parameters.get("properties"@) matches Some(p)
            &&& p.get("next_id"@) matches Some(id)
            &&& id.get("type"@) == Some(JsonV::Str("string"@))
            &&& p.get("summary"@) matches Some(summary)
            &&& summary.get("type"@) == Some(JsonV::Str("string"@))
        }),
        MuxSwitchTool::declared().parameters.get("required"@) is None,
        MuxSwitchTool::declared().parameters.get("type"@) == Some(JsonV::Str("object"@)),
{
    let summary =
        "Brief summary of the current conversation topic EXCLUDING the message triggers the switch, used to identify this session for future routing."@;
    let target = "Target conversation ID."@;
    let properties = seq![
        ("next_id"@, text_parameter_schema(target)),
        ("summary"@, text_parameter_schema(summary)),
    ];
    law_text_parameters_declare_texts(target);
    law_text_parameters_declare_texts(summary);
    law_parameters_declare_an_object(properties, Seq::empty());
    reveal_strlit("next_id");
    reveal_strlit("summary");
    assert("next_id"@.len() == 7);
    assert("summary"@.len() == 7);
    assert("next_id"@[0] == 'n');
    assert("summary"@[0] == 's');
    law_first_member_is_found(properties, "next_id"@, 0);
    law_first_member_is_found(properties, "summary"@, 1);
}

/// A text counts where it says something.
pub proof fn law_empty_texts_do_not_count(params: JsonV, key: Seq<char>, text: Seq<char>)
    ensures
        params.get(key) == Some(JsonV::Str(text)) && text.len() > 0 <==> nonempty_at(params, key)
            == Some(text),
{
}

/// What a session refuses is told with the reason.
pub proof fn law_refusals_tell_the_reason(why: Seq<char>)
    ensures
        leave_failure(why) matches ToolErrorV::Execution(m) && ends_with(m, why),
        flush_failure(why) matches ExtensionErrorV::ExtensionFailed { name, message } && ends_with(
            message,
            why,
        ) && name == "session/mux"@,
{
    lemma_ends_with("session error: "@, why);
}

} // verus!
