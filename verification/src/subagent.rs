//! Subagents: tools that are agents themselves.
//!
//! A call forks the main session and runs an agent in the fork, behind a stop, so that it sees
//! nothing of what was said before. The agent gives its result back through a tool of its own.
//! The caller gets the fork's id with the result and can go on in the same fork.
use vstd::prelude::*;

use crate::agent::{AgentError, AgentErrorV};
use crate::combinator::And;
use crate::control::{
    fold_kind, is_control, law_stop_drops_history, law_stop_hides_what_precedes, lemma_markers,
    rendered, stop_marker, stop_message, ControlExtension,
};
use crate::extensions::{
    Extension, ExtensionError, ExtensionErrorV, HookCall, HookCallV, HookReturn, HookReturnV,
};
use crate::forks::{AdapterV, SessionManager};
use crate::json::{
    json_text, law_first_member_is_found, law_get_after_with, law_get_after_without, member_views,
    object, write_json, Json, JsonV,
};
use crate::names::lookup;
use crate::params::{parameters, parameters_schema, text_parameter, text_parameter_schema};
use crate::schema::SchemaVerification;
use crate::session::SessionError;
use crate::text::{concat2, ends_with, lemma_ends_with, opt_view, views};
use crate::tools::{with_tool, ToolError, ToolErrorV, ToolRegistry, ToolSpec, ToolSpecV};
use crate::types::{
    law_texts_are_read_back, parts_text, text_result, BlockV, ContentBlock, Message, MessageV,
    ToolDefinition, ToolDefinitionV, ToolResult, ToolResultV,
};

verus! {

/// The name of the tool through which every subagent gives its result back.
pub const YIELD_TOOL: &'static str = "akasha_subagent_yield";

/// The parameter that names the fork to go on in.
pub open spec fn session_key() -> Seq<char> {
    "session_id"@
}

/// The tools of a registry, as contracts see them.
pub type PoolV = Seq<ToolSpecV>;

/// What a run is told first, or why there is nothing to tell it, as contracts see it.
pub type SeedV = Result<Seq<BlockV>, ToolErrorV>;

/// What a subagent is: what it declares, what it may use and how a run of it starts.
///
/// `declared`, `shapes`, `pool` and `seeded` say what its functions return; nothing runs them, so
/// that a subagent written outside Verus may leave them unreachable.
///
/// A subagent without a schema of its own returns [`plain_schema`] of its definition, and one
/// without tools [`ToolRegistry::new`].
pub trait Subagent: Sized {
    /// What a model is told of the subagent.
    spec fn declared(&self) -> ToolDefinitionV;

    /// The schema of what the subagent is given, and that of its result where it has one.
    spec fn shapes(&self) -> (JsonV, Option<JsonV>);

    /// The tools that the subagent may use.
    spec fn pool(&self) -> PoolV;

    /// What a run is told first; `resume` says that it goes on in a fork.
    spec fn seeded(&self, params: JsonV, resume: bool) -> SeedV;

    /// What a model is told of the subagent.
    fn definition(&self) -> (r: ToolDefinition)
        ensures
            r@ == self.declared(),
    ;

    /// The schema of what the subagent is given, and that of its result where it has one.
    fn schema(&self) -> (r: (Json, Option<Json>))
        ensures
            (r.0@, opt_view(r.1)) == self.shapes(),
    ;

    /// The tools that the subagent may use.
    fn tools(&self) -> (r: ToolRegistry)
        ensures
            r@ == self.pool(),
    ;

    /// What a run is told first; `resume` says that it goes on in a fork.
    fn seed(&self, params: &Json, resume: bool) -> (r: Result<Vec<ContentBlock>, ToolError>)
        ensures
            match r {
                Ok(blocks) => self.seeded(params@, resume) == Ok::<Seq<BlockV>, ToolErrorV>(
                    views(blocks@),
                ),
                Err(e) => self.seeded(params@, resume) == Err::<Seq<BlockV>, ToolErrorV>(e@),
            },
    ;
}

/// The schemas of a subagent that has none of its own: it is given what it declares, and its
/// result is free.
pub fn plain_schema(definition: &ToolDefinition) -> (r: (Json, Option<Json>))
    ensures
        r.0@ == definition@.parameters,
        r.1 is None,
{
    (definition.parameters.clone(), None)
}

/// The schema with the parameter that names the fork to go on in. Only objects have
/// parameters.
pub open spec fn session_schema(params: JsonV) -> JsonV {
    let field = text_parameter_schema(
        "Echo the session_id from a prior result to resume that subagent thread; omit to spawn a fresh one."@,
    );
    match params.get("properties"@) {
        Some(JsonV::Object(properties)) => params.with(
            "properties"@,
            JsonV::Object(properties).with(session_key(), field),
        ),
        Some(_) => params,
        None => params.with("properties"@, JsonV::Object(seq![(session_key(), field)])),
    }
}

/// The schema with the parameter that names the fork to go on in.
pub fn with_session_id(params: Json) -> (r: Json)
    ensures
        r@ == session_schema(params@),
{
    let field = text_parameter(
        "Echo the session_id from a prior result to resume that subagent thread; omit to spawn a fresh one.",
    );
    let known = match params.get("properties") {
        Some(properties) => Some(properties.clone()),
        None => None,
    };
    match known {
        Some(properties) => {
            if properties.is_object() {
                params.with("properties", properties.with("session_id", field))
            } else {
                params
            }
        },
        None => {
            let mut members: Vec<(String, Json)> = Vec::new();
            let ghost shown = field@;
            members.push(("session_id".to_owned(), field));
            assert(member_views(members@) =~= seq![(session_key(), shown)]);
            params.with("properties", object(members))
        },
    }
}

/// The parameter that names the fork is declared, and every other member of the schema stays.
pub proof fn law_definition_declares_the_session(params: JsonV, other: Seq<char>)
    requires
        params is Object,
        params.get("properties"@) is None || params.get("properties"@)->0 is Object,
    ensures
        session_schema(params).get("properties"@) is Some,
        session_schema(params).get("properties"@)->0.get(session_key()) is Some,
        other != "properties"@ ==> session_schema(params).get(other) == params.get(other),
{
    let field = text_parameter_schema(
        "Echo the session_id from a prior result to resume that subagent thread; omit to spawn a fresh one."@,
    );
    match params.get("properties"@) {
        Some(JsonV::Object(properties)) => {
            let after = JsonV::Object(properties).with(session_key(), field);
            law_get_after_with(JsonV::Object(properties), session_key(), field, other);
            law_get_after_with(params, "properties"@, after, other);
        },
        Some(_) => {},
        None => {
            let after = JsonV::Object(seq![(session_key(), field)]);
            crate::json::lemma_position_is(seq![(session_key(), field)], session_key(), 0);
            law_get_after_with(params, "properties"@, after, other);
        },
    }
}

/// The result of a subagent that declares no shape for it: one text.
pub open spec fn free_text_result() -> JsonV {
    parameters_schema(
        seq![("result"@, text_parameter_schema("The subagent's result, as free text."@))],
        seq!["result"@],
    )
}

/// The result of a subagent that declares no shape for it: one text.
pub fn default_yield_schema() -> (r: Json)
    ensures
        r@ == free_text_result(),
{
    let mut properties: Vec<(String, Json)> = Vec::new();
    properties.push(("result".to_owned(), text_parameter("The subagent's result, as free text.")));
    let mut required: Vec<String> = Vec::new();
    required.push("result".to_owned());
    proof {
        assert(views(required@) =~= seq!["result"@]);
        assert(member_views(properties@) =~= seq![
            ("result"@, text_parameter_schema("The subagent's result, as free text."@)),
        ]);
    }
    parameters(properties, &required)
}

/// The tool through which a subagent gives its result back.
pub struct YieldTool;

impl YieldTool {
    /// The tool, whose parameters are the result.
    pub open spec fn declared(schema: JsonV) -> ToolSpecV {
        ToolSpecV {
            definition: ToolDefinitionV {
                name: YIELD_TOOL@,
                description:
                    "Yield this subagent's result back to the parent agent. Call exactly once with the result object as the arguments (conforming to the tool's parameter schema)."@,
                parameters: schema,
            },
            output: None,
        }
    }

    /// The tool, whose parameters are the result.
    pub fn new(schema: Json) -> (r: ToolSpec)
        ensures
            r@ == YieldTool::declared(schema@),
    {
        ToolSpec {
            definition: ToolDefinition {
                name: YIELD_TOOL.to_owned(),
                description: "Yield this subagent's result back to the parent agent. Call exactly once with the result object as the arguments (conforming to the tool's parameter schema).".to_owned(),
                parameters: schema,
            },
            output: None,
        }
    }

    /// Keeps the result in the slot, unless one stands there, and confirms.
    pub fn execute(slot: &mut Option<Json>, params: Json) -> (r: ToolResult)
        ensures
            opt_view(*final(slot)) == yielded_after(opt_view(*old(slot)), params@),
            r@ == text_result("yielded"@, false),
    {
        if slot.is_none() {
            *slot = Some(params);
        }
        ToolResult::text("yielded".to_owned(), false)
    }
}

/// What a slot holds once the yield tool was called: the first result stays.
pub open spec fn yielded_after(slot: Option<JsonV>, params: JsonV) -> Option<JsonV> {
    if slot is Some {
        slot
    } else {
        Some(params)
    }
}

/// Ends a subagent's run before its next call of the model, once it has given its result.
#[derive(Debug, PartialEq)]
pub struct AbortOnYield {
    pub yielded: Option<Json>,
}

/// What the extension answers.
pub open spec fn abort_answer(yielded: Option<JsonV>, call: HookCallV) -> HookReturnV {
    match call {
        HookCallV::MessageStart(_) if yielded is Some => HookReturnV::Messages(
            Err(
                ExtensionErrorV::Stopped {
                    name: "subagent/abort-on-yield"@,
                    message: "subagent yielded; aborting remaining turns"@,
                },
            ),
        ),
        other => other.unchanged(),
    }
}

impl Extension for AbortOnYield {
    open spec fn steps(pre: Self, call: HookCallV, post: Self, ret: HookReturnV) -> bool {
        post == pre && ret == abort_answer(opt_view(pre.yielded), call)
    }

    open spec fn called(&self) -> Seq<char> {
        "subagent/abort-on-yield"@
    }

    fn name(&self) -> String {
        "subagent/abort-on-yield".to_owned()
    }

    fn handle(&mut self, call: HookCall) -> (ret: HookReturn) {
        match call {
            HookCall::MessageStart(messages) => if self.yielded.is_some() {
                HookReturn::Messages(
                    Err(
                        ExtensionError::stopped(
                            "subagent/abort-on-yield",
                            "subagent yielded; aborting remaining turns",
                        ),
                    ),
                )
            } else {
                HookReturn::Messages(Ok(messages))
            },
            other => other.unchanged(),
        }
    }
}

/// The first result counts: later calls change nothing, and the model is not called again.
pub proof fn law_first_yield_counts(
    slot: Option<JsonV>,
    params: JsonV,
    later: JsonV,
    messages: Seq<MessageV>,
)
    ensures
        yielded_after(slot, params) is Some,
        yielded_after(yielded_after(slot, params), later) == yielded_after(slot, params),
        abort_answer(
            yielded_after(slot, params),
            HookCallV::MessageStart(messages),
        ).is_error(),
        slot is None ==> yielded_after(slot, params) == Some(params),
{
}

/// What watches over a run: stops and folds are rendered, every call is held against its
/// schema, and the run ends once it has given its result back.
pub fn chain() -> (r: And<ControlExtension, And<SchemaVerification, AbortOnYield>>)
    ensures
        r.b.a@.schemas.len() == 0,
        r.b.a@.pending.len() == 0,
        r.b.b.yielded is None,
{
    And::new(
        ControlExtension::new(),
        And::new(SchemaVerification::new(), AbortOnYield { yielded: None }),
    )
}

/// What a failed fork is reported as.
pub open spec fn fork_failure(why: Seq<char>) -> ToolErrorV {
    ToolErrorV::Execution("failed to fork subagent session: "@ + ("session error: "@ + why))
}

/// What is reported where the stop could not be written.
pub open spec fn stop_failure(why: Seq<char>) -> ToolErrorV {
    ToolErrorV::Execution("session error: "@ + why)
}

/// The sessions once a fork for a run was taken, with a stop in it.
pub open spec fn spawned(sessions: AdapterV, id: Seq<char>) -> AdapterV {
    sessions.forked(id).said_in(id, stop_marker())
}

/// The fork in which a run takes place, whether it goes on there, and what becomes of the
/// sessions: the one that was asked for, untouched, where it is known; or else a fresh one.
pub open spec fn branch(
    sessions: AdapterV,
    asked: Option<Seq<char>>,
    known: bool,
    fresh: Seq<char>,
) -> (Seq<char>, bool, AdapterV) {
    if known {
        (asked->0, true, sessions)
    } else {
        (fresh, false, spawned(sessions, fresh))
    }
}

/// A run of a subagent that is about to start.
#[derive(Debug, PartialEq)]
pub struct SubagentRun {
    /// The fork in which it runs.
    pub id: String,
    /// It goes on in a fork of an earlier run.
    pub resume: bool,
    /// What it is told.
    pub prompt: Message,
    /// The tools that it has.
    pub tools: ToolRegistry,
}

/// Drives a subagent.
#[derive(Debug, PartialEq)]
pub struct SubagentTool<S> {
    pub subagent: S,
}

impl<S: Subagent> SubagentTool<S> {
    /// The tool that drives the subagent.
    pub fn new(subagent: S) -> (r: Self)
        ensures
            r.subagent == subagent,
    {
        SubagentTool { subagent }
    }

    /// What a model is told of the subagent.
    pub open spec fn declared(self) -> ToolDefinitionV {
        ToolDefinitionV {
            name: self.subagent.declared().name,
            description: self.subagent.declared().description,
            parameters: session_schema(self.subagent.declared().parameters),
        }
    }

    /// What a model is told of the subagent: what it declares, and the parameter that names the
    /// fork to go on in.
    pub fn definition(&self) -> (r: ToolDefinition)
        ensures
            r@ == self.declared(),
    {
        let own = self.subagent.definition();
        ToolDefinition {
            name: own.name,
            description: own.description,
            parameters: with_session_id(own.parameters),
        }
    }

    /// The fork that a call names.
    pub fn asked_session(params: &Json) -> (r: Option<String>)
        ensures
            opt_view(r) == params@.text_at(session_key()),
    {
        params.text_at("session_id")
    }

    /// What a failed fork is reported as.
    pub fn fork_failed(e: &SessionError) -> (r: ToolError)
        ensures
            r@ == fork_failure(e@),
    {
        ToolError::Execution(concat2("failed to fork subagent session: ", e.words().as_str()))
    }

    /// What a run is told: what the subagent makes of the call, without the parameter that is
    /// not its own.
    pub open spec fn prompted(self, params: JsonV, resume: bool) -> Result<MessageV, ToolErrorV> {
        match self.subagent.seeded(params.without(session_key()), resume) {
            Ok(blocks) => Ok(MessageV { role: "user"@, content: blocks }),
            Err(e) => Err(e),
        }
    }

    /// What a run is told.
    pub fn prompt(&self, params: Json, resume: bool) -> (r: Result<Message, ToolError>)
        ensures
            match r {
                Ok(m) => self.prompted(params@, resume) == Ok::<MessageV, ToolErrorV>(m@),
                Err(e) => self.prompted(params@, resume) == Err::<MessageV, ToolErrorV>(e@),
            },
    {
        let input = params.without("session_id");
        match self.subagent.seed(&input, resume) {
            Ok(content) => Ok(Message { role: "user".to_owned(), content }),
            Err(e) => Err(e),
        }
    }

    /// The tools of a run: those of the subagent, and the one that gives the result back.
    pub open spec fn equipped(self) -> Seq<ToolSpecV> {
        with_tool(
            self.subagent.pool(),
            YieldTool::declared(
                match self.subagent.shapes().1 {
                    Some(schema) => schema,
                    None => free_text_result(),
                },
            ),
        )
    }

    /// The tools of a run.
    pub fn tools(&self) -> (r: ToolRegistry)
        ensures
            r@ == self.equipped(),
    {
        let mut tools = self.subagent.tools();
        let schema = match self.subagent.schema().1 {
            Some(schema) => schema,
            None => default_yield_schema(),
        };
        tools.register(YieldTool::new(schema));
        tools
    }

    /// What is left of the sessions where no run could be spawned, and why: the fork failed, or
    /// the stop could not be written, or the subagent makes nothing of the call.
    pub open spec fn spawn_failed(
        self,
        before: AdapterV,
        after: AdapterV,
        params: JsonV,
        e: ToolErrorV,
    ) -> bool {
        ||| after == before && exists|why: Seq<char>| e == #[trigger] fork_failure(why)
        ||| exists|id: Seq<char>, why: Seq<char>|
            #![trigger before.forked(id), stop_failure(why)]
            after == before.forked(id) && e == stop_failure(why)
        ||| self.prompted(params, false) == Err::<MessageV, ToolErrorV>(e) && exists|id: Seq<char>|
            after == (#[trigger] spawned(before, id))
    }

    /// Prepares a run over the sessions: in the fork that the call names where it can be opened,
    /// or else in a fresh one, behind a stop.
    pub fn prepare<M: SessionManager>(&self, sessions: &mut M, params: Json) -> (r: Result<
        SubagentRun,
        ToolError,
    >)
        ensures
            ({
                let asked = params@.text_at(session_key());
                let known = asked is Some && old(sessions).opens(asked->0);
                match r {
                    Ok(run) => {
                        &&& (run.id@, run.resume, final(sessions).held()) == branch(
                            old(sessions).held(),
                            asked,
                            known,
                            run.id@,
                        )
                        &&& known ==> lookup(old(sessions).held().forks, run.id@) is Some
                        &&& self.prompted(params@, known) == Ok::<MessageV, ToolErrorV>(
                            run.prompt@,
                        )
                        &&& run.tools@ == self.equipped()
                    },
                    Err(e) => {
                        &&& known ==> final(sessions).held() == old(sessions).held()
                        &&& known || old(sessions).willing() ==> self.prompted(params@, known)
                            == Err::<MessageV, ToolErrorV>(e@)
                        &&& !known ==> self.spawn_failed(
                            old(sessions).held(),
                            final(sessions).held(),
                            params@,
                            e@,
                        )
                    },
                }
            }),
    {
        let ghost before = sessions.held();
        let asked = Self::asked_session(&params);
        let known = match &asked {
            Some(id) => sessions.get(id.as_str()).is_ok(),
            None => false,
        };
        let id = match asked {
            Some(id) if known => id,
            _ => match sessions.fork() {
                Ok(id) => {
                    proof {
                        crate::names::law_put(before.forks, id@, before.main, id@);
                    }
                    match sessions.append_to(id.as_str(), stop_message()) {
                        Ok(_) => id,
                        Err(e) => {
                            let shown = e.words();
                            assert(ToolErrorV::Execution(shown@) == stop_failure(e@));
                            return Err(ToolError::Execution(shown));
                        },
                    }
                },
                Err(e) => {
                    let failed = Self::fork_failed(&e);
                    assert(failed@ == fork_failure(e@));
                    return Err(failed);
                },
            },
        };
        assert(!known ==> sessions.held() == spawned(before, id@));
        match self.prompt(params, known) {
            Ok(prompt) => Ok(SubagentRun { id, resume: known, prompt, tools: self.tools() }),
            Err(e) => Err(e),
        }
    }

    /// What the caller is told: the result with the fork's id, or why there is none. A run that
    /// gave no result through the tool has failed, whatever it said.
    pub open spec fn reported(
        id: Seq<char>,
        yielded: Option<JsonV>,
        outcome: Result<(), AgentErrorV>,
    ) -> ToolResultV {
        match yielded {
            Some(value) => text_result(
                json_text(value.with(session_key(), JsonV::Str(id))),
                false,
            ),
            None => text_result(
                match outcome {
                    Ok(_) => "subagent ended without yielding a result"@,
                    Err(e) => e.words(),
                },
                true,
            ),
        }
    }

    /// What the caller is told.
    pub fn report(id: &str, yielded: Option<Json>, outcome: Result<(), AgentError>) -> (r:
        ToolResult)
        ensures
            r@ == Self::reported(
                id@,
                opt_view(yielded),
                match outcome {
                    Ok(_) => Ok(()),
                    Err(e) => Err(e@),
                },
            ),
    {
        match yielded {
            Some(value) => {
                let stamped = value.with("session_id", Json::Str(id.to_owned()));
                ToolResult::text(write_json(&stamped), false)
            },
            None => match outcome {
                Ok(_) => ToolResult::text(
                    "subagent ended without yielding a result".to_owned(),
                    true,
                ),
                Err(e) => ToolResult::text(e.words(), true),
            },
        }
    }
}

/// Registers a subagent as a tool.
pub fn register<S: Subagent>(registry: &mut ToolRegistry, subagent: S)
    ensures
        final(registry)@ == with_tool(
            old(registry)@,
            ToolSpecV {
                definition: SubagentTool { subagent }.declared(),
                output: None,
            },
        ),
{
    let tool = SubagentTool::new(subagent);
    registry.register(ToolSpec { definition: tool.definition(), output: None });
}

/// A result that is an object names the fork in which it was found, and is otherwise what the
/// subagent gave back.
pub proof fn law_result_names_its_session(value: JsonV, id: Seq<char>, other: Seq<char>)
    requires
        value is Object,
    ensures
        value.with(session_key(), JsonV::Str(id)).text_at(session_key()) == Some(id),
        other != session_key() ==> value.with(session_key(), JsonV::Str(id)).get(other)
            == value.get(other),
{
    law_get_after_with(value, session_key(), JsonV::Str(id), other);
}

/// A subagent that was spawned sees what it is told and what is said in its run, and nothing
/// of what was said before it: over whatever main session it was spawned, it sees the same, as
/// long as nothing is folded in its run. The fork still begins with the main session, and with
/// the stop behind it. One that goes on in its fork still sees its earlier run.
pub proof fn law_subagents_run_isolated(
    main: Seq<MessageV>,
    other: Seq<MessageV>,
    run: Seq<MessageV>,
)
    requires
        forall|i: int| 0 <= i < run.len() ==> (#[trigger] run[i]).custom(fold_kind()) is None,
    ensures
        rendered(main.push(stop_marker()) + run) == rendered(run),
        rendered(main.push(stop_marker()) + run) == rendered(other.push(stop_marker()) + run),
        main.push(stop_marker()).is_prefix_of(main.push(stop_marker()) + run),
        (forall|i: int| 0 <= i < run.len() ==> !is_control(#[trigger] run[i])) ==> rendered(
            main.push(stop_marker()) + run,
        ) == run,
{
    lemma_markers(0, 0, ""@, ""@);
    law_stop_hides_what_precedes(main, stop_marker(), run);
    law_stop_hides_what_precedes(other, stop_marker(), run);
    let fork = main.push(stop_marker()) + run;
    assert(main.push(stop_marker()) =~= fork.take(main.push(stop_marker()).len() as int));
    if forall|i: int| 0 <= i < run.len() ==> !is_control(#[trigger] run[i]) {
        law_stop_drops_history(main, stop_marker(), run);
    }
}

/// To echo the id that came with a result goes on in that fork: no stop is written, the
/// subagent is told that it goes on, and the result names the same fork again. An id that is
/// not known spawns a run in a fork of its own, whose id is none that was known, and touches no
/// fork that there was. Either way the subagent sees the call without the id.
pub proof fn law_resume_reopens_the_fork<S: Subagent>(
    tool: SubagentTool<S>,
    sessions: AdapterV,
    params: JsonV,
    fresh: Seq<char>,
    value: JsonV,
    other: Seq<char>,
)
    requires
        params is Object,
        value is Object,
        lookup(sessions.forks, fresh) is None,
        params.names_once(session_key()),
    ensures
        ({
            let asked = params.text_at(session_key());
            let known = asked is Some && lookup(sessions.forks, asked->0) is Some;
            let (id, resume, after) = branch(sessions, asked, known, fresh);
            let input = params.without(session_key());
            &&& resume == known
            &&& known ==> Some(id) == asked && after == sessions
            &&& !known ==> id == fresh && lookup(after.forks, id) == Some(
                sessions.main.push(stop_marker()),
            ) && after.main == sessions.main
            &&& !known && lookup(sessions.forks, other) is Some ==> id != other && lookup(
                after.forks,
                other,
            ) == lookup(sessions.forks, other)
            &&& input.get(session_key()) is None
            &&& tool.prompted(params, resume) == (match tool.subagent.seeded(input, resume) {
                Ok(blocks) => Ok::<MessageV, ToolErrorV>(
                    MessageV { role: "user"@, content: blocks },
                ),
                Err(e) => Err(e),
            })
            &&& SubagentTool::<S>::reported(id, Some(value), Ok(())) == text_result(
                json_text(value.with(session_key(), JsonV::Str(id))),
                false,
            )
            &&& value.with(session_key(), JsonV::Str(id)).text_at(session_key()) == Some(id)
        }),
{
    let asked = params.text_at(session_key());
    let known = asked is Some && lookup(sessions.forks, asked->0) is Some;
    let id = branch(sessions, asked, known, fresh).0;
    law_result_names_its_session(value, id, session_key());
    law_get_after_without(params, session_key(), session_key());
    crate::forks::law_forks_are_independent(sessions, fresh, other, stop_marker());
}

/// Spawning twice gives two branches: the fork of the one is not touched by the other, where
/// their ids differ, and the main session by neither.
pub proof fn law_spawns_are_apart(
    sessions: AdapterV,
    one: Seq<char>,
    other: Seq<char>,
    message: MessageV,
)
    requires
        one != other,
    ensures
        ({
            let first = sessions.forked(one).said_in(one, message);
            let second = first.forked(other).said_in(other, message);
            &&& lookup(second.forks, one) == lookup(first.forks, one)
            &&& lookup(second.forks, one) == Some(sessions.main.push(message))
            &&& second.main == sessions.main
        }),
{
    let first = sessions.forked(one).said_in(one, message);
    crate::forks::law_forks_are_independent(sessions, one, other, message);
    crate::forks::law_forks_are_independent(first, other, one, message);
}

/// The parameter that names the fork is a text, and the subagent's own parameters are declared
/// beside it as they were.
pub proof fn law_the_session_is_declared_beside_the_parameters(params: JsonV, other: Seq<char>)
    requires
        params is Object,
        params.get("properties"@) is None || params.get("properties"@)->0 is Object,
    ensures
        ({
            let properties = session_schema(params).get("properties"@)->0;
            &&& properties.get("session_id"@) matches Some(field)
            &&& field.get("type"@) == Some(JsonV::Str("string"@))
            &&& other != "session_id"@ ==> properties.get(other) == (match params.get(
                "properties"@,
            ) {
                Some(own) => own.get(other),
                None => None,
            })
        }),
{
    let words =
        "Echo the session_id from a prior result to resume that subagent thread; omit to spawn a fresh one."@;
    let field = text_parameter_schema(words);
    crate::params::law_text_parameters_declare_texts(words);
    match params.get("properties"@) {
        Some(JsonV::Object(properties)) => {
            let after = JsonV::Object(properties).with("session_id"@, field);
            law_get_after_with(JsonV::Object(properties), "session_id"@, field, other);
            law_get_after_with(params, "properties"@, after, other);
        },
        _ => {
            let members = seq![("session_id"@, field)];
            law_get_after_with(params, "properties"@, JsonV::Object(members), other);
            law_first_member_is_found(members, "session_id"@, 0);
            if other != "session_id"@ {
                law_first_member_is_found(members, other, 1);
            }
        },
    }
}

/// What does not declare its parameters as an object is offered as it is.
pub proof fn law_other_schemas_stay(params: JsonV)
    requires
        params.get("properties"@) matches Some(own) && !(own is Object),
    ensures
        session_schema(params) == params,
{
}

/// A result without a shape of its own is one text, which has to be given.
pub proof fn law_free_results_are_texts()
    ensures
        ({
            let properties = free_text_result().get("properties"@);
            &&& properties matches Some(p)
            &&& p.get("result"@) matches Some(field)
            &&& field.get("type"@) == Some(JsonV::Str("string"@))
        }),
        free_text_result().get("required"@) matches Some(JsonV::Array(names)) && names == seq![
            JsonV::Str("result"@),
        ],
        free_text_result().get("type"@) == Some(JsonV::Str("object"@)),
{
    let words = "The subagent's result, as free text."@;
    let properties = seq![("result"@, text_parameter_schema(words))];
    crate::params::law_text_parameters_declare_texts(words);
    crate::params::law_parameters_declare_an_object(properties, seq!["result"@]);
    law_first_member_is_found(properties, "result"@, 0);
}

/// A run has the tools of its subagent, and the tool that gives the result back: its parameters
/// are the shape of the result, or one text where the subagent declares none.
pub proof fn law_runs_can_give_their_result_back<S: Subagent>(
    tool: SubagentTool<S>,
    name: Seq<char>,
)
    requires
        crate::tools::distinct_tools(tool.subagent.pool()),
    ensures
        match crate::tools::find_tool(tool.equipped(), "akasha_subagent_yield"@) {
            Some(found) => {
                &&& found.definition.name == "akasha_subagent_yield"@
                &&& tool.subagent.shapes().1 matches Some(shape) ==> found.definition.parameters
                    == shape
                &&& tool.subagent.shapes().1 is None ==> found.definition.parameters
                    == free_text_result()
                &&& found.output is None
            },
            None => false,
        },
        name != "akasha_subagent_yield"@ ==> crate::tools::find_tool(tool.equipped(), name)
            == crate::tools::find_tool(tool.subagent.pool(), name),
{
    let shape = match tool.subagent.shapes().1 {
        Some(schema) => schema,
        None => free_text_result(),
    };
    crate::tools::law_register(tool.subagent.pool(), YieldTool::declared(shape), name);
}

/// A subagent is offered under its own name and with its own description; the parameter that
/// names the fork stands beside its own parameters.
pub proof fn law_subagents_are_offered<S: Subagent>(tool: SubagentTool<S>, other: Seq<char>)
    requires
        tool.subagent.declared().parameters is Object,
    ensures
        tool.declared().name == tool.subagent.declared().name,
        tool.declared().description == tool.subagent.declared().description,
        other != "properties"@ ==> tool.declared().parameters.get(other)
            == tool.subagent.declared().parameters.get(other),
        tool.subagent.declared().parameters.get("properties"@) is None
            || tool.subagent.declared().parameters.get("properties"@)->0 is Object ==> {
            let properties = tool.declared().parameters.get("properties"@)->0;
            &&& properties.get("session_id"@) matches Some(field)
            &&& field.get("type"@) == Some(JsonV::Str("string"@))
            &&& other != "session_id"@ ==> properties.get(other) == (
            match tool.subagent.declared().parameters.get("properties"@) {
                Some(declared) => declared.get(other),
                None => None,
            })
        },
{
    let own = tool.subagent.declared().parameters;
    if own.get("properties"@) is None || own.get("properties"@)->0 is Object {
        law_definition_declares_the_session(own, other);
        law_the_session_is_declared_beside_the_parameters(own, other);
    }
}

/// What a subagent gave back is what its caller reads, with the id of its fork; a run without a
/// result is an error that says why the run ended.
pub proof fn law_results_reach_the_caller<S: Subagent>(
    id: Seq<char>,
    value: JsonV,
    outcome: Result<(), AgentErrorV>,
    error: AgentErrorV,
)
    ensures
        ({
            let told = SubagentTool::<S>::reported(id, Some(value), outcome);
            &&& parts_text(told.content) == json_text(value.with("session_id"@, JsonV::Str(id)))
            &&& !told.is_error
        }),
        ({
            let told = SubagentTool::<S>::reported(id, None, Err(error));
            parts_text(told.content) == error.words() && told.is_error
        }),
        ({
            let told = SubagentTool::<S>::reported(id, None, Ok(()));
            parts_text(told.content) == "subagent ended without yielding a result"@
                && told.is_error
        }),
{
    law_texts_are_read_back(
        ""@,
        json_text(value.with("session_id"@, JsonV::Str(id))),
        false,
    );
    law_texts_are_read_back(""@, error.words(), true);
    law_texts_are_read_back(""@, "subagent ended without yielding a result"@, true);
}

/// A run is told what its subagent makes of the call, as words of the user; where the subagent
/// makes nothing of it, its reason is handed on.
pub proof fn law_runs_are_told_what_the_subagent_says<S: Subagent>(
    tool: SubagentTool<S>,
    params: JsonV,
    resume: bool,
)
    ensures
        match tool.subagent.seeded(params.without("session_id"@), resume) {
            Ok(blocks) => tool.prompted(params, resume) matches Ok(m) && m.content == blocks
                && m.role == "user"@,
            Err(e) => tool.prompted(params, resume) == Err::<MessageV, ToolErrorV>(e),
        },
{
}

/// As long as a run has given nothing back, the model is called with what it was to be called
/// with; whatever else is asked is answered as if nothing stood in the way.
pub proof fn law_runs_go_on_until_they_yield(yielded: Option<JsonV>, call: HookCallV)
    ensures
        yielded is None || !(call is MessageStart) ==> abort_answer(yielded, call)
            == call.unchanged(),
        yielded is Some && call is MessageStart ==> abort_answer(yielded, call)
            == HookReturnV::Messages(
            Err(
                ExtensionErrorV::Stopped {
                    name: "subagent/abort-on-yield"@,
                    message: "subagent yielded; aborting remaining turns"@,
                },
            ),
        ),
{
}

/// A run that could not be spawned is reported with the reason.
pub proof fn law_spawn_failures_tell_the_reason(why: Seq<char>)
    ensures
        fork_failure(why) matches ToolErrorV::Execution(m) && ends_with(m, "session error: "@ + why),
        stop_failure(why) == ToolErrorV::Execution("session error: "@ + why),
{
    lemma_ends_with("failed to fork subagent session: "@, "session error: "@ + why);
}

} // verus!
