//! Schema verification: every tool call is held against the JSON Schemas its tool declares.
use vstd::prelude::*;

use crate::extensions::{
    AgentStateV, DecisionV, Extension, HookCall, HookCallV, HookReturn, HookReturnV, ToolCallDecision,
};
use crate::json::{json_read, read_json, to_value, Json, JsonV};
use crate::names::{
    law_put, lemma_put_seen, lemma_seen, lemma_without_seen, lookup, put, seen, without, NameMap,
};
use crate::text::{concat2, concat3, ends_with, join, joined, lemma_ends_with, views};
use crate::tools::{
    distinct_tools, find_tool, lemma_tool_position, lemma_tool_position_is, tool_position, ToolError,
    ToolErrorV, ToolRegistry, ToolSpecV,
};
use crate::types::{parts_text, result_text, ResultPartV, ToolResult, ToolResultV};

verus! {

/// Whether `jsonschema::validator_for` makes a validator of a schema.
pub uninterp spec fn schema_compiles(schema: JsonV) -> bool;

/// What the validator of a schema has against a value: the texts of the errors that
/// `jsonschema::Validator::iter_errors` yields, in order.
pub uninterp spec fn schema_violations(schema: JsonV, value: JsonV) -> Seq<Seq<char>>;

/// `jsonschema::validator_for`: whether the schema compiles. The crate is built without the
/// features that fetch schemas from elsewhere, so the result is a function of the schema
/// alone; the contract gives it a name.
#[verifier::external_body]
fn compiles(schema: &Json) -> (r: bool)
    ensures
        r == schema_compiles(schema@),
{
    jsonschema::validator_for(&to_value(schema)).is_ok()
}

/// `jsonschema::Validator::iter_errors` of the schema's validator, each error in words; none
/// where the schema has no validator. A validator walks the schema and the value in their own
/// order and only looks names up in its hash tables, so the result is a function of the two;
/// the contract gives it a name.
#[verifier::external_body]
fn violations(schema: &Json, value: &Json) -> (r: Vec<String>)
    ensures
        views(r@) == schema_violations(schema@, value@),
{
    let value = to_value(value);
    match jsonschema::validator_for(&to_value(schema)) {
        Ok(validator) => validator.iter_errors(&value).map(|e| e.to_string()).collect(),
        Err(_) => Vec::new(),
    }
}

/// Whether a schema is worth compiling: some tools declare `null` and the like.
pub open spec fn compilable(schema: JsonV) -> bool {
    schema is Object && schema_compiles(schema)
}

/// The schema, where a call can be held against it.
pub open spec fn usable(schema: JsonV) -> Option<JsonV> {
    if compilable(schema) {
        Some(schema)
    } else {
        None
    }
}

/// The schemas of a tool that can be checked. Where the tool declares none, or one that does
/// not compile, that side goes unchecked.
#[derive(Debug, PartialEq)]
pub struct ToolValidators {
    pub input: Option<Json>,
    pub output: Option<Json>,
}

/// What [`ToolValidators`] are.
#[verifier::ext_equal]
pub struct ToolValidatorsV {
    pub input: Option<JsonV>,
    pub output: Option<JsonV>,
}

impl View for ToolValidators {
    type V = ToolValidatorsV;

    open spec fn view(&self) -> ToolValidatorsV {
        ToolValidatorsV {
            input: crate::text::opt_view(self.input),
            output: crate::text::opt_view(self.output),
        }
    }
}

/// The checkable schemas of a tool.
pub open spec fn validators_of(tool: ToolSpecV) -> ToolValidatorsV {
    ToolValidatorsV {
        input: usable(tool.definition.parameters),
        output: match tool.output {
            Some(schema) => usable(schema),
            None => None,
        },
    }
}

/// The checkable schemas of tools, by name.
pub open spec fn snapshot_of(tools: Seq<ToolSpecV>) -> Seq<(Seq<char>, ToolValidatorsV)>
    decreases tools.len(),
{
    if tools.len() == 0 {
        Seq::empty()
    } else {
        put(
            snapshot_of(tools.drop_last()),
            tools.last().definition.name,
            validators_of(tools.last()),
        )
    }
}

/// What an extension of this kind knows: the schemas of the turn, and which tool each running
/// call is for.
#[verifier::ext_equal]
pub struct VerificationV {
    pub schemas: Seq<(Seq<char>, ToolValidatorsV)>,
    pub pending: Seq<(Seq<char>, Seq<char>)>,
}

/// Verifies the input and the output of tools against the schemas they declare. The schemas
/// are taken anew from the registry at the start of each turn.
pub struct SchemaVerification {
    /// The checkable schemas, by tool.
    pub schemas: NameMap<ToolValidators>,
    /// The tool that each running call is for.
    pub pending: NameMap<String>,
}

impl View for SchemaVerification {
    type V = VerificationV;

    open spec fn view(&self) -> VerificationV {
        VerificationV { schemas: seen(self.schemas@), pending: seen(self.pending@) }
    }
}

/// The schema, where a call can be held against it.
fn use_schema(schema: &Json) -> (r: Option<Json>)
    ensures
        crate::text::opt_view(r) == usable(schema@),
{
    if schema.is_object() && compiles(schema) {
        Some(schema.clone())
    } else {
        None
    }
}

/// The checkable schemas of the registry's tools, by name.
fn snapshot(tools: &ToolRegistry) -> (r: NameMap<ToolValidators>)
    ensures
        seen(r@) == snapshot_of(tools@),
{
    let all = tools.schemas();
    let ghost specs = tools@;
    let mut out: NameMap<ToolValidators> = NameMap::new();
    let mut i: usize = 0;
    assert(specs.take(0) =~= Seq::empty());
    assert(seen(out@) =~= Seq::empty());
    while i < all.len()
        invariant
            i <= all@.len(),
            specs == views(all@),
            seen(out@) == snapshot_of(specs.take(i as int)),
        decreases all@.len() - i,
    {
        let tool = &all[i];
        let validators = ToolValidators {
            input: use_schema(&tool.definition.parameters),
            output: match &tool.output {
                Some(schema) => use_schema(schema),
                None => None,
            },
        };
        proof {
            assert(specs.take(i + 1).drop_last() =~= specs.take(i as int));
            assert(specs.take(i + 1).last() == tool@);
            assert(validators@ == validators_of(tool@));
            lemma_put_seen(out@, tool.definition.name@, validators);
        }
        out.insert(tool.definition.name.clone(), validators);
        i += 1;
    }
    assert(specs.take(specs.len() as int) =~= specs);
    out
}

/// What is wrong with a value: nothing, or the errors in one line.
pub open spec fn reason(schema: JsonV, value: JsonV) -> Option<Seq<char>> {
    let errors = schema_violations(schema, value);
    if errors.len() == 0 {
        None
    } else {
        Some(joined(errors, "; "@))
    }
}

/// What the errors of a validation amount to: nothing, or one line.
pub fn summarise(errors: &Vec<String>) -> (r: Option<String>)
    ensures
        crate::text::opt_view(r) == (if errors@.len() == 0 {
            None
        } else {
            Some(joined(views(errors@), "; "@))
        }),
{
    if errors.len() == 0 {
        None
    } else {
        Some(join(errors, "; "))
    }
}

/// What is wrong with a value.
fn validate_value(schema: &Json, value: &Json) -> (r: Option<String>)
    ensures
        crate::text::opt_view(r) == reason(schema@, value@),
{
    let errors = violations(schema, value);
    assert(views(errors@).len() == errors@.len());
    summarise(&errors)
}

/// Whether a call of the tool may run: not where its arguments break the input schema.
pub open spec fn input_decision(
    schemas: Seq<(Seq<char>, ToolValidatorsV)>,
    name: Seq<char>,
    arguments: JsonV,
) -> DecisionV {
    match lookup(schemas, name) {
        Some(ToolValidatorsV { input: Some(schema), output: _ }) => match reason(
            schema,
            arguments,
        ) {
            Some(why) => DecisionV::Deny("tool '"@ + name + "': invalid input: "@ + why),
            None => DecisionV::Allow,
        },
        _ => DecisionV::Allow,
    }
}

/// An error in place of a result, for the same call.
pub open spec fn error_for(result: ToolResultV, text: Seq<char>) -> ToolResultV {
    ToolResultV {
        tool_call_id: result.tool_call_id,
        content: seq![ResultPartV::Text(text)],
        is_error: true,
    }
}

/// What becomes of a tool's result under the output schema of the tool, given what its text
/// reads as.
pub open spec fn output_checked(
    name: Seq<char>,
    schema: JsonV,
    result: ToolResultV,
    parsed: Result<JsonV, Seq<char>>,
) -> ToolResultV {
    match parsed {
        Err(why) => error_for(
            result,
            "tool '"@ + name
                + "': output is not valid JSON and cannot be checked against its output schema ("@
                + why + ")"@,
        ),
        Ok(value) => match reason(schema, value) {
            Some(why) => error_for(result, "tool '"@ + name + "': invalid output: "@ + why),
            None => result,
        },
    }
}

/// What becomes of a tool's outcome: a successful result of a call that is known, to a tool
/// with an output schema, is held against it. Nothing else changes.
pub open spec fn output_answer(
    state: VerificationV,
    id: Seq<char>,
    result: Result<ToolResultV, ToolErrorV>,
) -> Result<ToolResultV, ToolErrorV> {
    match (lookup(state.pending, id), result) {
        (Some(name), Ok(r)) => match lookup(state.schemas, name) {
            Some(ToolValidatorsV { input: _, output: Some(schema) }) => Ok(
                output_checked(name, schema, r, json_read(parts_text(r.content))),
            ),
            _ => result,
        },
        _ => result,
    }
}

/// What the extension knows after a call.
pub open spec fn verification_after(state: VerificationV, call: HookCallV) -> VerificationV {
    match call {
        HookCallV::TurnStart(s) => VerificationV {
            schemas: snapshot_of(s.tools),
            pending: Seq::empty(),
        },
        HookCallV::ToolStart { id, name, arguments: _ } => VerificationV {
            schemas: state.schemas,
            pending: put(state.pending, id, name),
        },
        HookCallV::ToolEnd { id, result: _ } => VerificationV {
            schemas: state.schemas,
            pending: without(state.pending, id),
        },
        _ => state,
    }
}

/// What the extension answers.
pub open spec fn verification_answer(state: VerificationV, call: HookCallV) -> HookReturnV {
    match call {
        HookCallV::ToolStart { id: _, name, arguments } => HookReturnV::Decision(
            Ok(input_decision(state.schemas, name, arguments)),
        ),
        HookCallV::ToolEnd { id, result } => HookReturnV::Tool(
            Ok(output_answer(state, id, result)),
        ),
        other => other.unchanged(),
    }
}

/// What becomes of a tool's result under the output schema of the tool, given what its text
/// reads as.
pub fn check_output(name: &str, schema: &Json, result: ToolResult, parsed: Result<Json, String>)
    -> (r: ToolResult)
    ensures
        r@ == output_checked(
            name@,
            schema@,
            result@,
            match parsed {
                Ok(v) => Ok(v@),
                Err(e) => Err(e@),
            },
        ),
{
    match parsed {
        Err(why) => {
            let mut text = concat3(
                "tool '",
                name,
                "': output is not valid JSON and cannot be checked against its output schema (",
            );
            text.append(why.as_str());
            text.append(")");
            ToolResult::for_call(result.tool_call_id, text, true)
        },
        Ok(value) => match validate_value(schema, &value) {
            Some(why) => {
                let head = concat3("tool '", name, "': invalid output: ");
                let text = concat2(head.as_str(), why.as_str());
                ToolResult::for_call(result.tool_call_id, text, true)
            },
            None => result,
        },
    }
}

impl Default for SchemaVerification {
    fn default() -> (r: Self)
        ensures
            r@ == (VerificationV { schemas: Seq::empty(), pending: Seq::empty() }),
    {
        SchemaVerification::new()
    }
}

impl SchemaVerification {
    /// One that has seen no turn yet.
    pub fn new() -> (r: Self)
        ensures
            r@ == (VerificationV { schemas: Seq::empty(), pending: Seq::empty() }),
    {
        let r = SchemaVerification { schemas: NameMap::new(), pending: NameMap::new() };
        assert(r@.schemas =~= Seq::empty());
        assert(r@.pending =~= Seq::empty());
        r
    }

    /// Decides on a call of the tool by its arguments.
    fn decide(&self, name: &str, arguments: &Json) -> (r: ToolCallDecision)
        ensures
            r@ == input_decision(self@.schemas, name@, arguments@),
    {
        proof {
            lemma_seen(self.schemas@, name@);
        }
        match self.schemas.get(name) {
            Some(validators) => match &validators.input {
                Some(schema) => match validate_value(schema, arguments) {
                    Some(why) => {
                        let head = concat3("tool '", name, "': invalid input: ");
                        ToolCallDecision::Deny(concat2(head.as_str(), why.as_str()))
                    },
                    None => ToolCallDecision::Allow,
                },
                None => ToolCallDecision::Allow,
            },
            None => ToolCallDecision::Allow,
        }
    }

    /// Holds what the tool made against its output schema.
    fn check(&self, name: &str, result: Result<ToolResult, ToolError>) -> (r: Result<
        ToolResult,
        ToolError,
    >)
        ensures
            crate::extensions::res_view(r) == (match (
                lookup(self@.schemas, name@),
                crate::extensions::res_view(result),
            ) {
                (Some(ToolValidatorsV { input: _, output: Some(schema) }), Ok(r)) => Ok(
                    output_checked(name@, schema, r, json_read(parts_text(r.content))),
                ),
                (_, same) => same,
            }),
    {
        proof {
            lemma_seen(self.schemas@, name@);
        }
        match self.schemas.get(name) {
            Some(validators) => match (&validators.output, result) {
                (Some(schema), Ok(r)) => {
                    let text = result_text(&r);
                    let parsed = read_json(text.as_str());
                    Ok(check_output(name, schema, r, parsed))
                },
                (_, result) => result,
            },
            None => result,
        }
    }
}

impl Extension for SchemaVerification {
    open spec fn steps(pre: Self, call: HookCallV, post: Self, ret: HookReturnV) -> bool {
        &&& post@ == verification_after(pre@, call)
        &&& ret == verification_answer(pre@, call)
    }

    open spec fn called(&self) -> Seq<char> {
        "schema"@
    }

    fn name(&self) -> String {
        "schema".to_owned()
    }

    fn handle(&mut self, call: HookCall) -> (ret: HookReturn) {
        match call {
            HookCall::TurnStart(state) => {
                self.schemas = snapshot(&state.tools);
                self.pending.clear();
                assert(self@.pending =~= Seq::empty());
                HookReturn::State(Ok(state))
            },
            HookCall::ToolStart { id, name, arguments } => {
                proof {
                    lemma_put_seen(self.pending@, id@, name);
                }
                let copy = name.clone();
                self.pending.insert(id, name);
                HookReturn::Decision(Ok(self.decide(copy.as_str(), &arguments)))
            },
            HookCall::ToolEnd { id, result } => {
                proof {
                    lemma_without_seen(self.pending@, id@);
                    lemma_seen(self.pending@, id@);
                }
                match self.pending.remove(id.as_str()) {
                    Some(name) => HookReturn::Tool(Ok(self.check(name.as_str(), result))),
                    None => HookReturn::Tool(Ok(result)),
                }
            },
            other => other.unchanged(),
        }
    }
}

/// At the start of a turn the checkable schemas are those of the tools on offer, each found
/// under its tool's name and nothing else.
pub proof fn law_snapshot_is_the_registry(tools: Seq<ToolSpecV>, name: Seq<char>)
    requires
        distinct_tools(tools),
    ensures
        lookup(snapshot_of(tools), name) == (match find_tool(tools, name) {
            Some(tool) => Some(validators_of(tool)),
            None => None,
        }),
    decreases tools.len(),
{
    lemma_tool_position(tools, name);
    if tools.len() > 0 {
        let head = tools.drop_last();
        let last = tools.last();
        assert forall|i: int, j: int| 0 <= i < j < head.len() implies (
        #[trigger] head[i]).definition.name != (#[trigger] head[j]).definition.name by {
            assert(tools[i].definition.name != tools[j].definition.name);
        }
        law_snapshot_is_the_registry(head, name);
        law_put(snapshot_of(head), last.definition.name, validators_of(last), name);
        if name == last.definition.name {
            assert forall|j: int| 0 <= j < tools.len() - 1 implies (
            #[trigger] tools[j]).definition.name != name by {
                assert(tools[j].definition.name != tools[tools.len() - 1].definition.name);
            }
            lemma_tool_position_is(tools, name, tools.len() - 1);
        } else {
            lemma_tool_position(head, name);
            let at = tool_position(head, name);
            if at < head.len() {
                assert forall|j: int| 0 <= j < at implies (#[trigger] tools[j]).definition.name
                    != name by {
                    assert(head[j].definition.name != name);
                }
                assert(tools[at] == head[at]);
                lemma_tool_position_is(tools, name, at);
            } else {
                assert forall|j: int| 0 <= j < tools.len() implies (
                #[trigger] tools[j]).definition.name != name by {
                    if j < head.len() {
                        assert(head[j].definition.name != name);
                    }
                }
                lemma_tool_position_is(tools, name, tools.len() as int);
            }
        }
    }
}

/// A turn starts afresh: what is known after its start rests on the tools on offer alone.
pub proof fn law_turn_start_forgets(one: VerificationV, other: VerificationV, state: AgentStateV)
    ensures
        verification_after(one, HookCallV::TurnStart(state)) == verification_after(
            other,
            HookCallV::TurnStart(state),
        ),
{
}

/// Nothing is done to the result of a tool without a checkable output schema, to the outcome
/// of a call that was not seen to start, or to an outcome that is a failure.
pub proof fn law_unchecked_outcomes_pass(
    state: VerificationV,
    id: Seq<char>,
    result: Result<ToolResultV, ToolErrorV>,
)
    requires
        result is Err || lookup(state.pending, id) is None || lookup(
            state.schemas,
            lookup(state.pending, id)->0,
        ) is None || (lookup(state.schemas, lookup(state.pending, id)->0)->0).output is None,
    ensures
        output_answer(state, id, result) == result,
{
}

/// A result that has been checked is either handed on as it is, or replaced by an error for
/// the same call; an error is never turned into a success.
pub proof fn law_checking_only_flags(
    state: VerificationV,
    id: Seq<char>,
    result: ToolResultV,
)
    ensures
        output_answer(state, id, Ok(result)) matches Ok(after) && after.tool_call_id
            == result.tool_call_id && (after == result || after.is_error),
{
}

/// A tool's input is held against the schema of its parameters and its output against its output
/// schema, each where it is an object that compiles, and as it is declared.
pub proof fn law_tools_are_held_against_their_own_schemas(tool: ToolSpecV)
    ensures
        validators_of(tool).input matches Some(schema) ==> schema == tool.definition.parameters,
        validators_of(tool).input is Some <==> tool.definition.parameters is Object
            && schema_compiles(tool.definition.parameters),
        validators_of(tool).output matches Some(schema) ==> tool.output == Some(schema),
        validators_of(tool).output is Some <==> (tool.output matches Some(schema)
            && schema is Object && schema_compiles(schema)),
{
}

/// A call may run if and only if its tool has no schema for its input or its arguments do not
/// break it; a denial names the tool and ends with everything that is wrong.
pub proof fn law_calls_are_held_against_the_input_schema(
    schemas: Seq<(Seq<char>, ToolValidatorsV)>,
    name: Seq<char>,
    arguments: JsonV,
)
    ensures
        input_decision(schemas, name, arguments) == DecisionV::Allow <==> (match lookup(
            schemas,
            name,
        ) {
            Some(known) => known.input matches Some(schema) ==> schema_violations(
                schema,
                arguments,
            ).len() == 0,
            None => true,
        }),
        input_decision(schemas, name, arguments) matches DecisionV::Deny(why) ==> {
            let schema = lookup(schemas, name)->0.input->0;
            &&& ends_with(why, joined(schema_violations(schema, arguments), "; "@))
            &&& ("tool '"@ + name + "': invalid input: "@).is_prefix_of(why)
        },
{
    match input_decision(schemas, name, arguments) {
        DecisionV::Deny(why) => {
            let schema = lookup(schemas, name)->0.input->0;
            let lead = "tool '"@ + name + "': invalid input: "@;
            let faults = joined(schema_violations(schema, arguments), "; "@);
            lemma_ends_with(lead, faults);
            assert(why.take(lead.len() as int) =~= lead);
        },
        _ => {},
    }
}

/// A result is handed on as it is if and only if its text is JSON that does not break the output
/// schema. Else the same call gets an error that names the tool and tells what is wrong.
pub proof fn law_results_are_held_against_the_output_schema(
    name: Seq<char>,
    schema: JsonV,
    result: ToolResultV,
    value: JsonV,
    why: Seq<char>,
)
    ensures
        schema_violations(schema, value).len() == 0 ==> output_checked(
            name,
            schema,
            result,
            Ok(value),
        ) == result,
        schema_violations(schema, value).len() > 0 ==> {
            let after = output_checked(name, schema, result, Ok(value));
            &&& after.is_error
            &&& after.tool_call_id == result.tool_call_id
            &&& parts_text(after.content) == "tool '"@ + name + "': invalid output: "@ + joined(
                schema_violations(schema, value),
                "; "@,
            )
        },
        ({
            let after = output_checked(name, schema, result, Err(why));
            &&& after.is_error
            &&& after.tool_call_id == result.tool_call_id
            &&& ends_with(parts_text(after.content), why + ")"@)
            &&& ("tool '"@ + name + "': output is not valid JSON"@).is_prefix_of(
                parts_text(after.content),
            )
        }),
{
    let broken = "tool '"@ + name + "': invalid output: "@ + joined(
        schema_violations(schema, value),
        "; "@,
    );
    let rest =
        "': output is not valid JSON and cannot be checked against its output schema ("@;
    let lead = "tool '"@ + name + rest;
    let unread = lead + why + ")"@;
    crate::types::law_texts_are_read_back(""@, broken, true);
    crate::types::law_texts_are_read_back(""@, unread, true);
    lemma_ends_with(lead, why + ")"@);
    assert(unread =~= lead + (why + ")"@));
    reveal_strlit("': output is not valid JSON");
    reveal_strlit("': output is not valid JSON and cannot be checked against its output schema (");
    assert("': output is not valid JSON"@.len() == 27);
    assert("': output is not valid JSON and cannot be checked against its output schema ("@.len() == 77);
    let front = "tool '"@ + name + "': output is not valid JSON"@;
    assert(rest.take(27) =~= "': output is not valid JSON"@);
    assert(unread.take(front.len() as int) =~= front);
}

/// What a call returns is held against the output schema of the tool that it was started for, and
/// the call is forgotten once it has returned; other calls are not touched.
pub proof fn law_calls_are_checked_under_their_tool(
    state: VerificationV,
    id: Seq<char>,
    name: Seq<char>,
    arguments: JsonV,
    result: ToolResultV,
    other: Seq<char>,
)
    requires
        crate::names::distinct(state.pending),
    ensures
        ({
            let running = verification_after(state, HookCallV::ToolStart { id, name, arguments });
            let returned = HookCallV::ToolEnd { id, result: Ok(result) };
            let over = verification_after(running, returned);
            &&& lookup(running.pending, id) == Some(name)
            &&& running.schemas == state.schemas
            &&& over.schemas == state.schemas
            &&& lookup(over.pending, id) is None
            &&& other != id ==> lookup(running.pending, other) == lookup(state.pending, other)
            &&& other != id ==> lookup(over.pending, other) == lookup(state.pending, other)
            &&& lookup(state.schemas, name) matches Some(known) ==> (known.output matches Some(
                schema,
            ) ==> verification_answer(running, returned) == HookReturnV::Tool(
                Ok(
                    Ok(
                        output_checked(
                            name,
                            schema,
                            result,
                            json_read(parts_text(result.content)),
                        ),
                    ),
                ),
            ))
        }),
{
    let running = verification_after(state, HookCallV::ToolStart { id, name, arguments });
    law_put(state.pending, id, name, other);
    crate::names::law_without(running.pending, id, other);
}

/// Only the start of a turn, the start and the end of a call change what is known; only the start
/// and the end of a call are answered with more than what was asked about.
pub proof fn law_other_points_pass(state: VerificationV, call: HookCallV, at: AgentStateV)
    ensures
        !(call is TurnStart || call is ToolStart || call is ToolEnd) ==> verification_after(
            state,
            call,
        ) == state,
        !(call is ToolStart || call is ToolEnd) ==> verification_answer(state, call)
            == call.unchanged(),
        call matches HookCallV::ToolStart { id, name, arguments } ==> verification_answer(
            state,
            call,
        ) == HookReturnV::Decision(Ok(input_decision(state.schemas, name, arguments))),
        verification_after(state, HookCallV::TurnStart(at)).pending.len() == 0,
        verification_after(state, HookCallV::TurnStart(at)).schemas == snapshot_of(at.tools),
{
}

} // verus!
