//! Puts an agent together: its model, its session, its extensions, and its tools, of which it
//! may use only those that are enabled.
use vstd::prelude::*;

use crate::circuit_breaker::CircuitBreaker;
use crate::combinator::{compose, Composed};
use crate::extensions::{AgentState, Extension, HookCall, HookCallV, HookReturn, HookReturnV};
use crate::io::{IoExtension, IoV};
use crate::json::JsonV;
use crate::mcp::{
    register as register_remote, server_views, with_remote, EntryConfigV, McpConfig, McpToolError,
    RemoteTool, ServerEntry, ServerV, StreamableHttpConfig,
};
use crate::providers::{Model, ModelV};
use crate::schema::SchemaVerification;
use crate::skill::{
    law_skill_uses_allowed_tools, register as register_skill, skipped_for, with_skills,
    ParsedSkill, ParsedSkillV, SkillTool,
};
use crate::subagent::{register as register_subagent, Subagent, SubagentTool};
use crate::text::{concat3, opt_view, views};
use crate::tools::{
    find_tool, law_subset, law_subset_denies_by_default, lemma_tool_position, tool_position,
    tool_subset, with_tool, ToolRegistry, ToolSpec, ToolSpecV,
};
use crate::types::{Message, MessageV};

verus! {

/// An extension of an agent: one of those that every agent has, the one that talks to a
/// frontend, or one of the caller's own.
pub enum AgentExtension<E> {
    Schema(SchemaVerification),
    Breaker(CircuitBreaker),
    Io(IoExtension),
    Own(E),
}

impl<E: Extension> Extension for AgentExtension<E> {
    open spec fn steps(pre: Self, call: HookCallV, post: Self, ret: HookReturnV) -> bool {
        match (pre, post) {
            (AgentExtension::Schema(a), AgentExtension::Schema(b)) => SchemaVerification::steps(
                a,
                call,
                b,
                ret,
            ),
            (AgentExtension::Breaker(a), AgentExtension::Breaker(b)) => CircuitBreaker::steps(
                a,
                call,
                b,
                ret,
            ),
            (AgentExtension::Io(a), AgentExtension::Io(b)) => IoExtension::steps(a, call, b, ret),
            (AgentExtension::Own(a), AgentExtension::Own(b)) => E::steps(a, call, b, ret),
            _ => false,
        }
    }

    open spec fn called(&self) -> Seq<char> {
        match self {
            AgentExtension::Schema(x) => x.called(),
            AgentExtension::Breaker(x) => x.called(),
            AgentExtension::Io(x) => x.called(),
            AgentExtension::Own(x) => x.called(),
        }
    }

    fn name(&self) -> String {
        match self {
            AgentExtension::Schema(x) => x.name(),
            AgentExtension::Breaker(x) => x.name(),
            AgentExtension::Io(x) => x.name(),
            AgentExtension::Own(x) => x.name(),
        }
    }

    fn handle(&mut self, call: HookCall) -> (ret: HookReturn) {
        match self {
            AgentExtension::Schema(x) => x.handle(call),
            AgentExtension::Breaker(x) => x.handle(call),
            AgentExtension::Io(x) => x.handle(call),
            AgentExtension::Own(x) => x.handle(call),
        }
    }
}

/// What an [`AgentBuilder`] is.
#[verifier::ext_equal]
pub struct BuilderV<E> {
    pub model: ModelV,
    /// What was said so far.
    pub session: Seq<MessageV>,
    pub extensions: Seq<AgentExtension<E>>,
    /// The pool of tools.
    pub tools: Seq<ToolSpecV>,
    /// The tools that the agent may use.
    pub enabled: Seq<Seq<char>>,
    /// Servers whose tools are to come in.
    pub mcps: Seq<ServerV>,
    /// Servers by name, behind the others.
    pub named: Seq<(Seq<char>, EntryConfigV)>,
}

impl<E> BuilderV<E> {
    /// The same with another pool.
    pub open spec fn pooling(self, tools: Seq<ToolSpecV>) -> BuilderV<E> {
        BuilderV {
            model: self.model,
            session: self.session,
            extensions: self.extensions,
            tools,
            enabled: self.enabled,
            mcps: self.mcps,
            named: self.named,
        }
    }

    /// The same with one more extension, behind the others.
    pub open spec fn extended(self, extension: AgentExtension<E>) -> BuilderV<E> {
        BuilderV {
            model: self.model,
            session: self.session,
            extensions: self.extensions.push(extension),
            tools: self.tools,
            enabled: self.enabled,
            mcps: self.mcps,
            named: self.named,
        }
    }

    /// The same with more tools enabled.
    pub open spec fn enabling(self, names: Seq<Seq<char>>) -> BuilderV<E> {
        BuilderV {
            model: self.model,
            session: self.session,
            extensions: self.extensions,
            tools: self.tools,
            enabled: self.enabled + names,
            mcps: self.mcps,
            named: self.named,
        }
    }

    /// The same with other servers to come in.
    pub open spec fn awaiting(
        self,
        mcps: Seq<ServerV>,
        named: Seq<(Seq<char>, EntryConfigV)>,
    ) -> BuilderV<E> {
        BuilderV {
            model: self.model,
            session: self.session,
            extensions: self.extensions,
            tools: self.tools,
            enabled: self.enabled,
            mcps,
            named,
        }
    }
}

/// A server to be connected to, and what is said where that fails.
#[derive(Debug, PartialEq)]
pub struct PlannedServer {
    pub config: StreamableHttpConfig,
    pub context: String,
}

/// An agent that has been put together.
pub struct BuiltAgent<E> {
    /// What it works with: the model and the session that it was given, and the tools that it
    /// may use.
    pub state: AgentState,
    pub extension: Composed<AgentExtension<E>>,
}

/// Puts an agent together.
pub struct AgentBuilder<E> {
    pub model: Model,
    pub session: Vec<Message>,
    pub extensions: Vec<AgentExtension<E>>,
    pub pool: ToolRegistry,
    pub enabled: Vec<String>,
    pub mcps: Vec<StreamableHttpConfig>,
    pub named: Vec<(String, ServerEntry)>,
}

impl<E> View for AgentBuilder<E> {
    type V = BuilderV<E>;

    open spec fn view(&self) -> BuilderV<E> {
        BuilderV {
            model: self.model@,
            session: views(self.session@),
            extensions: self.extensions@,
            tools: self.pool@,
            enabled: views(self.enabled@),
            mcps: views(self.mcps@),
            named: server_views(self.named@),
        }
    }
}

impl<E: Extension> AgentBuilder<E> {
    /// A bare agent over a session: no extension, no tool.
    pub fn new(model: Model, session: Vec<Message>) -> (r: Self)
        ensures
            r@ == (BuilderV::<E> {
                model: model@,
                session: views(session@),
                extensions: Seq::empty(),
                tools: Seq::empty(),
                enabled: Seq::empty(),
                mcps: Seq::empty(),
                named: Seq::empty(),
            }),
    {
        let r = AgentBuilder {
            model,
            session,
            extensions: Vec::new(),
            pool: ToolRegistry::new(),
            enabled: Vec::new(),
            mcps: Vec::new(),
            named: Vec::new(),
        };
        proof {
            assert(r@.enabled =~= Seq::empty());
            assert(r@.mcps =~= Seq::empty());
            assert(r@.named =~= Seq::empty());
        }
        r
    }

    /// An agent with the extensions that every agent should have: its tools' inputs and outputs
    /// are checked first, and then what they return is clipped.
    pub fn base(model: Model, session: Vec<Message>) -> (r: Self)
        ensures
            r@.model == model@,
            r@.session == views(session@),
            r@.tools == Seq::<ToolSpecV>::empty(),
            r@.enabled == Seq::<Seq<char>>::empty(),
            r@.extensions.len() == 2,
            r@.extensions[0] matches AgentExtension::Schema(x) && x@.schemas.len() == 0
                && x@.pending.len() == 0,
            r@.extensions[1] == AgentExtension::<E>::Breaker(CircuitBreaker),
            r@.mcps == Seq::<ServerV>::empty(),
            r@.named == Seq::<(Seq<char>, EntryConfigV)>::empty(),
    {
        let mut r = Self::new(model, session);
        r.extensions.push(AgentExtension::Schema(SchemaVerification::new()));
        r.extensions.push(AgentExtension::Breaker(CircuitBreaker::new()));
        r
    }

    /// Adds an extension. The first one is asked first.
    pub fn extension(self, extension: E) -> (r: Self)
        ensures
            r@ == self@.extended(AgentExtension::Own(extension)),
    {
        let mut r = self;
        r.extensions.push(AgentExtension::Own(extension));
        r
    }

    /// Adds the extension that talks to a frontend. It should be the last one.
    pub fn bind_io(self) -> (r: Self)
        ensures
            r@.extensions.len() == self@.extensions.len() + 1,
            r@.extensions.last() matches AgentExtension::Io(io) && r@ == self@.extended(
                AgentExtension::Io(io),
            ) && io@ == (IoV { outbox: Seq::empty(), inbox: Seq::empty(), open: true }),
    {
        let mut r = self;
        r.extensions.push(AgentExtension::Io(IoExtension::new()));
        r
    }

    /// Replaces the pool of tools.
    pub fn tools(self, registry: ToolRegistry) -> (r: Self)
        ensures
            r@ == self@.pooling(registry@),
    {
        let mut r = self;
        r.pool = registry;
        r
    }

    /// Adds a tool to the pool.
    pub fn tool(self, tool: ToolSpec) -> (r: Self)
        ensures
            r@ == self@.pooling(with_tool(self@.tools, tool@)),
    {
        let mut r = self;
        r.pool.register(tool);
        r
    }

    /// Enables tools for the agent.
    pub fn tools_enable(self, names: Vec<String>) -> (r: Self)
        ensures
            r@ == self@.enabling(views(names@)),
    {
        let ghost before = self@;
        let ghost shown = views(names@);
        let mut r = self;
        let mut names = names;
        r.enabled.append(&mut names);
        assert(r@.enabled =~= before.enabled + shown);
        r
    }

    /// Adds a subagent to the pool.
    pub fn subagent<S: Subagent>(self, subagent: S) -> (r: Self)
        ensures
            r@ == self@.pooling(
                with_tool(
                    self@.tools,
                    ToolSpecV {
                        definition: SubagentTool { subagent }.declared(),
                        output: None,
                    },
                ),
            ),
    {
        let mut r = self;
        register_subagent(&mut r.pool, subagent);
        r
    }

    /// Queues a server whose tools are to come into the pool.
    pub fn mcp(self, server: StreamableHttpConfig) -> (r: Self)
        ensures
            r@ == self@.awaiting(self@.mcps.push(server@), self@.named),
    {
        let ghost before = self@;
        let ghost shown = server@;
        let mut r = self;
        r.mcps.push(server);
        assert(r@.mcps =~= before.mcps.push(shown));
        r
    }

    /// Queues the servers of a configuration, behind the others.
    pub fn mcp_servers(self, config: McpConfig) -> (r: Self)
        ensures
            r@ == self@.awaiting(
                self@.mcps,
                self@.named + server_views(config.mcp_servers@),
            ),
    {
        let ghost before = self@;
        let ghost shown = server_views(config.mcp_servers@);
        let mut r = self;
        let mut servers = config.mcp_servers;
        r.named.append(&mut servers);
        assert(r@.named =~= before.named + shown);
        r
    }

    /// Takes the next server out of the queue, or why it is of no use.
    pub fn next_server(&mut self) -> (r: Option<Result<PlannedServer, String>>)
        ensures
            ({
                let before = old(self)@;
                if before.mcps.len() > 0 {
                    &&& final(self)@ == before.awaiting(before.mcps.skip(1), before.named)
                    &&& r matches Some(Ok(server))
                    &&& server.config@ == before.mcps[0]
                    &&& server.context@ == "connecting MCP server '"@ + before.mcps[0].url + "'"@
                } else if before.named.len() > 0 {
                    &&& final(self)@ == before.awaiting(before.mcps, before.named.skip(1))
                    &&& match (before.named[0].1, r) {
                        (EntryConfigV::StreamableHttp(config), Some(Ok(server))) => {
                            &&& server.config@ == config
                            &&& server.context@ == "connecting MCP server '"@ + before.named[0].0
                                + ("' ("@ + config.url + ")"@)
                        },
                        (EntryConfigV::Unknown(_), Some(Err(e))) => e@
                            == "parsing MCP server entry '"@ + before.named[0].0 + "'"@,
                        _ => false,
                    }
                } else {
                    r is None && final(self)@ == before
                }
            }),
            match (old(self)@.upcoming(), r) {
                (Some(Ok((config, context))), Some(Ok(server))) => server.config@ == config
                    && server.context@ == context,
                (Some(Err(why)), Some(Err(e))) => e@ == why,
                (None, None) => true,
                _ => false,
            },
    {
        let ghost before = self@;
        if self.mcps.len() > 0 {
            let config = self.mcps.remove(0);
            assert(self@.mcps =~= before.mcps.skip(1));
            let context = concat3("connecting MCP server '", config.url.as_str(), "'");
            Some(Ok(PlannedServer { config, context }))
        } else if self.named.len() > 0 {
            let (name, entry) = self.named.remove(0);
            assert(self@.named =~= before.named.skip(1));
            match entry.into_config() {
                Ok(config) => {
                    let rest = concat3("' (", config.url.as_str(), ")");
                    let context = concat3("connecting MCP server '", name.as_str(), rest.as_str());
                    Some(Ok(PlannedServer { config, context }))
                },
                Err(_) => Some(Err(concat3("parsing MCP server entry '", name.as_str(), "'"))),
            }
        } else {
            None
        }
    }

    /// Takes in the tools of a server, given those that it has, or why it was not reached.
    pub fn connected(
        &mut self,
        server: &PlannedServer,
        found: Result<Vec<RemoteTool>, McpToolError>,
    ) -> (r: Result<(), String>)
        ensures
            match (found, r) {
                (Ok(found), Ok(_)) => final(self)@ == old(self)@.pooling(
                    with_remote(old(self)@.tools, server.config@, views(found@)),
                ),
                (Err(e), Err(context)) => final(self)@ == old(self)@ && context@
                    == server.context@,
                _ => false,
            },
    {
        match found {
            Ok(found) => {
                register_remote(&mut self.pool, &server.config, &found);
                Ok(())
            },
            Err(_) => Err(server.context.clone()),
        }
    }

    /// Adds the skills that were found to the pool, each with the text of its schema file.
    /// They draw on `base`, which is the pool as it stood before any skill came in. Returns the
    /// skills that came in, and a warning for each that did not.
    pub fn skills(
        &mut self,
        base: &ToolRegistry,
        found: Vec<(ParsedSkill, Result<String, String>)>,
    ) -> (r: (Vec<SubagentTool<SkillTool>>, Vec<String>))
        ensures
            shown_skills(r.0@) == kept_skills(found_views(found@)),
            views(r.1@) == skill_warnings(found_views(found@)),
            forall|i: int|
                0 <= i < r.0@.len() ==> (#[trigger] r.0@[i]).subagent.base_tools@ == base@,
            final(self)@ == old(self)@.pooling(
                with_skills(old(self)@.tools, skill_tools(r.0@)),
            ),
    {
        let ghost before = self@;
        let ghost all = found_views(found@);
        let mut rest = found;
        let mut tools: Vec<SubagentTool<SkillTool>> = Vec::new();
        let mut warnings: Vec<String> = Vec::new();
        let ghost mut done: int = 0;
        proof {
            assert(all.take(0) =~= Seq::empty());
            assert(all.skip(0) =~= all);
            assert(skill_tools(tools@) =~= Seq::empty());
            assert(shown_skills(tools@) =~= Seq::empty());
            assert(views(warnings@) =~= Seq::empty());
        }
        while rest.len() > 0
            invariant
                0 <= done <= all.len(),
                found_views(rest@) == all.skip(done),
                shown_skills(tools@) == kept_skills(all.take(done)),
                views(warnings@) == skill_warnings(all.take(done)),
                forall|i: int|
                    0 <= i < tools@.len() ==> (#[trigger] tools@[i]).subagent.base_tools@ == base@,
                self@ == before.pooling(with_skills(before.tools, skill_tools(tools@))),
            decreases rest@.len(),
        {
            let ghost ahead = rest@;
            let (skill, text) = rest.remove(0);
            let ghost next = found_view((skill, text));
            proof {
                assert(found_views(ahead).len() == ahead.len());
                assert(found_views(ahead)[0] == next);
                assert(all.skip(done).len() == all.len() - done);
                assert(all.skip(done)[0] == all[done]);
                assert(found_views(rest@) =~= found_views(ahead).skip(1));
                assert(all.skip(done).skip(1) =~= all.skip(done + 1));
                assert(all.take(done + 1).drop_last() =~= all.take(done));
                assert(all.take(done + 1).last() == next);
            }
            match register_skill(&mut self.pool, base, skill, text) {
                Ok(tool) => {
                    let ghost known = skill_tools(tools@);
                    let ghost seen = shown_skills(tools@);
                    let ghost own = tool.subagent;
                    tools.push(tool);
                    proof {
                        assert(skill_tools(tools@) =~= known.push(own));
                        assert(known.push(own).drop_last() =~= known);
                        assert(shown_skills(tools@) =~= seen.push(shown_skill(own)));
                    }
                },
                Err(w) => {
                    let ghost said = views(warnings@);
                    let ghost why = w@;
                    warnings.push(w);
                    assert(views(warnings@) =~= said.push(why));
                },
            }
            proof {
                done = done + 1;
            }
        }
        proof {
            assert(found_views(rest@).len() == 0);
            assert(all.take(done) =~= all);
        }
        (tools, warnings)
    }

    /// Puts the agent together: it may use the tools of the pool that are enabled.
    pub fn build(self) -> (r: BuiltAgent<E>)
        ensures
            r.state@.model == self@.model,
            r.state@.tools == tool_subset(self@.tools, self@.enabled),
            r.state@.session == self@.session,
            r.extension.chain@ == self@.extensions,
    {
        let tools = self.pool.subset(&self.enabled);
        BuiltAgent {
            state: AgentState { model: self.model, tools, session: self.session },
            extension: compose(self.extensions),
        }
    }
}

/// A skill that was found, with the text of its schema file.
pub type FoundSkillV = (ParsedSkillV, Result<Seq<char>, Seq<char>>);

/// A skill that was found.
pub open spec fn found_view(found: (ParsedSkill, Result<String, String>)) -> FoundSkillV {
    (
        found.0@,
        match found.1 {
            Ok(t) => Ok(t@),
            Err(e) => Err(e@),
        },
    )
}

/// The skills that were found.
pub open spec fn found_views(found: Seq<(ParsedSkill, Result<String, String>)>) -> Seq<
    FoundSkillV,
> {
    Seq::new(found.len(), |i: int| found_view(found[i]))
}

/// The skills whose schemas are of use, with them, in order.
pub open spec fn kept_skills(found: Seq<FoundSkillV>) -> Seq<
    (ParsedSkillV, (JsonV, Option<JsonV>)),
>
    decreases found.len(),
{
    if found.len() == 0 {
        Seq::empty()
    } else {
        let (skill, text) = found.last();
        match skill.schemas(text) {
            Ok(schemas) => kept_skills(found.drop_last()).push((skill, schemas)),
            Err(_) => kept_skills(found.drop_last()),
        }
    }
}

/// The warnings about the others, in order.
pub open spec fn skill_warnings(found: Seq<FoundSkillV>) -> Seq<Seq<char>>
    decreases found.len(),
{
    if found.len() == 0 {
        Seq::empty()
    } else {
        let (skill, text) = found.last();
        match skipped_for(skill, text) {
            Some(w) => skill_warnings(found.drop_last()).push(w),
            None => skill_warnings(found.drop_last()),
        }
    }
}

/// A skill with its schemas.
pub open spec fn shown_skill(tool: SkillTool) -> (ParsedSkillV, (JsonV, Option<JsonV>)) {
    (tool.skill@, (tool.input_schema@, opt_view(tool.output_schema)))
}

/// Skills with their schemas.
pub open spec fn shown_skills(tools: Seq<SubagentTool<SkillTool>>) -> Seq<
    (ParsedSkillV, (JsonV, Option<JsonV>)),
> {
    Seq::new(tools.len(), |i: int| shown_skill(tools[i].subagent))
}

/// The skills of tools.
pub open spec fn skill_tools(tools: Seq<SubagentTool<SkillTool>>) -> Seq<SkillTool> {
    Seq::new(tools.len(), |i: int| tools[i].subagent)
}

/// An agent may use a tool if and only if it is in the pool and enabled; to enable more takes
/// nothing away; and without anything enabled the agent has no tool.
pub proof fn law_agents_use_enabled_tools<E>(
    builder: BuilderV<E>,
    names: Seq<Seq<char>>,
    tool: ToolSpecV,
)
    ensures
        tool_subset(builder.tools, builder.enabled).contains(tool) <==> builder.tools.contains(tool)
            && builder.enabled.contains(tool.definition.name),
        tool_subset(builder.tools, builder.enabled).contains(tool) ==> tool_subset(
            builder.tools,
            builder.enabling(names).enabled,
        ).contains(tool),
        tool_subset(builder.tools, Seq::empty()) == Seq::<ToolSpecV>::empty(),
{
    law_subset(builder.tools, builder.enabled, tool);
    law_subset(builder.tools, builder.enabled + names, tool);
    law_subset_denies_by_default(builder.tools);
    if builder.enabled.contains(tool.definition.name) {
        let i = builder.enabled.index_of(tool.definition.name);
        assert((builder.enabled + names)[i] == tool.definition.name);
    }
}

/// No skill can reach itself or a sibling: skills draw on a pool into which no skill has come
/// yet, whichever of them come in behind each other.
pub proof fn law_skills_reach_no_skill(
    base: Seq<ToolSpecV>,
    skills: Seq<SkillTool>,
    i: int,
    j: int,
    tool: ToolSpecV,
)
    requires
        forall|k: int| 0 <= k < skills.len() ==> (#[trigger] skills[k]).base_tools@ == base,
        0 <= i < skills.len(),
        0 <= j < skills.len(),
    ensures
        skills[i].pool().contains(tool) ==> base.contains(tool),
        find_tool(base, skills[j].declared().name) is None ==> find_tool(
            skills[i].pool(),
            skills[j].declared().name,
        ) is None,
{
    law_skill_uses_allowed_tools(skills[i], tool);
    let name = skills[j].declared().name;
    let pool = skills[i].pool();
    lemma_tool_position(base, name);
    lemma_tool_position(pool, name);
    if find_tool(base, name) is None && find_tool(pool, name) is Some {
        let known = pool[tool_position(pool, name)];
        assert(pool.contains(known));
        law_skill_uses_allowed_tools(skills[i], known);
        let k = base.index_of(known);
        assert(base[k].definition.name == name);
    }
}

/// Each step of putting an agent together changes what it is about and nothing else: the pool,
/// the extensions, of which the last comes last, the tools that are enabled, or the servers.
pub proof fn law_building_goes_step_by_step<E>(
    builder: BuilderV<E>,
    tools: Seq<ToolSpecV>,
    extension: AgentExtension<E>,
    names: Seq<Seq<char>>,
    mcps: Seq<ServerV>,
    named: Seq<(Seq<char>, EntryConfigV)>,
)
    ensures
        ({
            let after = builder.pooling(tools);
            &&& after.tools == tools
            &&& after.model == builder.model && after.session == builder.session
            &&& after.extensions == builder.extensions && after.enabled == builder.enabled
            &&& after.mcps == builder.mcps && after.named == builder.named
        }),
        ({
            let after = builder.extended(extension);
            &&& after.extensions.drop_last() == builder.extensions
            &&& after.extensions.last() == extension
            &&& after.model == builder.model && after.session == builder.session
            &&& after.tools == builder.tools && after.enabled == builder.enabled
            &&& after.mcps == builder.mcps && after.named == builder.named
        }),
        ({
            let after = builder.enabling(names);
            &&& after.enabled.take(builder.enabled.len() as int) == builder.enabled
            &&& after.enabled.skip(builder.enabled.len() as int) == names
            &&& after.model == builder.model && after.session == builder.session
            &&& after.extensions == builder.extensions && after.tools == builder.tools
            &&& after.mcps == builder.mcps && after.named == builder.named
        }),
        ({
            let after = builder.awaiting(mcps, named);
            &&& after.mcps == mcps
            &&& after.named == named
            &&& after.model == builder.model && after.session == builder.session
            &&& after.extensions == builder.extensions && after.tools == builder.tools
            &&& after.enabled == builder.enabled
        }),
{
    assert(builder.extended(extension).extensions.drop_last() =~= builder.extensions);
    let enabled = builder.enabling(names).enabled;
    assert(enabled.take(builder.enabled.len() as int) =~= builder.enabled);
    assert(enabled.skip(builder.enabled.len() as int) =~= names);
}

/// Every skill that was found is either kept, with its schemas, or warned about, in order.
pub proof fn law_found_skills_are_kept_or_warned_about(
    found: Seq<FoundSkillV>,
    skill: ParsedSkillV,
    text: Result<Seq<char>, Seq<char>>,
)
    ensures
        kept_skills(Seq::<FoundSkillV>::empty()).len() == 0,
        skill_warnings(Seq::<FoundSkillV>::empty()).len() == 0,
        skill.schemas(text) matches Ok(schemas) ==> kept_skills(found.push((skill, text)))
            == kept_skills(found).push((skill, schemas)) && skill_warnings(
            found.push((skill, text)),
        ) == skill_warnings(found),
        skill.schemas(text) matches Err(e) ==> kept_skills(found.push((skill, text)))
            == kept_skills(found) && skill_warnings(found.push((skill, text))) == skill_warnings(
            found,
        ).push(crate::skill::skipping(skill.dir, e.words())),
        kept_skills(found).len() + skill_warnings(found).len() == found.len(),
    decreases found.len(),
{
    assert(found.push((skill, text)).drop_last() =~= found);
    if found.len() > 0 {
        let head = found.drop_last();
        law_found_skills_are_kept_or_warned_about(head, skill, text);
    }
}

/// Skills are shown one by one, each with its own schemas.
pub proof fn law_skills_are_shown_one_by_one(tools: Seq<SubagentTool<SkillTool>>, i: int)
    requires
        0 <= i < tools.len(),
    ensures
        shown_skills(tools).len() == tools.len(),
        shown_skills(tools)[i].0 == tools[i].subagent.skill@,
        shown_skills(tools)[i].1 == tools[i].subagent.shapes(),
        skill_tools(tools).len() == tools.len(),
        skill_tools(tools)[i] == tools[i].subagent,
{
}

impl<E> BuilderV<E> {
    /// The server that comes in next, with what is said where it cannot be connected to; or what
    /// is said of an entry that describes none.
    pub open spec fn upcoming(self) -> Option<Result<(ServerV, Seq<char>), Seq<char>>> {
        if self.mcps.len() > 0 {
            Some(Ok((self.mcps[0], "connecting MCP server '"@ + self.mcps[0].url + "'"@)))
        } else if self.named.len() > 0 {
            let (name, entry) = self.named[0];
            Some(
                match entry {
                    EntryConfigV::StreamableHttp(config) => Ok(
                        (
                            config,
                            "connecting MCP server '"@ + name + ("' ("@ + config.url + ")"@),
                        ),
                    ),
                    EntryConfigV::Unknown(_) => Err("parsing MCP server entry '"@ + name + "'"@),
                },
            )
        } else {
            None
        }
    }
}

/// Servers come in one after the other, those without a name first, and what is said of one names
/// it: by its address, or by its name.
pub proof fn law_servers_come_in_order<E>(builder: BuilderV<E>, server: ServerV, name: Seq<char>)
    ensures
        builder.mcps.len() > 0 ==> {
            &&& builder.upcoming() matches Some(Ok((config, context)))
            &&& config == builder.mcps[0]
            &&& ("connecting MCP server '"@ + config.url).is_prefix_of(context)
        },
        builder.mcps.len() == 0 && builder.named.len() > 0 && builder.named[0] == (
            name,
            EntryConfigV::StreamableHttp(server),
        ) ==> {
            &&& builder.upcoming() matches Some(Ok((config, context)))
            &&& config == server
            &&& ("connecting MCP server '"@ + name).is_prefix_of(context)
            &&& crate::text::ends_with(context, server.url + ")"@)
        },
        builder.mcps.len() == 0 && builder.named.len() > 0 && builder.named[0].1 is Unknown ==> {
            &&& builder.upcoming() matches Some(Err(why))
            &&& crate::text::ends_with(why, builder.named[0].0 + "'"@)
        },
        builder.mcps.len() == 0 && builder.named.len() == 0 ==> builder.upcoming() is None,
{
    let lead = "connecting MCP server '"@;
    if builder.mcps.len() > 0 {
        let front = lead + builder.mcps[0].url;
        assert((front + "'"@).take(front.len() as int) =~= front);
    } else if builder.named.len() > 0 {
        let front = lead + name;
        let context = front + ("' ("@ + server.url + ")"@);
        assert(context.take(front.len() as int) =~= front);
        crate::text::lemma_ends_with(front + "' ("@, server.url + ")"@);
        assert(context =~= front + "' ("@ + (server.url + ")"@));
        let known = builder.named[0].0;
        crate::text::lemma_ends_with("parsing MCP server entry '"@, known + "'"@);
        assert("parsing MCP server entry '"@ + known + "'"@ =~= "parsing MCP server entry '"@ + (
        known + "'"@));
    }
}

/// An extension of an agent answers as what it holds, under its name, and stays of its kind.
pub proof fn law_agent_extensions_are_what_they_hold<E: Extension>(
    pre: AgentExtension<E>,
    call: HookCallV,
    post: AgentExtension<E>,
    ret: HookReturnV,
)
    ensures
        AgentExtension::<E>::steps(pre, call, post, ret) <==> {
            ||| pre matches AgentExtension::Schema(a) && post matches AgentExtension::Schema(b)
                && SchemaVerification::steps(a, call, b, ret)
            ||| pre matches AgentExtension::Breaker(a) && post matches AgentExtension::Breaker(b)
                && CircuitBreaker::steps(a, call, b, ret)
            ||| pre matches AgentExtension::Io(a) && post matches AgentExtension::Io(b)
                && IoExtension::steps(a, call, b, ret)
            ||| pre matches AgentExtension::Own(a) && post matches AgentExtension::Own(b)
                && E::steps(a, call, b, ret)
        },
        pre matches AgentExtension::Own(own) ==> pre.called() == own.called(),
        pre matches AgentExtension::Io(io) ==> pre.called() == io.called(),
{
}

} // verus!
