use akasha::agent::{Action, AgentRun, Event};
use akasha::builder::{AgentBuilder, AgentExtension, BuiltAgent};
use akasha::extensions::{
    Extension, HookCall, HookCallV, HookReturn, HookReturnV, NoopExtension,
};
use akasha::io::OutputEvent;
use akasha::json::{Json, JsonV};
use akasha::mcp::{McpConfig, McpToolError, RemoteTool, StreamableHttpConfig};
use akasha::providers::{Model, StreamResponse};
use akasha::skill::{discover, SkillDir};
use akasha::sqlite::SqliteSession;
use akasha::subagent::{plain_schema, PoolV, SeedV, Subagent};
use akasha::text::Chars;
use akasha::tools::{ToolError, ToolRegistry, ToolSpec};
use akasha::types::{
    ContentBlock, Message, TextContent, TokenUsage, ToolDefinition, ToolDefinitionV,
};

fn stub(name: &str) -> ToolSpec {
    ToolSpec { definition: def(name), output: None }
}

/// An extension that reports a fixed name.
struct NamedExt {
    name: &'static str,
}

impl Extension for NamedExt {
    fn steps(_: Self, _: HookCallV, _: Self, _: HookReturnV) -> bool {
        unreachable!()
    }

    fn called(&self) -> Chars {
        unreachable!()
    }

    fn name(&self) -> String {
        self.name.to_string()
    }

    fn handle(&mut self, call: HookCall) -> HookReturn {
        call.unchanged()
    }
}

/// A subagent stub; its only job is to be wrappable as a named tool.
struct EchoSubagent {
    definition: ToolDefinition,
}

impl Subagent for EchoSubagent {
    fn declared(&self) -> ToolDefinitionV {
        unreachable!()
    }

    fn shapes(&self) -> (JsonV, Option<JsonV>) {
        unreachable!()
    }

    fn pool(&self) -> PoolV {
        unreachable!()
    }

    fn seeded(&self, _: JsonV, _: bool) -> SeedV {
        unreachable!()
    }

    fn definition(&self) -> ToolDefinition {
        self.definition.clone()
    }

    fn schema(&self) -> (Json, Option<Json>) {
        plain_schema(&self.definition)
    }

    fn tools(&self) -> ToolRegistry {
        ToolRegistry::new()
    }

    fn seed(&self, _: &Json, _: bool) -> Result<Vec<ContentBlock>, ToolError> {
        Ok(vec![ContentBlock::Text(TextContent { content: "go".to_string() })])
    }
}

fn model() -> Model {
    Model {
        id: "m".to_string(),
        provider: "p".to_string(),
        context_window: 0,
        base_url: String::new(),
        headers: Vec::new(),
    }
}

fn def(name: &str) -> ToolDefinition {
    ToolDefinition {
        name: name.to_string(),
        description: "stub".to_string(),
        parameters: Json::parse(r#"{ "type": "object" }"#).unwrap(),
    }
}

fn builder() -> AgentBuilder<NamedExt> {
    AgentBuilder::new(model(), Vec::new())
}

fn names_of(list: &[&str]) -> Vec<String> {
    list.iter().map(|s| s.to_string()).collect()
}

fn tool_names(agent: &BuiltAgent<NamedExt>) -> Vec<String> {
    let mut names: Vec<String> = agent.state.tools.definitions().into_iter().map(|d| d.name).collect();
    names.sort();
    names
}

#[test]
fn base_wires_schema_then_circuit() {
    let agent = AgentBuilder::<NoopExtension>::base(model(), Vec::new()).build();
    assert_eq!(agent.extension.name(), "and");
    assert!(agent.state.tools.definitions().is_empty(), "deny-all: nothing enabled");
    assert_eq!(agent.state.model.id, "m");
}

#[test]
fn minimal_build_is_bare() {
    let agent = builder().build();
    assert_eq!(agent.extension.name(), "noop");
    assert!(agent.state.tools.definitions().is_empty(), "deny-all: nothing enabled");
    assert_eq!(agent.state.model.id, "m");
}

#[test]
fn single_extension_used_directly() {
    let agent = builder().extension(NamedExt { name: "custom" }).build();
    assert_eq!(agent.extension.name(), "custom");
}

#[test]
fn multiple_extensions_fold_via_and() {
    let agent =
        builder().extension(NamedExt { name: "a" }).extension(NamedExt { name: "b" }).build();
    assert_eq!(agent.extension.name(), "and");
}

#[test]
fn main_agent_denies_all_tools_by_default() {
    let agent = builder().tool(stub("a")).tool(stub("b")).build();
    assert!(agent.state.tools.definitions().is_empty(), "no tools_enable => main agent has no tools");
}

#[test]
fn tools_enable_exposes_only_named_tools() {
    let agent = builder()
        .tool(stub("a"))
        .tool(stub("b"))
        .tool(stub("c"))
        .tools_enable(names_of(&["a", "c"]))
        .build();
    assert_eq!(tool_names(&agent), vec!["a".to_string(), "c".to_string()]);
}

#[test]
fn tools_enable_accumulates_across_calls() {
    let agent = builder()
        .tool(stub("a"))
        .tool(stub("b"))
        .tools_enable(names_of(&["a"]))
        .tools_enable(names_of(&["b"]))
        .build();
    assert_eq!(tool_names(&agent), vec!["a".to_string(), "b".to_string()]);
}

#[test]
fn tools_enable_with_seeded_registry() {
    let mut seed = ToolRegistry::new();
    seed.register(stub("a"));
    let agent =
        builder().tools(seed).tool(stub("b")).tools_enable(names_of(&["a", "b"])).build();
    assert_eq!(tool_names(&agent), vec!["a".to_string(), "b".to_string()]);
}

#[test]
fn subagent_registers_but_needs_enabling() {
    let agent = builder().subagent(EchoSubagent { definition: def("echo") }).build();
    assert!(agent.state.tools.get("echo").is_none(), "not enabled => hidden");

    let agent = builder()
        .subagent(EchoSubagent { definition: def("echo") })
        .tools_enable(names_of(&["echo"]))
        .build();
    assert!(agent.state.tools.get("echo").is_some(), "enabled => callable");
}

#[test]
fn skills_register_and_are_callable_when_enabled() {
    let (found, _) = discover(&vec![SkillDir {
        path: "/skills/alpha".to_string(),
        name: "alpha".to_string(),
        content: Ok("---\nname: alpha\ndescription: d\n---\n## Instructions\ndo the thing.\n".to_string()),
    }]);
    let mut builder = builder().tools_enable(names_of(&["alpha"]));
    let (tools, warnings) = builder
        .skills(&ToolRegistry::new(), found.into_iter().map(|s| (s, Err("no schema file".to_string()))).collect());
    assert_eq!(tools.len(), 1);
    assert!(warnings.is_empty());
    let agent = builder.build();
    assert!(agent.state.tools.get("alpha").is_some(), "enabled skill is callable");
}

#[test]
fn session_override_is_honored() {
    let mut main = SqliteSession::new("main", None, Vec::new());
    main.append(Ok(1), Message::text("system", "seed".to_string())).unwrap();

    let agent =
        AgentBuilder::<NoopExtension>::new(model(), main.messages().clone()).build();
    assert_eq!(agent.state.session.len(), 1, "the seeded session is preserved, not replaced");
}

#[test]
fn unsupported_mcp_entry_surfaces_build_error() {
    let cfg = McpConfig::of(&Json::parse(r#"{"mcpServers":{"s":{"foo":"bar"}}}"#).unwrap()).unwrap();
    let mut builder = builder().mcp_servers(cfg);
    let err = builder
        .next_server()
        .expect("a server is planned")
        .err()
        .expect("build should fail on an unsupported entry");
    assert!(err.contains("MCP"), "error should name the server: {err}");
}

#[test]
fn unreachable_mcp_server_surfaces_build_error() {
    let bad = StreamableHttpConfig {
        url: "http://127.0.0.1:1/mcp".to_string(),
        headers: Vec::new(),
        allow: vec![],
        deny: vec![],
    };
    let mut builder = builder().mcp(bad);
    let planned = builder.next_server().unwrap().unwrap();
    let err = builder
        .connected(&planned, Err(McpToolError::Connection("connection refused".to_string())))
        .err()
        .expect("build should fail on an unreachable server");
    assert!(err.contains("MCP"), "error should name the server: {err}");
}

#[test]
fn servers_are_connected_one_after_the_other() {
    let cfg = McpConfig::of(&Json::parse(r#"{"mcpServers":{"s":{"url":"http://two"}}}"#).unwrap()).unwrap();
    let one = StreamableHttpConfig {
        url: "http://one".to_string(),
        headers: Vec::new(),
        allow: vec![],
        deny: names_of(&["hidden"]),
    };
    let mut builder = builder().mcp(one).mcp_servers(cfg).tools_enable(names_of(&["hidden", "shown"]));
    let mut urls = Vec::new();
    while let Some(planned) = builder.next_server() {
        let planned = planned.unwrap();
        urls.push(planned.config.url.clone());
        let found = if urls.len() == 1 { names_of(&["hidden", "shown"]) } else { Vec::new() };
        let found = found
            .into_iter()
            .map(|name| RemoteTool { name, description: None, input_schema: None })
            .collect();
        builder.connected(&planned, Ok(found)).unwrap();
    }
    assert_eq!(urls, ["http://one", "http://two"]);
    assert_eq!(tool_names(&builder.build()), ["shown"]);
}

fn reply(text: &str) -> StreamResponse {
    StreamResponse {
        message: Message::text("assistant", text.to_string()),
        usage: TokenUsage::zero(),
        stop_reason: Some("stop".to_string()),
    }
}

fn user_msg(text: &str) -> Message {
    Message::text("user", text.to_string())
}

#[test]
fn build_then_prompt_runs_one_turn() {
    let mut agent = builder().build();
    let (mut run, mut action) = AgentRun::prompt(agent.state, names_of(&["p"]), user_msg("hi"));
    let mut chunk = None;
    let outcome = loop {
        let event = match action {
            Action::Hook(call) => Event::Hooked(agent.extension.handle(call)),
            Action::Append(_) => Event::Appended(Ok(())),
            Action::Stream { .. } => {
                chunk = Some(reply("hello there"));
                Event::Opened(Ok(()))
            }
            Action::NextChunk => Event::Chunk(chunk.take()),
            Action::Execute { .. } => unreachable!(),
            Action::Finish(outcome) => break outcome,
        };
        assert!(run.accepts(&event));
        action = run.step(event);
    };
    outcome.unwrap();
    let last_role = run.state.session.last().map(|m| m.role.clone());
    assert_eq!(last_role.as_deref(), Some("assistant"));
}

#[test]
fn bind_io_returns_drivable_agent_and_channels() {
    let built = builder().bind_io().build();
    assert_eq!(built.extension.name(), "io");

    let mut extension = built.extension;
    if let AgentExtension::Io(io) = &mut extension.chain.extensions[0] {
        io.inbox.push(user_msg("again"));
    }
    let (mut run, mut action) = AgentRun::prompt(built.state, names_of(&["p"]), user_msg("hello"));
    let mut chunk = None;
    loop {
        let event = match action {
            Action::Hook(call) => Event::Hooked(extension.handle(call)),
            Action::Append(_) => Event::Appended(Ok(())),
            Action::Stream { .. } => {
                chunk = Some(reply("reply"));
                Event::Opened(Ok(()))
            }
            Action::NextChunk => Event::Chunk(chunk.take()),
            Action::Execute { .. } => unreachable!(),
            Action::Finish(_) => break,
        };
        assert!(run.accepts(&event));
        action = run.step(event);
    }
    let io = match &extension.chain.extensions[0] {
        AgentExtension::Io(io) => io,
        _ => unreachable!(),
    };
    for turn in [0, 2] {
        match &io.outbox[turn] {
            OutputEvent::Append(ContentBlock::Text(t)) => assert_eq!(t.content, "reply"),
            _ => panic!("expected Append(Text)"),
        }
        assert!(matches!(io.outbox[turn + 1], OutputEvent::Finish), "the turn finishes");
    }
}

fn skill(name: &str, allowed: &str) -> SkillDir {
    SkillDir {
        path: format!("/skills/{name}"),
        name: name.to_string(),
        content: Ok(format!(
            "---\nname: {name}\ndescription: d\nallowed-tools: \"{allowed}\"\n---\ngo\n"
        )),
    }
}

#[test]
fn a_skill_of_one_directory_does_not_reach_a_skill_of_another() {
    let mut builder = builder().tool(stub("search"));
    let base = builder.pool.clone();
    let mut pools = Vec::new();
    for dir in [skill("one", "search"), skill("two", "search one")] {
        let (found, _) = discover(&vec![dir]);
        let found = found.into_iter().map(|s| (s, Err("no schema file".to_string()))).collect();
        let (ready, warnings) = builder.skills(&base, found);
        assert!(warnings.is_empty());
        pools.push(ready[0].subagent.tools().definitions().len());
    }
    assert_eq!(pools, [1, 1], "`two` gets `search` and not `one`");
    assert!(builder.pool.get("one").is_some() && builder.pool.get("two").is_some());
}
