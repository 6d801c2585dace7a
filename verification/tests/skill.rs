use std::collections::VecDeque;

use akasha::agent::{Action, AgentRun, Event};
use akasha::extensions::{AgentState, Extension};
use akasha::forks::SessionAdapter;
use akasha::json::Json;
use akasha::providers::{Model, StreamResponse};
use akasha::session::InMemorySession;
use akasha::skill::{
    default_input_schema, discover, parse, register, split_frontmatter, ParsedSkill, SkillDir,
    SkillError, SkillTool,
};
use akasha::subagent::{chain, Subagent, SubagentTool, YieldTool};
use akasha::tools::{ToolRegistry, ToolSpec};
use akasha::types::{
    ContentBlock, Message, TokenUsage, ToolCall, ToolDefinition, ToolResult, ToolResultContent,
};

fn json(text: &str) -> Json {
    Json::parse(text).unwrap()
}

fn str_at<'a>(value: &'a Json, path: &[&str]) -> Option<&'a str> {
    let mut at = value;
    for key in path {
        at = match key.parse::<usize>() {
            Ok(i) => at.items()?.get(i)?,
            Err(_) => at.get(key)?,
        };
    }
    at.as_str()
}

fn stub(name: &str) -> ToolSpec {
    ToolSpec {
        definition: ToolDefinition {
            name: name.to_string(),
            description: "stub".to_string(),
            parameters: json(r#"{ "type": "object" }"#),
        },
        output: None,
    }
}

fn base_tools() -> ToolRegistry {
    let mut tools = ToolRegistry::new();
    for name in ["a", "b", "c"] {
        tools.register(stub(name));
    }
    tools
}

fn model() -> Model {
    Model {
        id: "m".to_string(),
        provider: "p".to_string(),
        context_window: 0,
        base_url: String::new(),
        headers: Vec::new(),
    }
}

fn no_text() -> Result<String, String> {
    Err("no such file".to_string())
}

/// A skill, with the text of its schema file where it names one.
fn make_skill(
    name: &str,
    allowed: Option<&str>,
    schema_json: Option<&str>,
) -> (ParsedSkill, Result<String, String>) {
    let mut src = format!("---\nname: {name}\ndescription: a test skill\n");
    if let Some(a) = allowed {
        src.push_str(&format!("allowed-tools: \"{a}\"\n"));
    }
    if schema_json.is_some() {
        src.push_str("schema: schema.json\n");
    }
    src.push_str("---\n## Instructions\nDo the thing.\n");
    let (frontmatter, body) = parse(&src).unwrap();
    let text = schema_json.map(str::to_string).ok_or("no such file".to_string());
    (ParsedSkill { frontmatter, dir: "/skills/s".to_string(), body }, text)
}

fn skill_tool(made: (ParsedSkill, Result<String, String>)) -> SkillTool {
    SkillTool::new(base_tools(), made.0, made.1).unwrap()
}

fn tool_call(name: &str, arguments: Json) -> Message {
    Message {
        role: "assistant".to_string(),
        content: vec![ContentBlock::ToolCall(ToolCall {
            id: "call".to_string(),
            name: name.to_string(),
            arguments,
        })],
    }
}

/// Drives a skill to its end, and hands back the result and the tools that were offered.
fn run(
    made: (ParsedSkill, Result<String, String>),
    turns: Vec<Message>,
    params: Json,
) -> (ToolResult, Vec<Vec<ToolDefinition>>) {
    let mut turns: VecDeque<Message> = turns.into();
    let mut seen = Vec::new();
    let mut manager = SessionAdapter::new(InMemorySession::new());
    let tool = SubagentTool::new(skill_tool(made));
    let planned = tool.prepare(&mut manager, params).unwrap();
    let mut ext = chain();
    let state = AgentState {
        model: model(),
        tools: planned.tools,
        session: manager.get(&planned.id).unwrap().messages().clone(),
    };
    let (mut run, mut action) = AgentRun::prompt(state, vec!["p".to_string()], planned.prompt);
    let mut chunk = None;
    let outcome = loop {
        let event = match action {
            Action::Hook(call) => Event::Hooked(ext.handle(call)),
            Action::Append(message) => Event::Appended(manager.append_to(&planned.id, message)),
            Action::Stream { tools, .. } => {
                seen.push(tools);
                let message =
                    turns.pop_front().unwrap_or_else(|| Message::text("assistant", String::new()));
                chunk = Some(StreamResponse {
                    message,
                    usage: TokenUsage::zero(),
                    stop_reason: Some("stop".to_string()),
                });
                Event::Opened(Ok(()))
            }
            Action::NextChunk => Event::Chunk(chunk.take()),
            Action::Execute { arguments, .. } => {
                Event::Executed(Ok(YieldTool::execute(&mut ext.b.b.yielded, arguments)))
            }
            Action::Finish(outcome) => break outcome,
        };
        assert!(run.accepts(&event));
        action = run.step(event);
    };
    (SubagentTool::<SkillTool>::report(&planned.id, ext.b.b.yielded.take(), outcome), seen)
}

fn text_of(result: &ToolResult) -> String {
    result
        .content
        .iter()
        .filter_map(|c| match c {
            ToolResultContent::Text(t) => Some(t.content.clone()),
            _ => None,
        })
        .collect::<Vec<_>>()
        .join("")
}

fn block_text(block: &ContentBlock) -> &str {
    match block {
        ContentBlock::Text(t) => &t.content,
        _ => panic!("expected text"),
    }
}

#[test]
fn tools_subset_filters_to_allowed() {
    let tool = skill_tool(make_skill("s", Some("a c"), None));
    let mut names: Vec<String> = tool.tools().definitions().into_iter().map(|d| d.name).collect();
    names.sort();
    assert_eq!(names, vec!["a".to_string(), "c".to_string()]);
}

#[test]
fn tools_absent_allowed_is_empty() {
    let tool = skill_tool(make_skill("s", None, None));
    assert!(tool.tools().definitions().is_empty(), "no allowed-tools ⇒ deny-all base");
}

#[test]
fn seed_fresh_includes_body_and_reminder() {
    let tool = skill_tool(make_skill("s", None, None));
    let blocks = tool.seed(&json(r#"{"input": "go"}"#), false).unwrap();
    assert_eq!(blocks.len(), 3, "fresh seed = body + input + reminder");
    assert!(
        block_text(&blocks[0]).contains("Do the thing"),
        "fresh seed starts with the instruction body"
    );
    let reminder = block_text(&blocks[2]);
    assert!(reminder.contains("yield tool"), "seed reminds the model to use the yield tool");
}

#[test]
fn seed_resume_omits_body() {
    let tool = skill_tool(make_skill("s", None, None));
    let blocks = tool.seed(&json(r#"{"input": "again"}"#), true).unwrap();
    assert_eq!(blocks.len(), 2, "resume seed = input + reminder only");
    assert!(!blocks.iter().any(|b| block_text(b).contains("Do the thing")));
}

#[test]
fn input_schema_surfaces_in_definition() {
    let tool = skill_tool(make_skill(
        "s",
        None,
        Some(r#"{"inputSchema":{"type":"object","properties":{"path":{"type":"string"}},"required":["path"]}}"#),
    ));
    let params = tool.definition().parameters;
    assert_eq!(str_at(&params, &["properties", "path", "type"]), Some("string"));
    assert_eq!(str_at(&params, &["required", "0"]), Some("path"));
}

const OUT_SCHEMA: &str =
    r#"{"outputSchema":{"type":"object","properties":{"x":{"type":"integer"}},"required":["x"]}}"#;

#[test]
fn output_schema_surfaces() {
    let tool = skill_tool(make_skill("s", None, Some(OUT_SCHEMA)));
    let (_, output) = tool.schema();
    let output = output.expect("output schema is declared");
    assert_eq!(str_at(&output, &["required", "0"]), Some("x"));
}

#[test]
fn engine_drives_skill_and_captures_yield() {
    let (result, seen) = run(
        make_skill("s", Some("a"), None),
        vec![tool_call("akasha_subagent_yield", json(r#"{"result": "the answer"}"#))],
        json(r#"{"input": "go"}"#),
    );
    assert!(!result.is_error);
    let parsed = Json::parse(&text_of(&result)).expect("result is JSON");
    assert_eq!(str_at(&parsed, &["result"]), Some("the answer"));
    assert!(str_at(&parsed, &["session_id"]).is_some(), "engine stamps a session_id");
    assert!(seen.iter().any(|defs| defs.iter().any(|d| d.name == "a")));
    assert!(seen.iter().any(|defs| defs.iter().any(|d| d.name == "akasha_subagent_yield")));
}

#[test]
fn engine_enforces_output_schema() {
    let (result, _) = run(
        make_skill("s", None, Some(OUT_SCHEMA)),
        vec![
            tool_call("akasha_subagent_yield", json(r#"{"x": "not-an-int"}"#)),
            tool_call("akasha_subagent_yield", json(r#"{"x": 7}"#)),
        ],
        json(r#"{"input": "go"}"#),
    );
    assert!(!result.is_error);
    let parsed = Json::parse(&text_of(&result)).expect("result is JSON");
    assert_eq!(parsed.get("x").and_then(|v| v.as_u64()), Some(7));
}

#[test]
fn registers_each_skill_as_a_named_tool() {
    let (found, warnings) = discover(&vec![SkillDir {
        path: "/skills/alpha".to_string(),
        name: "alpha".to_string(),
        content: Ok("---\nname: alpha\ndescription: alpha skill\n---\nbody\n".to_string()),
    }]);
    assert!(warnings.is_empty());
    let mut registry = ToolRegistry::new();
    for skill in found {
        register(&mut registry, &base_tools(), skill, no_text()).unwrap();
    }

    assert!(registry.get("alpha").is_some());
    assert_eq!(registry.get("alpha").unwrap().definition.name, "alpha");
}

#[test]
fn parses_minimal_frontmatter() {
    let (fm, body) = parse("---\nname: my-skill\ndescription: does a thing\n---\nbody text\n").unwrap();
    assert_eq!(fm.name, "my-skill");
    assert_eq!(fm.description, "does a thing");
    assert!(fm.allowed_tools.is_empty());
    assert!(fm.metadata.is_empty());
    assert_eq!(body, "body text");
}

#[test]
fn parses_folded_description() {
    let src = "---\nname: fold\ndescription: >\n  one line\n  another line\n---\n";
    let (fm, _) = parse(src).unwrap();
    assert_eq!(fm.description, "one line another line\n");
}

#[test]
fn parses_allowed_tools_as_scalar() {
    let (fm, _) = parse("---\nname: s\ndescription: d\nallowed-tools: \"a b c\"\n---\n").unwrap();
    assert_eq!(fm.allowed_tools, vec!["a", "b", "c"]);
}

#[test]
fn parses_allowed_tools_as_sequence() {
    let (fm, _) = parse("---\nname: s\ndescription: d\nallowed-tools:\n  - a\n  - c\n---\n").unwrap();
    assert_eq!(fm.allowed_tools, vec!["a", "c"]);
}

#[test]
fn parses_metadata_map() {
    let (fm, _) =
        parse("---\nname: s\ndescription: d\nmetadata:\n  author: alice\n  version: \"2\"\n---\n").unwrap();
    let at = |key: &str| fm.metadata.iter().find(|m| m.0 == key).map(|m| m.1.as_str());
    assert_eq!(at("author"), Some("alice"));
    assert_eq!(at("version"), Some("2"));
}

#[test]
fn rejects_missing_closing_fence() {
    let err = parse("---\nname: s\ndescription: d\nbody without close").unwrap_err();
    assert!(matches!(err, SkillError::Parse(_)));
}

#[test]
fn rejects_missing_name() {
    let err = parse("---\ndescription: d\n---\n").unwrap_err();
    assert!(matches!(err, SkillError::Parse(_)));
}

#[test]
fn rejects_empty_description() {
    let err = parse("---\nname: s\ndescription: \"\"\n---\n").unwrap_err();
    assert!(matches!(err, SkillError::Invalid { .. }));
}

#[test]
fn discover_missing_dir_is_empty() {
    let (skills, warnings) = discover(&Vec::new());
    assert!(skills.is_empty());
    assert!(warnings.is_empty());
}

#[test]
fn parses_schema_path() {
    let (fm, _) = parse("---\nname: s\ndescription: d\nschema: schema.json\n---\n").unwrap();
    assert_eq!(fm.schema.as_deref(), Some("schema.json"));
}

fn skill_with_schema(schema: Option<&str>) -> ParsedSkill {
    let fm_src = match schema {
        Some(p) => format!("---\nname: s\ndescription: d\nschema: {p}\n---\n"),
        None => "---\nname: s\ndescription: d\n---\n".to_string(),
    };
    let (frontmatter, body) = parse(&fm_src).unwrap();
    ParsedSkill { frontmatter, dir: "/nowhere".to_string(), body }
}

#[test]
fn resolve_schema_extracts_input_output() {
    let file = r#"{"inputSchema":{"type":"object","properties":{"x":{"type":"integer"}}},"outputSchema":{"type":"object","required":["y"]}}"#;
    let (input, output) =
        skill_with_schema(Some("schema.json")).resolve_schema(Ok(file.to_string())).unwrap();
    assert_eq!(str_at(&input, &["properties", "x", "type"]), Some("integer"));
    assert_eq!(str_at(&output.unwrap(), &["required", "0"]), Some("y"));
}

#[test]
fn resolve_schema_allows_input_only() {
    let file = r#"{"inputSchema":{"type":"object","required":["a"]}}"#;
    let (input, output) =
        skill_with_schema(Some("schema.json")).resolve_schema(Ok(file.to_string())).unwrap();
    assert_eq!(str_at(&input, &["required", "0"]), Some("a"));
    assert!(output.is_none());
}

#[test]
fn resolve_schema_rejects_non_object_file() {
    let err = skill_with_schema(Some("schema.json"))
        .resolve_schema(Ok("[1, 2, 3]".to_string()))
        .unwrap_err();
    assert!(matches!(err, SkillError::Invalid { .. }));
}

#[test]
fn resolve_schema_rejects_non_object_subschema() {
    let err = skill_with_schema(Some("schema.json"))
        .resolve_schema(Ok(r#"{"inputSchema":"not-an-object"}"#.to_string()))
        .unwrap_err();
    assert!(matches!(err, SkillError::Invalid { .. }));
}

#[test]
fn resolve_schema_missing_file_is_parse_error() {
    let err = skill_with_schema(Some("nope.json")).resolve_schema(no_text()).unwrap_err();
    assert!(matches!(err, SkillError::Parse(_)));
}

#[test]
fn resolve_schema_defaults_when_no_schema_file() {
    let (input, output) = skill_with_schema(None).resolve_schema(no_text()).unwrap();
    assert_eq!(input, default_input_schema());
    assert!(output.is_none());
}

#[test]
fn skills_that_cannot_be_read_are_skipped_with_a_warning() {
    let (skills, warnings) = discover(&vec![
        SkillDir {
            path: "/s/one".to_string(),
            name: "one".to_string(),
            content: Ok("---\nname: other\ndescription: d\n---\n".to_string()),
        },
        SkillDir {
            path: "/s/two".to_string(),
            name: "two".to_string(),
            content: Ok("---\nname: two\ndescription: d\n---\nB\n".to_string()),
        },
        SkillDir {
            path: "/s/three".to_string(),
            name: "three".to_string(),
            content: Ok("no frontmatter".to_string()),
        },
    ]);
    assert_eq!(skills.iter().map(|s| s.frontmatter.name.as_str()).collect::<Vec<_>>(), ["two"]);
    assert_eq!(skills[0].dir, "/s/two");
    assert_eq!(warnings.len(), 2);
    assert!(warnings[0].contains("/s/one"));
}

#[test]
fn frontmatter_is_split_from_the_body() {
    assert_eq!(
        split_frontmatter("---\na: b\n---\nx\ny\n"),
        Some(("a: b".to_string(), "x\ny".to_string()))
    );
    assert_eq!(split_frontmatter("a: b\n---\n"), None);
    assert_eq!(split_frontmatter("---\na: b\n"), None);
}

#[test]
fn errors_of_skills_in_words() {
    assert_eq!(SkillError::Parse("p".to_string()).words(), "parse error: p");
    assert_eq!(SkillError::Io("i".to_string()).words(), "io error: i");
    assert_eq!(
        SkillError::Invalid { name: "n".to_string(), reason: "r".to_string() }.words(),
        "invalid skill 'n': r"
    );
    assert!(parse("---\nname: [1\n---\n").is_err(), "broken YAML");
}

#[test]
fn a_tag_is_no_part_of_a_text() {
    let refused = |head: &str| match parse(&format!("---\n{head}\n---\n")) {
        Err(e) => e.words(),
        Ok(_) => panic!("expected the head to be refused"),
    };
    assert_eq!(
        refused("name: !x s\ndescription: d"),
        "parse error: invalid frontmatter: invalid type: `name`, expected a string"
    );
    assert_eq!(
        refused("name: s\ndescription: d\nlicense: !x MIT"),
        "parse error: invalid frontmatter: invalid type: `license`, expected a string"
    );
    assert_eq!(
        refused("name: s\ndescription: d\nmetadata:\n  k: !x v"),
        "parse error: invalid frontmatter: invalid type: `metadata`, expected a map of strings"
    );
}

#[test]
fn tags_before_lists_and_mappings_do_not_count() {
    let (fm, _) = parse(
        "---\nname: s\ndescription: d\nallowed-tools: !x [!y a, b]\nmetadata: !z {k: v}\n---\n",
    )
    .unwrap();
    assert_eq!(fm.allowed_tools, ["a", "b"]);
    assert_eq!(fm.metadata, [("k".to_string(), "v".to_string())]);
}
