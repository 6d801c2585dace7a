use std::collections::HashMap;

use akasha::forks::{poison, SessionAdapter, SessionManager};
use akasha::json::Json;
use akasha::session::{InMemorySession, Said, Session, SessionError};
use akasha::sqlite::{
    found_ref, range_definition, ChainLoader, MessageRange, SqliteSession,
};
use akasha::tools::ToolError;
use akasha::text::signed_text;
use akasha::types::{ContentBlock, Message, TextContent};

fn text_msg(role: &str, content: &str) -> Message {
    Message {
        role: role.to_string(),
        content: vec![ContentBlock::Text(TextContent { content: content.to_string() })],
    }
}

fn roles(messages: &[Message]) -> Vec<String> {
    messages.iter().map(|m| m.role.clone()).collect()
}

fn last_text(messages: &[Message]) -> Option<String> {
    messages.last().and_then(|m| {
        m.content.iter().find_map(|b| match b {
            ContentBlock::Text(t) => Some(t.content.clone()),
            _ => None,
        })
    })
}

#[test]
fn adapter_is_its_main_session() {
    let mut mgr = SessionAdapter::new(InMemorySession::new());
    mgr.append(text_msg("user", "hello")).unwrap();
    mgr.append(text_msg("assistant", "hi")).unwrap();
    assert_eq!(roles(mgr.messages()), vec!["user".to_string(), "assistant".to_string()]);
}

#[test]
fn dyn_session_manager_coerces_to_dyn_session() {
    fn as_session(m: &mut SessionAdapter) -> &mut SessionAdapter {
        m
    }
    let mut mgr = SessionAdapter::new(InMemorySession::new());
    as_session(&mut mgr).append(text_msg("user", "ok")).unwrap();
    assert_eq!(roles(mgr.messages()), ["user"]);
}

#[test]
fn adapter_fork_returns_a_session_with_messages() {
    let mut main = InMemorySession::new();
    main.append(text_msg("user", "hello")).unwrap();
    main.append(text_msg("assistant", "hi")).unwrap();

    let mut mgr = SessionAdapter::new(main);
    let id = mgr.fork().unwrap();
    let forked = mgr.get(&id).unwrap();
    assert_eq!(roles(forked.messages()), vec!["user".to_string(), "assistant".to_string()]);
}

#[test]
fn adapter_fork_is_independent_from_main() {
    let mut main = InMemorySession::new();
    main.append(text_msg("user", "hello")).unwrap();

    let mut mgr = SessionAdapter::new(main);
    let id = mgr.fork().unwrap();

    mgr.append(text_msg("user", "main-only")).unwrap();
    mgr.append_to(&id, text_msg("user", "fork-only")).unwrap();

    let forked = mgr.get(&id).unwrap();
    assert_eq!(roles(mgr.messages()), vec!["user".to_string(), "user".to_string()]);
    assert_eq!(roles(forked.messages()), vec!["user".to_string(), "user".to_string()]);
    assert_ne!(last_text(mgr.messages()).as_deref(), Some("fork-only"));
    assert_ne!(last_text(forked.messages()).as_deref(), Some("main-only"));
}

#[test]
fn adapter_get_retrieves_a_fork() {
    let mut main = InMemorySession::new();
    main.append(text_msg("user", "hello")).unwrap();
    main.append(text_msg("assistant", "hi")).unwrap();

    let mut mgr = SessionAdapter::new(main);
    let id = mgr.fork().unwrap();
    let got = mgr.get(&id).unwrap();
    assert_eq!(roles(got.messages()), vec!["user".to_string(), "assistant".to_string()]);
}

#[test]
fn adapter_fork_appends_are_live_across_gets() {
    let mut main = InMemorySession::new();
    main.append(text_msg("user", "hello")).unwrap();

    let mut mgr = SessionAdapter::new(main);
    let id = mgr.fork().unwrap();
    mgr.append_to(&id, text_msg("assistant", "fork-only")).unwrap();

    let got = mgr.get(&id).unwrap();
    assert_eq!(roles(got.messages()), vec!["user".to_string(), "assistant".to_string()]);
}

#[test]
fn adapter_get_unknown_errors() {
    let mgr = SessionAdapter::new(InMemorySession::new());
    let err = mgr.get("nope").err().expect("unknown fork should error");
    assert!(matches!(err, SessionError::Failed { .. }));
}

#[test]
fn two_forks_do_not_see_each_other() {
    let mut mgr = SessionAdapter::new(InMemorySession::new());
    let a = mgr.fork().unwrap();
    let b = mgr.fork().unwrap();
    assert_ne!(a, b);
    mgr.append_to(&a, text_msg("user", "x")).unwrap();
    assert_eq!(mgr.get(&a).unwrap().messages().len(), 1);
    assert_eq!(mgr.get(&b).unwrap().messages().len(), 0);
    assert!(mgr.append_to("nope", text_msg("user", "x")).is_err());
    assert!(matches!(poison(), SessionError::Failed { .. }));
}

/// The two tables of a database, as rows in memory.
#[derive(Default)]
struct Db {
    cards: HashMap<i64, (Message, Option<i64>)>,
    refs: HashMap<String, i64>,
}

impl Db {
    fn row(&self, id: i64) -> Result<(Message, Option<i64>), String> {
        self.cards
            .get(&id)
            .map(|(m, p)| (m.clone(), *p))
            .ok_or("Query returned no rows".to_string())
    }

    fn chain(&self, tail: Option<i64>) -> Result<Vec<Message>, SessionError> {
        let mut loader = ChainLoader::new(tail);
        while let Some(id) = loader.wanted() {
            loader.read(self.row(id))?;
        }
        Ok(loader.finish())
    }

    fn open(&self, name: &str) -> SqliteSession {
        let tail = self.refs.get(name).copied();
        SqliteSession::new(name, tail, self.chain(tail).unwrap())
    }

    fn append(&mut self, session: &mut SqliteSession, message: Message) {
        let id = self.cards.len() as i64 + 1;
        self.cards.insert(id, (message.clone(), session.tail_id()));
        if let Some(name) = session.ref_name() {
            self.refs.insert(name, id);
        }
        session.append(Ok(id), message).unwrap();
    }

    fn fork(&mut self, session: &SqliteSession, name: &str) -> SqliteSession {
        let (pin, forked) = session.fork(name);
        if let Some(id) = pin {
            self.refs.insert(name.to_string(), id);
        }
        forked
    }

    fn get(&self, name: &str) -> Result<SqliteSession, SessionError> {
        let tail = found_ref(name, Ok(self.refs.get(name).copied()))?;
        Ok(SqliteSession::new(name, Some(tail), self.chain(Some(tail))?))
    }
}

#[test]
fn sqlite_is_its_main_session() {
    let mut db = Db::default();
    let mut s = db.open("main");
    db.append(&mut s, text_msg("user", "hello"));
    assert_eq!(roles(s.messages()), vec!["user".to_string()]);
}

#[test]
fn sqlite_fork_returns_a_session_with_messages() {
    let mut db = Db::default();
    let mut s = db.open("main");
    db.append(&mut s, text_msg("user", "hello"));
    db.append(&mut s, text_msg("assistant", "hi"));

    let forked = db.fork(&s, "fork");
    assert_eq!(roles(forked.messages()), vec!["user".to_string(), "assistant".to_string()]);
}

#[test]
fn sqlite_fork_is_independent_from_main() {
    let mut db = Db::default();
    let mut s = db.open("main");
    db.append(&mut s, text_msg("user", "hello"));

    let forked = db.fork(&s, "fork");
    db.append(&mut s, text_msg("user", "main-only"));

    assert_eq!(roles(s.messages()), vec!["user".to_string(), "user".to_string()]);
    assert_eq!(roles(forked.messages()), vec!["user".to_string()]);
}

#[test]
fn sqlite_get_reopens_a_fork() {
    let mut db = Db::default();
    let mut s = db.open("main");
    db.append(&mut s, text_msg("user", "hello"));
    db.append(&mut s, text_msg("assistant", "hi"));

    db.fork(&s, "fork");
    let got = db.get("fork").unwrap();
    assert_eq!(roles(got.messages()), vec!["user".to_string(), "assistant".to_string()]);
}

#[test]
fn sqlite_get_unknown_errors() {
    let db = Db::default();
    let err = db.get("nope").err().expect("unknown fork should error");
    assert!(matches!(err, SessionError::Failed { .. }));
}

#[test]
fn empty_session() {
    let s = Db::default().open("test");
    assert!(s.messages().first().is_none());
}

#[test]
fn append_and_messages() {
    let mut db = Db::default();
    let mut s = db.open("test");
    db.append(&mut s, text_msg("user", "hello"));
    db.append(&mut s, text_msg("assistant", "hi"));
    db.append(&mut s, text_msg("user", "how are you"));
    let ctx = s.messages();
    assert_eq!(ctx.len(), 3);
    assert_eq!(ctx[0].role, "user");
    assert_eq!(ctx[1].role, "assistant");
    assert_eq!(ctx[2].role, "user");
}

#[test]
fn open_reloads_chain() {
    let mut db = Db::default();
    let mut s = db.open("conv1");
    db.append(&mut s, text_msg("user", "hello"));
    db.append(&mut s, text_msg("assistant", "hi"));
    drop(s);

    let loaded = db.open("conv1");
    let ctx = loaded.messages();
    assert_eq!(ctx.len(), 2);
    assert_eq!(ctx[0].role, "user");
    assert_eq!(ctx[1].role, "assistant");
}

#[test]
fn fork_shares_parent_then_diverges() {
    let mut db = Db::default();
    let mut a = db.open("main");
    db.append(&mut a, text_msg("user", "hello"));
    db.append(&mut a, text_msg("assistant", "hi"));

    let mut b = db.fork(&a, "topic");
    assert_eq!(a.messages().len(), 2);
    assert_eq!(b.messages().len(), 2);

    db.append(&mut a, text_msg("user", "a-only"));
    db.append(&mut b, text_msg("user", "b-only"));

    let a_ctx = a.messages();
    let b_ctx = b.messages();
    assert_eq!(a_ctx.len(), 3);
    assert_eq!(b_ctx.len(), 3);
    assert_eq!(a_ctx[0].role, b_ctx[0].role);
    assert_eq!(a_ctx[1].role, b_ctx[1].role);
    assert_ne!(a_ctx[2].content, b_ctx[2].content);
}

#[test]
fn fork_persists_ref_for_reload() {
    let mut db = Db::default();
    {
        let mut a = db.open("main");
        db.append(&mut a, text_msg("user", "hello"));
        db.append(&mut a, text_msg("assistant", "hi"));
        let _ = db.fork(&a, "topic");
    }

    let loaded = db.open("topic");
    let ctx = loaded.messages();
    assert_eq!(ctx.len(), 2);
    assert_eq!(ctx[0].role, "user");
    assert_eq!(ctx[1].role, "assistant");
}

#[test]
fn fork_empty_session_diverges() {
    let mut db = Db::default();
    let a = db.open("main");
    let mut b = db.fork(&a, "topic");
    assert_eq!(b.messages().len(), 0);
    assert!(db.refs.is_empty(), "the name is written with the first message");

    db.append(&mut b, text_msg("user", "b-only"));
    assert_eq!(a.messages().len(), 0);
    assert_eq!(b.messages().len(), 1);
}

#[test]
fn get_returns_existing_ref() {
    let mut db = Db::default();
    let mut s = db.open("main");
    db.append(&mut s, text_msg("user", "hello"));
    db.append(&mut s, text_msg("assistant", "hi"));

    let loaded = db.get("main").unwrap();
    let ctx = loaded.messages();
    assert_eq!(ctx.len(), 2);
    assert_eq!(ctx[0].role, "user");
    assert_eq!(ctx[1].role, "assistant");
}

#[test]
fn get_errors_on_missing_ref() {
    let err = Db::default().get("nope").err().expect("get should error for a missing ref");
    assert!(matches!(err, SessionError::Failed { message } if message.contains("nope")));
}

#[test]
fn get_sees_latest_state_and_shares_connection() {
    let mut db = Db::default();
    let mut a = db.open("main");
    db.append(&mut a, text_msg("user", "hello"));
    db.fork(&a, "topic");

    let mut b = db.get("topic").unwrap();
    assert_eq!(b.messages().len(), 1);

    db.append(&mut b, text_msg("user", "b-only"));
    assert_eq!(b.messages().len(), 2);

    assert_eq!(a.messages().len(), 1);

    let c = db.get("topic").unwrap();
    assert_eq!(c.messages().len(), 2);
}

#[test]
fn what_cannot_be_stored_changes_nothing() {
    let mut s = Db::default().open("main");
    let err = s.append(Err("disk full".to_string()), text_msg("user", "x")).unwrap_err();
    assert_eq!(err, SessionError::Failed { message: "disk full".to_string() });
    assert!(s.messages().is_empty());
    assert_eq!(s.tail_id(), None);
    assert!(found_ref("r", Err("locked".to_string())).is_err());
    assert!(ChainLoader::new(Some(4)).read(Err("gone".to_string())).is_err());
}

fn append_messages(db: &mut Db, session: &mut SqliteSession, n: usize) -> Vec<i64> {
    let mut ids = Vec::new();
    for i in 0..n {
        db.append(session, text_msg("user", &format!("msg_{i}")));
        ids.push(session.tail_id().unwrap());
    }
    ids
}

fn asking(tail: i64, head: i64) -> Json {
    Json::parse(&format!("{{\"tail_id\": {tail}, \"head_id\": {head}}}")).unwrap()
}

/// Runs the range tool over the rows.
fn execute(db: &Db, params: &Json) -> Result<Vec<Message>, ToolError> {
    let range = MessageRange::of(params)?;
    let mut walk = range.iter(db.row(range.tail_id).map(|_| ()))?;
    while let Some(id) = walk.wanted() {
        walk.read(db.row(id).ok());
    }
    Ok(walk.finish().into_iter().map(|(_, m)| m).collect())
}

fn said(text: String) -> ContentBlock {
    ContentBlock::Text(TextContent { content: text })
}

#[test]
fn full_range() {
    let mut db = Db::default();
    let mut session = db.open("test");
    let ids = append_messages(&mut db, &mut session, 4);

    let msgs = execute(&db, &asking(ids[3], ids[0])).unwrap();
    assert_eq!(msgs.len(), 4);
    assert_eq!(msgs[0].role, "user");
    for (i, msg) in msgs.iter().enumerate() {
        assert_eq!(msg.content[0], said(format!("msg_{}", 3 - i)));
    }
}

#[test]
fn single_card_range() {
    let mut db = Db::default();
    let mut session = db.open("test");
    let ids = append_messages(&mut db, &mut session, 3);

    let msgs = execute(&db, &asking(ids[1], ids[1])).unwrap();
    assert_eq!(msgs.len(), 1);
    assert_eq!(msgs[0].content[0], said("msg_1".to_string()));
}

#[test]
fn subrange() {
    let mut db = Db::default();
    let mut session = db.open("test");
    let ids = append_messages(&mut db, &mut session, 5);

    let msgs = execute(&db, &asking(ids[4], ids[2])).unwrap();
    assert_eq!(msgs.len(), 3);
    for (i, msg) in msgs.iter().enumerate() {
        assert_eq!(msg.content[0], said(format!("msg_{}", 4 - i)));
    }
}

#[test]
fn nonexistent_tail_returns_error() {
    let err = execute(&Db::default(), &asking(9999, 1)).unwrap_err();
    match err {
        ToolError::Execution(msg) => assert!(msg.contains("card 9999 not found")),
        other => panic!("expected Execution error, got: {other:?}"),
    }
}

#[test]
fn invalid_params_returns_validation_error() {
    let err = execute(&Db::default(), &Json::parse(r#"{ "bogus": true }"#).unwrap()).unwrap_err();
    match err {
        ToolError::Validation(msg) => assert!(msg.contains("tail_id")),
        other => panic!("expected Validation error, got: {other:?}"),
    }
}

#[test]
fn ids_are_signed_and_bounded() {
    assert_eq!(signed_text(-42), "-42");
    assert_eq!(signed_text(0), "0");
    assert_eq!(signed_text(i64::MIN), "-9223372036854775808");
    let huge = Json::parse(r#"{"tail_id": 9223372036854775808, "head_id": 1}"#).unwrap();
    assert_eq!(refusal(&huge), "invalid value: integer `9223372036854775808`, expected i64");
    assert_eq!(MessageRange::of(&asking(-3, 7)).unwrap().tail_id, -3);
    assert_eq!(range_definition(Json::Null).name, "message_range");
}

#[test]
fn a_range_whose_head_is_missed_goes_to_the_start() {
    let mut db = Db::default();
    let mut session = db.open("test");
    let ids = append_messages(&mut db, &mut session, 3);
    assert_eq!(execute(&db, &asking(ids[2], 99)).unwrap().len(), 3);
}

fn refusal(params: &Json) -> String {
    match MessageRange::of(params) {
        Err(ToolError::Validation(why)) => why,
        other => panic!("expected Validation error, got: {other:?}"),
    }
}

#[test]
fn a_range_may_be_a_list() {
    let of = |text: &str| Json::parse(text).unwrap();
    let range = MessageRange::of(&of("[7, -2]")).unwrap();
    assert_eq!((range.tail_id, range.head_id), (7, -2));
    assert_eq!(
        refusal(&of("[]")),
        "invalid length 0, expected struct MessageRange with 2 elements"
    );
    assert_eq!(
        refusal(&of("[7]")),
        "invalid length 1, expected struct MessageRange with 2 elements"
    );
    assert_eq!(
        refusal(&of("[7, 2, 1]")),
        "invalid length 3, expected fewer elements in array"
    );
    assert_eq!(refusal(&of("[null, 2]")), "invalid type: null, expected i64");
}

#[test]
fn a_range_that_is_none_is_refused_in_words() {
    let of = |text: &str| Json::parse(text).unwrap();
    assert_eq!(refusal(&of("{}")), "missing field `tail_id`");
    assert_eq!(refusal(&of(r#"{"tail_id": 1}"#)), "missing field `head_id`");
    assert_eq!(
        refusal(&of(r#"{"tail_id": [], "head_id": true}"#)),
        "invalid type: boolean `true`, expected i64"
    );
    assert_eq!(
        refusal(&of(r#"{"tail_id": "a\"b", "head_id": 1}"#)),
        r#"invalid type: string "a\"b", expected i64"#
    );
    assert_eq!(
        refusal(&of(r#"{"tail_id": 1.5, "head_id": 1}"#)),
        "invalid type: floating point `1.5`, expected i64"
    );
    assert_eq!(
        refusal(&of("-3")),
        "invalid type: integer `-3`, expected struct MessageRange"
    );
}

/// Reads the fork of an id through any manager.
fn said_in<M: SessionManager>(manager: &M, id: &str) -> Vec<Message> {
    manager.get(id).unwrap()
}

#[test]
fn an_adapter_is_a_manager() {
    let mut mgr = SessionAdapter::new(InMemorySession::new());
    SessionManager::append(&mut mgr, Message::text("user", "main".to_string())).unwrap();
    let id = SessionManager::fork(&mut mgr).unwrap();
    SessionManager::append_to(&mut mgr, &id, Message::text("user", "fork".to_string())).unwrap();
    assert_eq!(said_in(&mgr, &id).len(), 2);
    assert_eq!(SessionManager::messages(&mgr).len(), 1);
}

/// A session that takes in nothing.
struct Closed(Vec<Message>);

impl Session for Closed {
    fn said(&self) -> Said {
        unreachable!()
    }

    fn willing(&self) -> bool {
        unreachable!()
    }

    fn append(&mut self, _: Message) -> Result<(), SessionError> {
        Err(SessionError::Failed { message: "closed".to_string() })
    }

    fn messages(&self) -> &Vec<Message> {
        &self.0
    }
}

#[test]
fn an_adapter_hands_on_what_its_main_session_refuses() {
    let mut mgr = SessionAdapter::new(Closed(vec![text_msg("user", "kept")]));
    let err = mgr.append(text_msg("user", "more")).unwrap_err();
    assert_eq!(err.words(), "session error: closed");
    assert_eq!(mgr.messages().len(), 1);
    let id = mgr.fork().unwrap();
    mgr.append_to(&id, text_msg("user", "forks live in memory")).unwrap();
    assert_eq!(mgr.get(&id).unwrap().messages().len(), 2);
}
