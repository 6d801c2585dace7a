use akasha::cli::{data_dir, db_path, default_model, join_path, Cli};
use akasha::json::Json;
use akasha::lines::{lines, words};
use akasha::names::NameMap;
use akasha::params::{parameters, text_parameter};

#[test]
fn json_reads_back_what_it_writes() {
    for text in [
        "null",
        "true",
        "18446744073709551615",
        "-9223372036854775808",
        "1.5",
        r#""a\"b\n""#,
        "[1,[],{}]",
        r#"{"a":{"b":[null]},"c":"d"}"#,
    ] {
        let value = Json::parse(text).unwrap();
        assert_eq!(value.text(), text);
        assert_eq!(Json::parse(&value.text()).unwrap(), value);
    }
    assert!(Json::parse("{").is_err());
    assert!(Json::parse("").is_err());
}

#[test]
fn members_of_objects() {
    let value = Json::parse(r#"{"a": 1, "b": "x"}"#).unwrap();
    assert_eq!(value.number_at("a"), 1);
    assert_eq!(value.number_at("b"), 0);
    assert_eq!(value.text_at("b").as_deref(), Some("x"));
    assert_eq!(value.text_at("a"), None);
    assert_eq!(value.get("c"), None);
    assert!(value.is_object());
    let replaced = value.clone().with("a", Json::Null);
    assert_eq!(replaced.text(), r#"{"a":null,"b":"x"}"#);
    assert_eq!(value.without("a").text(), r#"{"b":"x"}"#);
    assert_eq!(Json::UInt(1).with("a", Json::Null), Json::UInt(1));
    assert_eq!(Json::Null.members(), None);
}

#[test]
fn names_are_kept_once() {
    let mut map: NameMap<u8> = NameMap::new();
    map.insert("a".to_string(), 1);
    map.insert("b".to_string(), 2);
    map.insert("a".to_string(), 3);
    assert_eq!(map.len(), 2);
    assert_eq!(map.get("a"), Some(&3));
    assert_eq!(map.remove("a"), Some(3));
    assert_eq!(map.remove("a"), None);
    map.clear();
    assert!(!map.contains("b"));
}

#[test]
fn lines_and_words_as_std_has_them() {
    for text in ["", "a", "a\n", "a\r\nb\n\nc", "\n", "a\rb", "\r\n\r\n"] {
        assert_eq!(lines(text), text.lines().collect::<Vec<_>>(), "{text:?}");
    }
    for text in ["", "  ", "a", " a  b\tc\n", "\u{a0}x\u{3000}y"] {
        assert_eq!(words(text), text.split_whitespace().collect::<Vec<_>>(), "{text:?}");
    }
}

#[test]
fn declared_parameters() {
    let schema = parameters(
        vec![("id".to_string(), text_parameter("An id."))],
        &vec!["id".to_string()],
    );
    assert_eq!(
        schema.text(),
        r#"{"properties":{"id":{"description":"An id.","type":"string"}},"required":["id"],"type":"object"}"#
    );
}

fn cli() -> Cli {
    Cli {
        telegram_token: "t".to_string(),
        provider: None,
        api_key: None,
        base_url: None,
        allowed_ids: vec![1],
        mcps: None,
        deepseek: Some("k".to_string()),
    }
}

#[test]
fn the_short_form_names_a_provider() {
    let resolved = cli().resolve();
    assert_eq!(resolved.provider.as_deref(), Some("deepseek"));
    assert_eq!(resolved.api_key.as_deref(), Some("k"));
    let mut named = cli();
    named.provider = Some("other".to_string());
    assert_eq!(named.resolve().provider.as_deref(), Some("other"));
}

#[test]
fn where_data_is_kept() {
    let some = |s: &str| Some(s.to_string());
    assert_eq!(data_dir(some("/data"), some("/home/u")), "/data/akasha");
    assert_eq!(data_dir(some(""), some("/home/u")), "/home/u/.local/share/akasha");
    assert_eq!(data_dir(None, None), "./.local/share/akasha");
    assert_eq!(db_path("/d", 42), "/d/db/42.db");
    assert_eq!(join_path("/d/", "x"), "/d/x");
}

#[test]
fn the_model_that_is_asked_by_default() {
    let model = default_model("deepseek".to_string(), None);
    assert_eq!(model.id, "deepseek-v4-pro");
    assert_eq!(model.context_window, 384000);
    assert_eq!(model.base_url, "");
    assert_eq!(model.headers, [("reasoning_effort".to_string(), "max".to_string())]);
}
