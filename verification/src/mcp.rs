//! Tools of other servers, over the Model Context Protocol: which servers there are, which of
//! their tools are taken in, and what their answers become.
use vstd::prelude::*;

use crate::json::{
    invalid_type, invalid_type_text, json_text, member_views, write_json, Json, JsonV,
};
use crate::params::{parameters, parameters_schema};
use crate::text::{
    concat2, concat3, decimal, decimal_text, ends_with, join, joined, lemma_ends_with, opt_view,
    pair_views, views,
};
use crate::tools::{
    contains_text, with_tool, ToolError, ToolErrorV, ToolRegistry, ToolSpec, ToolSpecV,
};
use crate::types::{
    text_result, ResultPartV, TextContent, ToolDefinition, ToolDefinitionV, ToolResult,
    ToolResultContent, ToolResultV,
};

verus! {

/// A server that is reached by its address.
#[derive(Debug, PartialEq)]
pub struct StreamableHttpConfig {
    pub url: String,
    /// What is sent along with every request.
    pub headers: Vec<(String, String)>,
    /// The tools that are taken in; all of them where none is named.
    pub allow: Vec<String>,
    /// The tools that are never taken in.
    pub deny: Vec<String>,
}

/// What a [`StreamableHttpConfig`] is.
#[verifier::ext_equal]
pub struct ServerV {
    pub url: Seq<char>,
    pub headers: Seq<(Seq<char>, Seq<char>)>,
    pub allow: Seq<Seq<char>>,
    pub deny: Seq<Seq<char>>,
}

impl View for StreamableHttpConfig {
    type V = ServerV;

    open spec fn view(&self) -> ServerV {
        ServerV {
            url: self.url@,
            headers: pair_views(self.headers@),
            allow: views(self.allow@),
            deny: views(self.deny@),
        }
    }
}

impl ServerV {
    /// A tool is taken in: it is not denied, and allowed where anything is.
    pub open spec fn allows(self, name: Seq<char>) -> bool {
        !self.deny.contains(name) && (self.allow.len() == 0 || self.allow.contains(name))
    }
}

impl StreamableHttpConfig {
    /// Whether a tool is taken in.
    pub fn is_tool_allowed(&self, name: &str) -> (r: bool)
        ensures
            r == self@.allows(name@),
    {
        if contains_text(&self.deny, name) {
            return false;
        }
        self.allow.len() == 0 || contains_text(&self.allow, name)
    }
}

/// To deny overrides to allow, and what is not denied is allowed where nothing is named.
pub proof fn law_deny_overrides_allow(server: ServerV, name: Seq<char>)
    ensures
        server.deny.contains(name) ==> !server.allows(name),
        server.allow.len() == 0 && server.deny.len() == 0 ==> server.allows(name),
        server.allow.len() > 0 && server.allows(name) ==> server.allow.contains(name),
{
}

/// A server as it is configured.
#[derive(Debug, PartialEq)]
pub enum ServerEntry {
    StreamableHttp(StreamableHttpConfig),
    /// What does not describe a server that can be reached.
    Unknown(Json),
}

/// What a [`ServerEntry`] is.
#[verifier::ext_equal]
pub enum EntryConfigV {
    StreamableHttp(ServerV),
    Unknown(JsonV),
}

impl View for ServerEntry {
    type V = EntryConfigV;

    open spec fn view(&self) -> EntryConfigV {
        match self {
            ServerEntry::StreamableHttp(c) => EntryConfigV::StreamableHttp(c@),
            ServerEntry::Unknown(v) => EntryConfigV::Unknown(v@),
        }
    }
}

/// Why a configuration is of no use.
#[derive(Debug, PartialEq)]
pub enum McpConfigError {
    UnsupportedTransport { transport: String },
    InvalidConfig { detail: String },
    Parse(String),
}

/// What a [`McpConfigError`] is.
#[verifier::ext_equal]
pub enum McpConfigErrorV {
    UnsupportedTransport { transport: Seq<char> },
    InvalidConfig { detail: Seq<char> },
    Parse(Seq<char>),
}

impl View for McpConfigError {
    type V = McpConfigErrorV;

    open spec fn view(&self) -> McpConfigErrorV {
        match self {
            McpConfigError::UnsupportedTransport { transport } =>
                McpConfigErrorV::UnsupportedTransport { transport: transport@ },
            McpConfigError::InvalidConfig { detail } => McpConfigErrorV::InvalidConfig {
                detail: detail@,
            },
            McpConfigError::Parse(m) => McpConfigErrorV::Parse(m@),
        }
    }
}

impl McpConfigErrorV {
    /// The error in words.
    pub open spec fn words(self) -> Seq<char> {
        match self {
            McpConfigErrorV::UnsupportedTransport { transport } => "unsupported transport '"@
                + transport + "'; only StreamableHttp (url-based) is supported"@,
            McpConfigErrorV::InvalidConfig { detail } => "invalid config: "@ + detail,
            McpConfigErrorV::Parse(m) => m,
        }
    }
}

impl McpConfigError {
    /// The error in words.
    pub fn words(&self) -> (r: String)
        ensures
            r@ == self@.words(),
    {
        match self {
            McpConfigError::UnsupportedTransport { transport } => concat3(
                "unsupported transport '",
                transport.as_str(),
                "'; only StreamableHttp (url-based) is supported",
            ),
            McpConfigError::InvalidConfig { detail } => concat2("invalid config: ", detail.as_str()),
            McpConfigError::Parse(m) => m.clone(),
        }
    }
}

impl ServerEntry {
    /// The server, where the entry describes one.
    pub fn into_config(self) -> (r: Result<StreamableHttpConfig, McpConfigError>)
        ensures
            match (self@, r) {
                (EntryConfigV::StreamableHttp(c), Ok(config)) => config@ == c,
                (EntryConfigV::Unknown(v), Err(e)) => e@ == (McpConfigErrorV::InvalidConfig {
                    detail: "unrecognised server config: "@ + json_text(v),
                }),
                _ => false,
            },
    {
        match self {
            ServerEntry::StreamableHttp(config) => Ok(config),
            ServerEntry::Unknown(v) => {
                let shown = write_json(&v);
                Err(
                    McpConfigError::InvalidConfig {
                        detail: concat2("unrecognised server config: ", shown.as_str()),
                    },
                )
            },
        }
    }
}

/// The texts of values, where all are texts.
pub open spec fn all_texts(items: Seq<JsonV>) -> Option<Seq<Seq<char>>>
    decreases items.len(),
{
    if items.len() == 0 {
        Some(Seq::empty())
    } else {
        match (all_texts(items.drop_last()), items.last()) {
            (Some(head), JsonV::Str(s)) => Some(head.push(s)),
            _ => None,
        }
    }
}

/// The members of an object, where all are texts.
pub open spec fn all_text_members(members: Seq<(Seq<char>, JsonV)>) -> Option<
    Seq<(Seq<char>, Seq<char>)>,
>
    decreases members.len(),
{
    if members.len() == 0 {
        Some(Seq::empty())
    } else {
        match (all_text_members(members.drop_last()), members.last().1) {
            (Some(head), JsonV::Str(s)) => Some(head.push((members.last().0, s))),
            _ => None,
        }
    }
}

/// The texts, where every value is one.
fn read_texts(items: &Vec<Json>) -> (r: Option<Vec<String>>)
    ensures
        match r {
            Some(names) => all_texts(views(items@)) == Some(views(names@)),
            None => all_texts(views(items@)) is None,
        },
{
    let ghost all = views(items@);
    let mut out: Vec<String> = Vec::new();
    let mut i: usize = 0;
    let mut fits = true;
    proof {
        assert(all.take(0) =~= Seq::empty());
        assert(views(out@) =~= Seq::empty());
    }
    while i < items.len()
        invariant
            i <= items@.len(),
            all == views(items@),
            fits ==> all_texts(all.take(i as int)) == Some(views(out@)),
            !fits ==> all_texts(all.take(i as int)) is None,
        decreases items@.len() - i,
    {
        proof {
            assert(all.take(i + 1).drop_last() =~= all.take(i as int));
            assert(all.take(i + 1).last() == items@[i as int]@);
        }
        let ghost before = views(out@);
        match items[i].as_str() {
            Some(s) => {
                out.push(s.to_owned());
                assert(views(out@) =~= before.push(s@));
            },
            None => {
                fits = false;
            },
        }
        i += 1;
    }
    assert(all.take(all.len() as int) =~= all);
    if fits {
        Some(out)
    } else {
        None
    }
}

/// The members, where the value of each is a text.
fn read_text_members(members: &Vec<(String, Json)>) -> (r: Option<Vec<(String, String)>>)
    ensures
        match r {
            Some(pairs) => all_text_members(member_views(members@)) == Some(pair_views(pairs@)),
            None => all_text_members(member_views(members@)) is None,
        },
{
    let ghost all = member_views(members@);
    let mut out: Vec<(String, String)> = Vec::new();
    let mut i: usize = 0;
    let mut fits = true;
    proof {
        assert(all.take(0) =~= Seq::empty());
        assert(pair_views(out@) =~= Seq::empty());
    }
    while i < members.len()
        invariant
            i <= members@.len(),
            all == member_views(members@),
            fits ==> all_text_members(all.take(i as int)) == Some(pair_views(out@)),
            !fits ==> all_text_members(all.take(i as int)) is None,
        decreases members@.len() - i,
    {
        proof {
            assert(all.take(i + 1).drop_last() =~= all.take(i as int));
            assert(all.take(i + 1).last() == (members@[i as int].0@, members@[i as int].1@));
        }
        let ghost before = pair_views(out@);
        match members[i].1.as_str() {
            Some(s) => {
                out.push((members[i].0.clone(), s.to_owned()));
                assert(pair_views(out@) =~= before.push((members@[i as int].0@, s@)));
            },
            None => {
                fits = false;
            },
        }
        i += 1;
    }
    assert(all.take(all.len() as int) =~= all);
    if fits {
        Some(out)
    } else {
        None
    }
}

/// The pairs of texts of a value, where it holds nothing else. None is as good as no pairs.
pub open spec fn pairs_of(v: Option<JsonV>) -> Option<Seq<(Seq<char>, Seq<char>)>> {
    match v {
        None => Some(Seq::empty()),
        Some(JsonV::Object(members)) => all_text_members(members),
        Some(_) => None,
    }
}

/// The texts of a value, where it holds nothing else. None is as good as no texts.
pub open spec fn texts_of(v: Option<JsonV>) -> Option<Seq<Seq<char>>> {
    match v {
        None => Some(Seq::empty()),
        Some(JsonV::Array(items)) => all_texts(items),
        Some(_) => None,
    }
}

/// A part of a description: the member of that name, or, where the description is a list, the
/// item at that place.
pub open spec fn part_at(v: JsonV, key: Seq<char>, at: int) -> Option<JsonV> {
    match v {
        JsonV::Array(items) => if 0 <= at < items.len() {
            Some(items[at])
        } else {
            None
        },
        other => other.get(key),
    }
}

/// The server that a value describes: it has an address. It is described by members, or by a
/// list of up to four parts.
pub open spec fn server_in(v: JsonV) -> Option<ServerV> {
    if v matches JsonV::Array(items) && items.len() > 4 {
        None
    } else {
        match (
            part_at(v, "url"@, 0),
            pairs_of(part_at(v, "headers"@, 1)),
            texts_of(part_at(v, "allow"@, 2)),
            texts_of(part_at(v, "deny"@, 3)),
        ) {
            (Some(JsonV::Str(url)), Some(headers), Some(allow), Some(deny)) => Some(
                ServerV { url, headers, allow, deny },
            ),
            _ => None,
        }
    }
}

/// The entry that a value describes. Every value describes one.
pub open spec fn entry_in(v: JsonV) -> EntryConfigV {
    match server_in(v) {
        Some(server) => EntryConfigV::StreamableHttp(server),
        None => EntryConfigV::Unknown(v),
    }
}

/// A part of a description.
fn read_part<'a>(v: &'a Json, key: &str, at: usize) -> (r: Option<&'a Json>)
    ensures
        match r {
            Some(part) => part_at(v@, key@, at as int) == Some(part@),
            None => part_at(v@, key@, at as int) is None,
        },
{
    match v.items() {
        Some(items) => {
            if at < items.len() {
                assert(views(items@)[at as int] == items@[at as int]@);
                Some(&items[at])
            } else {
                None
            }
        },
        None => v.get(key),
    }
}

/// The texts of a value, by name; none where there is no value.
fn read_pairs(v: Option<&Json>) -> (r: Option<Vec<(String, String)>>)
    ensures
        ({
            let given = match v {
                Some(x) => Some(x@),
                None => None,
            };
            match r {
                Some(pairs) => pairs_of(given) == Some(pair_views(pairs@)),
                None => pairs_of(given) is None,
            }
        }),
{
    match v {
        None => {
            let none: Vec<(String, String)> = Vec::new();
            assert(pair_views(none@) =~= Seq::empty());
            Some(none)
        },
        Some(value) => match value.members() {
            Some(members) => read_text_members(members),
            None => None,
        },
    }
}

/// The texts of a value; none where there is no value.
fn read_list(v: Option<&Json>) -> (r: Option<Vec<String>>)
    ensures
        ({
            let given = match v {
                Some(x) => Some(x@),
                None => None,
            };
            match r {
                Some(list) => texts_of(given) == Some(views(list@)),
                None => texts_of(given) is None,
            }
        }),
{
    match v {
        None => {
            let none: Vec<String> = Vec::new();
            assert(views(none@) =~= Seq::empty());
            Some(none)
        },
        Some(value) => match value.items() {
            Some(items) => read_texts(items),
            None => None,
        },
    }
}

/// The entry that a value describes.
pub fn read_entry(v: &Json) -> (r: ServerEntry)
    ensures
        r@ == entry_in(v@),
{
    let listed: usize = match v.items() {
        Some(items) => items.len(),
        None => 0,
    };
    if listed > 4 {
        return ServerEntry::Unknown(v.clone());
    }
    let url = match read_part(v, "url", 0) {
        Some(value) => match value.as_str() {
            Some(url) => Some(url.to_owned()),
            None => None,
        },
        None => None,
    };
    let headers = read_pairs(read_part(v, "headers", 1));
    let allow = read_list(read_part(v, "allow", 2));
    let deny = read_list(read_part(v, "deny", 3));
    match (url, headers, allow, deny) {
        (Some(url), Some(headers), Some(allow), Some(deny)) => ServerEntry::StreamableHttp(
            StreamableHttpConfig { url, headers, allow, deny },
        ),
        _ => ServerEntry::Unknown(v.clone()),
    }
}

/// The servers that are configured, by name.
#[derive(Debug, PartialEq)]
pub struct McpConfig {
    pub mcp_servers: Vec<(String, ServerEntry)>,
}

/// The servers, by name.
pub open spec fn server_views(servers: Seq<(String, ServerEntry)>) -> Seq<
    (Seq<char>, EntryConfigV),
> {
    Seq::new(servers.len(), |i: int| (servers[i].0@, servers[i].1@))
}

/// The entries that members describe.
pub open spec fn entries_in(members: Seq<(Seq<char>, JsonV)>) -> Seq<(Seq<char>, EntryConfigV)> {
    Seq::new(members.len(), |i: int| (members[i].0, entry_in(members[i].1)))
}

/// The entries that a value names.
pub open spec fn servers_in(v: JsonV) -> Result<Seq<(Seq<char>, EntryConfigV)>, Seq<char>> {
    match v {
        JsonV::Object(members) => Ok(entries_in(members)),
        other => Err(invalid_type(other, "a map"@)),
    }
}

/// The servers that a configuration names: under either of the two words for them, or as the
/// one item of a list.
pub open spec fn config_in(v: JsonV) -> Result<Seq<(Seq<char>, EntryConfigV)>, Seq<char>> {
    match v {
        JsonV::Object(_) => match (v.get("mcpServers"@), v.get("servers"@)) {
            (Some(servers), Some(_)) => match servers_in(servers) {
                Ok(_) => Err("duplicate field `mcpServers`"@),
                Err(e) => Err(e),
            },
            (None, None) => Err("missing field `mcpServers`"@),
            (Some(servers), None) => servers_in(servers),
            (None, Some(servers)) => servers_in(servers),
        },
        JsonV::Array(items) => if items.len() == 0 {
            Err("invalid length 0, expected struct McpConfig with 1 element"@)
        } else {
            match servers_in(items[0]) {
                Ok(servers) => if items.len() > 1 {
                    Err(
                        "invalid length "@ + decimal(items.len())
                            + ", expected fewer elements in array"@,
                    )
                } else {
                    Ok(servers)
                },
                Err(e) => Err(e),
            }
        },
        other => Err(invalid_type(other, "struct McpConfig"@)),
    }
}

/// The entry that each member describes.
fn read_entries(members: &Vec<(String, Json)>) -> (r: Vec<(String, ServerEntry)>)
    ensures
        server_views(r@) == entries_in(member_views(members@)),
{
    let mut out: Vec<(String, ServerEntry)> = Vec::new();
    let mut i: usize = 0;
    while i < members.len()
        invariant
            i <= members@.len(),
            out@.len() == i,
            forall|j: int|
                0 <= j < i ==> (#[trigger] out@[j]).0@ == members@[j].0@ && out@[j].1@ == entry_in(
                    members@[j].1@,
                ),
        decreases members@.len() - i,
    {
        out.push((members[i].0.clone(), read_entry(&members[i].1)));
        i += 1;
    }
    assert(server_views(out@) =~= entries_in(member_views(members@)));
    out
}

/// The entries that a value names.
fn read_servers(v: &Json) -> (r: Result<Vec<(String, ServerEntry)>, String>)
    ensures
        match r {
            Ok(servers) => servers_in(v@) == Ok::<Seq<(Seq<char>, EntryConfigV)>, Seq<char>>(
                server_views(servers@),
            ),
            Err(e) => servers_in(v@) == Err::<Seq<(Seq<char>, EntryConfigV)>, Seq<char>>(e@),
        },
{
    match v.members() {
        Some(members) => Ok(read_entries(members)),
        None => Err(invalid_type_text(v, "a map")),
    }
}

/// The servers that a configuration names.
fn read_config(v: &Json) -> (r: Result<Vec<(String, ServerEntry)>, String>)
    ensures
        match r {
            Ok(servers) => config_in(v@) == Ok::<Seq<(Seq<char>, EntryConfigV)>, Seq<char>>(
                server_views(servers@),
            ),
            Err(e) => config_in(v@) == Err::<Seq<(Seq<char>, EntryConfigV)>, Seq<char>>(e@),
        },
{
    if v.is_object() {
        return match (v.get("mcpServers"), v.get("servers")) {
            (Some(servers), Some(_)) => match read_servers(servers) {
                Ok(_) => Err("duplicate field `mcpServers`".to_owned()),
                Err(e) => Err(e),
            },
            (None, None) => Err("missing field `mcpServers`".to_owned()),
            (Some(servers), None) => read_servers(servers),
            (None, Some(servers)) => read_servers(servers),
        };
    }
    match v.items() {
        Some(items) => {
            if items.len() == 0 {
                return Err(
                    "invalid length 0, expected struct McpConfig with 1 element".to_owned(),
                );
            }
            assert(views(items@)[0] == items@[0]@);
            match read_servers(&items[0]) {
                Ok(servers) => if items.len() > 1 {
                    Err(
                        concat3(
                            "invalid length ",
                            decimal_text(items.len() as u128).as_str(),
                            ", expected fewer elements in array",
                        ),
                    )
                } else {
                    Ok(servers)
                },
                Err(e) => Err(e),
            }
        },
        None => Err(invalid_type_text(v, "struct McpConfig")),
    }
}

impl McpConfig {
    /// The configuration that a value describes. The words of an error are serde's.
    pub fn of(v: &Json) -> (r: Result<McpConfig, McpConfigError>)
        ensures
            match r {
                Ok(config) => config_in(v@) == Ok::<Seq<(Seq<char>, EntryConfigV)>, Seq<char>>(
                    server_views(config.mcp_servers@),
                ),
                Err(e) => e is Parse && config_in(v@) == Err::<
                    Seq<(Seq<char>, EntryConfigV)>,
                    Seq<char>,
                >(e->Parse_0@),
            },
    {
        match read_config(v) {
            Ok(mcp_servers) => Ok(McpConfig { mcp_servers }),
            Err(e) => Err(McpConfigError::Parse(e)),
        }
    }
}

/// Why the tools of a server are not to be had.
#[derive(Debug, PartialEq)]
pub enum McpToolError {
    Connection(String),
    Discovery(String),
}

/// What a [`McpToolError`] is.
#[verifier::ext_equal]
pub enum McpToolErrorV {
    Connection(Seq<char>),
    Discovery(Seq<char>),
}

impl View for McpToolError {
    type V = McpToolErrorV;

    open spec fn view(&self) -> McpToolErrorV {
        match self {
            McpToolError::Connection(m) => McpToolErrorV::Connection(m@),
            McpToolError::Discovery(m) => McpToolErrorV::Discovery(m@),
        }
    }
}

impl McpToolErrorV {
    /// The error in words.
    pub open spec fn words(self) -> Seq<char> {
        match self {
            McpToolErrorV::Connection(m) => "connection error: "@ + m,
            McpToolErrorV::Discovery(m) => "tool discovery error: "@ + m,
        }
    }
}

impl McpToolError {
    /// The error in words.
    pub fn words(&self) -> (r: String)
        ensures
            r@ == self@.words(),
    {
        match self {
            McpToolError::Connection(m) => concat2("connection error: ", m.as_str()),
            McpToolError::Discovery(m) => concat2("tool discovery error: ", m.as_str()),
        }
    }
}

/// A character that may stand in the name of a header.
pub open spec fn is_header_char(c: char) -> bool {
    ||| '0' <= c <= '9'
    ||| 'A' <= c <= 'Z'
    ||| 'a' <= c <= 'z'
    ||| c == '!' || c == '#' || c == '$' || c == '%' || c == '&' || c == '\'' || c == '*'
    ||| c == '+' || c == '-' || c == '.' || c == '^' || c == '_' || c == '`' || c == '|'
    ||| c == '~'
}

/// A text can be the name of a header.
pub open spec fn is_header_name(s: Seq<char>) -> bool {
    &&& 1 <= s.len() <= 65535
    &&& forall|i: int| 0 <= i < s.len() ==> is_header_char(#[trigger] s[i])
}

/// A text can be the value of a header: it holds no control character but the tab.
pub open spec fn is_header_value(s: Seq<char>) -> bool {
    forall|i: int|
        0 <= i < s.len() ==> (#[trigger] s[i]) == '\t' || (s[i] as u32 >= 32 && s[i] as u32 != 127)
}

/// `reqwest::header::HeaderName::from_bytes` on the bytes of a text: it takes 1 to 65535
/// letters, digits and the signs of `is_header_char`, and refuses everything else in the same
/// words.
#[verifier::external_body]
fn header_name(key: &str) -> (r: Result<(), String>)
    ensures
        r is Ok <==> is_header_name(key@),
        r matches Err(e) ==> e@ == "invalid HTTP header name"@,
{
    let name = reqwest::header::HeaderName::from_bytes(key.as_bytes());
    name.map(|_| ()).map_err(|e| e.to_string())
}

/// `reqwest::header::HeaderValue::from_str`: it refuses control characters but the tab, in the
/// same words.
#[verifier::external_body]
fn header_value(value: &str) -> (r: Result<(), String>)
    ensures
        r is Ok <==> is_header_value(value@),
        r matches Err(e) ==> e@ == "failed to parse header value"@,
{
    let checked = reqwest::header::HeaderValue::from_str(value);
    checked.map(|_| ()).map_err(|e| e.to_string())
}

/// What is wrong with a header.
pub open spec fn header_fault(header: (Seq<char>, Seq<char>)) -> Option<Seq<char>> {
    if !is_header_name(header.0) {
        Some("invalid header name '"@ + header.0 + ("': "@ + "invalid HTTP header name"@))
    } else if !is_header_value(header.1) {
        Some(
            "invalid header value for '"@ + header.0 + ("': "@ + "failed to parse header value"@),
        )
    } else {
        None
    }
}

/// What is wrong with the first header at or behind `from` that is of no use.
pub open spec fn headers_fault(headers: Seq<(Seq<char>, Seq<char>)>, from: int) -> Option<
    Seq<char>,
>
    decreases headers.len() - from,
{
    if from < 0 || from >= headers.len() {
        None
    } else if header_fault(headers[from]) is Some {
        header_fault(headers[from])
    } else {
        headers_fault(headers, from + 1)
    }
}

/// Checks the headers of a server, before it is connected to.
pub fn check_headers(server: &StreamableHttpConfig) -> (r: Result<(), McpToolError>)
    ensures
        match r {
            Ok(_) => headers_fault(server@.headers, 0) is None,
            Err(e) => e is Connection && headers_fault(server@.headers, 0) == Some(
                e->Connection_0@,
            ),
        },
{
    let ghost all = server@.headers;
    let mut i: usize = 0;
    while i < server.headers.len()
        invariant
            i <= server.headers@.len(),
            all == pair_views(server.headers@),
            all == server@.headers,
            headers_fault(all, 0) == headers_fault(all, i as int),
        decreases server.headers@.len() - i,
    {
        let header = &server.headers[i];
        assert(all[i as int] == (header.0@, header.1@));
        match header_name(header.0.as_str()) {
            Ok(_) => {},
            Err(e) => {
                let rest = concat2("': ", e.as_str());
                return Err(
                    McpToolError::Connection(
                        concat3("invalid header name '", header.0.as_str(), rest.as_str()),
                    ),
                );
            },
        }
        match header_value(header.1.as_str()) {
            Ok(_) => {},
            Err(e) => {
                let rest = concat2("': ", e.as_str());
                return Err(
                    McpToolError::Connection(
                        concat3("invalid header value for '", header.0.as_str(), rest.as_str()),
                    ),
                );
            },
        }
        i += 1;
    }
    Ok(())
}

/// A tool as a server describes it.
#[derive(Debug, PartialEq)]
pub struct RemoteTool {
    pub name: String,
    pub description: Option<String>,
    pub input_schema: Option<Json>,
}

/// What a [`RemoteTool`] is.
#[verifier::ext_equal]
pub struct RemoteToolV {
    pub name: Seq<char>,
    pub description: Option<Seq<char>>,
    pub input_schema: Option<JsonV>,
}

impl View for RemoteTool {
    type V = RemoteToolV;

    open spec fn view(&self) -> RemoteToolV {
        RemoteToolV {
            name: self.name@,
            description: opt_view(self.description),
            input_schema: opt_view(self.input_schema),
        }
    }
}

/// What a model is told of a tool: it takes an object of nothing where it says nothing of it.
pub open spec fn remote_definition(tool: RemoteToolV) -> ToolDefinitionV {
    ToolDefinitionV {
        name: tool.name,
        description: match tool.description {
            Some(d) => d,
            None => Seq::empty(),
        },
        parameters: match tool.input_schema {
            Some(schema) => schema,
            None => parameters_schema(Seq::empty(), Seq::empty()),
        },
    }
}

/// What a model is told of a tool.
pub fn definition_of(tool: &RemoteTool) -> (r: ToolDefinition)
    ensures
        r@ == remote_definition(tool@),
{
    ToolDefinition {
        name: tool.name.clone(),
        description: match &tool.description {
            Some(d) => d.clone(),
            None => String::new(),
        },
        parameters: match &tool.input_schema {
            Some(schema) => schema.clone(),
            None => {
                let none: Vec<(String, Json)> = Vec::new();
                let required: Vec<String> = Vec::new();
                proof {
                    assert(member_views(none@) =~= Seq::empty());
                    assert(views(required@) =~= Seq::empty());
                }
                parameters(none, &required)
            },
        },
    }
}

/// The tools with those of a server among them that it is allowed to bring, one after the
/// other.
pub open spec fn with_remote(
    tools: Seq<ToolSpecV>,
    server: ServerV,
    found: Seq<RemoteToolV>,
) -> Seq<ToolSpecV>
    decreases found.len(),
{
    if found.len() == 0 {
        tools
    } else {
        let before = with_remote(tools, server, found.drop_last());
        if server.allows(found.last().name) {
            with_tool(
                before,
                ToolSpecV { definition: remote_definition(found.last()), output: None },
            )
        } else {
            before
        }
    }
}

/// Registers the tools of a server that it is allowed to bring.
pub fn register(registry: &mut ToolRegistry, server: &StreamableHttpConfig, found: &Vec<RemoteTool>)
    ensures
        final(registry)@ == with_remote(old(registry)@, server@, views(found@)),
{
    let ghost before = registry@;
    let ghost all = views(found@);
    let mut i: usize = 0;
    assert(all.take(0) =~= Seq::empty());
    while i < found.len()
        invariant
            i <= found@.len(),
            all == views(found@),
            registry@ == with_remote(before, server@, all.take(i as int)),
        decreases found@.len() - i,
    {
        proof {
            assert(all.take(i + 1).drop_last() =~= all.take(i as int));
            assert(all.take(i + 1).last() == found@[i as int]@);
        }
        if server.is_tool_allowed(found[i].name.as_str()) {
            registry.register(ToolSpec { definition: definition_of(&found[i]), output: None });
        }
        i += 1;
    }
    assert(all.take(all.len() as int) =~= all);
}

/// A tool that a server is not allowed to bring does not come in: what stands under its name
/// is what stood there.
pub proof fn law_denied_tools_stay_out(
    tools: Seq<ToolSpecV>,
    server: ServerV,
    found: Seq<RemoteToolV>,
    name: Seq<char>,
)
    requires
        crate::tools::distinct_tools(tools),
        !server.allows(name),
    ensures
        crate::tools::find_tool(with_remote(tools, server, found), name)
            == crate::tools::find_tool(tools, name),
        crate::tools::distinct_tools(with_remote(tools, server, found)),
    decreases found.len(),
{
    if found.len() > 0 {
        law_denied_tools_stay_out(tools, server, found.drop_last(), name);
        if server.allows(found.last().name) {
            crate::tools::law_register(
                with_remote(tools, server, found.drop_last()),
                ToolSpecV { definition: remote_definition(found.last()), output: None },
                name,
            );
        }
    }
}

/// One part of a server's answer.
#[derive(Debug, PartialEq)]
pub enum RemoteContent {
    Text(String),
    /// A resource that is a text.
    TextResource(String),
    /// Anything else, as it is printed.
    Other(String),
}

/// What a [`RemoteContent`] is.
#[verifier::ext_equal]
pub enum RemoteContentV {
    Text(Seq<char>),
    TextResource(Seq<char>),
    Other(Seq<char>),
}

impl View for RemoteContent {
    type V = RemoteContentV;

    open spec fn view(&self) -> RemoteContentV {
        match self {
            RemoteContent::Text(t) => RemoteContentV::Text(t@),
            RemoteContent::TextResource(t) => RemoteContentV::TextResource(t@),
            RemoteContent::Other(t) => RemoteContentV::Other(t@),
        }
    }
}

impl RemoteContentV {
    /// The part as a text.
    pub open spec fn text(self) -> Seq<char> {
        match self {
            RemoteContentV::Text(t) => t,
            RemoteContentV::TextResource(t) => t,
            RemoteContentV::Other(t) => t,
        }
    }

    /// The text that the part is, where it is one.
    pub open spec fn readable(self) -> Option<Seq<char>> {
        match self {
            RemoteContentV::Text(t) => Some(t),
            RemoteContentV::TextResource(t) => Some(t),
            RemoteContentV::Other(_) => None,
        }
    }
}

/// The parts of an answer as texts.
pub open spec fn content_texts(content: Seq<RemoteContentV>) -> Seq<Seq<char>> {
    Seq::new(content.len(), |i: int| content[i].text())
}

/// The parts of an answer as parts of a tool's result: texts, all of them.
pub open spec fn content_parts(content: Seq<RemoteContentV>) -> Seq<ResultPartV> {
    Seq::new(content.len(), |i: int| ResultPartV::Text(content[i].text()))
}

/// The parts of an answer as parts of a tool's result.
pub fn to_result_content(content: &Vec<RemoteContent>) -> (r: Vec<ToolResultContent>)
    ensures
        views(r@) == content_parts(views(content@)),
{
    let mut out: Vec<ToolResultContent> = Vec::new();
    let mut i: usize = 0;
    while i < content.len()
        invariant
            i <= content@.len(),
            out@.len() == i,
            forall|j: int|
                0 <= j < i ==> (#[trigger] out@[j])@ == ResultPartV::Text(content@[j]@.text()),
        decreases content@.len() - i,
    {
        let text = match &content[i] {
            RemoteContent::Text(t) => t.clone(),
            RemoteContent::TextResource(t) => t.clone(),
            RemoteContent::Other(t) => t.clone(),
        };
        out.push(ToolResultContent::Text(TextContent { content: text }));
        i += 1;
    }
    assert(views(out@) =~= content_parts(views(content@)));
    out
}

/// The texts of a result's parts, in order.
pub open spec fn part_texts(parts: Seq<ResultPartV>) -> Seq<Seq<char>>
    decreases parts.len(),
{
    if parts.len() == 0 {
        Seq::empty()
    } else {
        match parts.last() {
            ResultPartV::Text(t) => part_texts(parts.drop_last()).push(t),
            _ => part_texts(parts.drop_last()),
        }
    }
}

/// The parts of a result in one text, a line each, or what is given where no part is a text.
pub fn text_from_content(parts: &Vec<ToolResultContent>, otherwise: String) -> (r: String)
    ensures
        r@ == (if part_texts(views(parts@)).len() == 0 {
            otherwise@
        } else {
            joined(part_texts(views(parts@)), "\n"@)
        }),
{
    let ghost all = views(parts@);
    let mut texts: Vec<String> = Vec::new();
    let mut i: usize = 0;
    proof {
        assert(all.take(0) =~= Seq::empty());
        assert(views(texts@) =~= Seq::empty());
    }
    while i < parts.len()
        invariant
            i <= parts@.len(),
            all == views(parts@),
            views(texts@) == part_texts(all.take(i as int)),
        decreases parts@.len() - i,
    {
        proof {
            assert(all.take(i + 1).drop_last() =~= all.take(i as int));
            assert(all.take(i + 1).last() == parts@[i as int]@);
        }
        match &parts[i] {
            ToolResultContent::Text(t) => {
                let ghost before = views(texts@);
                texts.push(t.content.clone());
                assert(views(texts@) =~= before.push(t.content@));
            },
            _ => {},
        }
        i += 1;
    }
    assert(all.take(all.len() as int) =~= all);
    assert(views(texts@).len() == texts@.len());
    if texts.len() == 0 {
        otherwise
    } else {
        join(&texts, "\n")
    }
}

/// The texts of an answer's parts of texts, in order.
pub open spec fn readable_texts(content: Seq<RemoteContentV>) -> Seq<Seq<char>>
    decreases content.len(),
{
    if content.len() == 0 {
        Seq::empty()
    } else {
        match content.last().readable() {
            Some(t) => readable_texts(content.drop_last()).push(t),
            None => readable_texts(content.drop_last()),
        }
    }
}

/// What can be read of an answer, a line for each part, or what is given where nothing can.
pub fn format_content(content: &Vec<RemoteContent>, otherwise: String) -> (r: String)
    ensures
        r@ == (if readable_texts(views(content@)).len() == 0 {
            otherwise@
        } else {
            joined(readable_texts(views(content@)), "\n"@)
        }),
{
    let ghost all = views(content@);
    let mut texts: Vec<String> = Vec::new();
    let mut i: usize = 0;
    proof {
        assert(all.take(0) =~= Seq::empty());
        assert(views(texts@) =~= Seq::empty());
    }
    while i < content.len()
        invariant
            i <= content@.len(),
            all == views(content@),
            views(texts@) == readable_texts(all.take(i as int)),
        decreases content@.len() - i,
    {
        proof {
            assert(all.take(i + 1).drop_last() =~= all.take(i as int));
            assert(all.take(i + 1).last() == content@[i as int]@);
        }
        let ghost before = views(texts@);
        match &content[i] {
            RemoteContent::Text(t) => {
                texts.push(t.clone());
                assert(views(texts@) =~= before.push(t@));
            },
            RemoteContent::TextResource(t) => {
                texts.push(t.clone());
                assert(views(texts@) =~= before.push(t@));
            },
            RemoteContent::Other(_) => {},
        }
        i += 1;
    }
    assert(all.take(all.len() as int) =~= all);
    assert(views(texts@).len() == texts@.len());
    if texts.len() == 0 {
        otherwise
    } else {
        join(&texts, "\n")
    }
}

/// The parts of a server's answer are all texts: none is lost on the way to a text.
pub proof fn law_answers_are_texts(content: Seq<RemoteContentV>)
    ensures
        part_texts(content_parts(content)) == content_texts(content),
    decreases content.len(),
{
    if content.len() > 0 {
        law_answers_are_texts(content.drop_last());
        assert(content_parts(content).drop_last() =~= content_parts(content.drop_last()));
        assert(content_texts(content) =~= content_texts(content.drop_last()).push(
            content.last().text(),
        ));
    } else {
        assert(part_texts(content_parts(content)) =~= content_texts(content));
    }
}

/// The arguments that a call hands on: an object, or none.
pub fn call_arguments(params: Json) -> (r: Option<Json>)
    ensures
        opt_view(r) == (if params@ is Object {
            Some(params@)
        } else {
            None
        }),
        opt_view(r) == handed_arguments(params@),
{
    if params.is_object() {
        Some(params)
    } else {
        None
    }
}

/// What a call of a server's tool comes to, given its answer, or why there is none.
pub open spec fn call_outcome(
    answer: Result<(Seq<RemoteContentV>, Option<bool>), Seq<char>>,
) -> Result<ToolResultV, ToolErrorV> {
    match answer {
        Err(e) => Err(ToolErrorV::Execution(e)),
        Ok((content, is_error)) => if is_error == Some(true) {
            Err(
                ToolErrorV::Execution(
                    if content.len() == 0 {
                        "[]"@
                    } else {
                        joined(content_texts(content), "\n"@)
                    },
                ),
            )
        } else {
            Ok(
                ToolResultV {
                    tool_call_id: None,
                    content: content_parts(content),
                    is_error: false,
                },
            )
        },
    }
}

/// What a call of a server's tool comes to, given its answer, or why there is none.
pub fn conclude(answer: Result<(Vec<RemoteContent>, Option<bool>), String>) -> (r: Result<
    ToolResult,
    ToolError,
>)
    ensures
        ({
            let came = match answer {
                Ok(pair) => Ok((views(pair.0@), pair.1)),
                Err(e) => Err(e@),
            };
            match r {
                Ok(result) => call_outcome(came) == Ok::<ToolResultV, ToolErrorV>(result@),
                Err(e) => call_outcome(came) == Err::<ToolResultV, ToolErrorV>(e@),
            }
        }),
{
    match answer {
        Err(e) => Err(ToolError::Execution(e)),
        Ok((content, is_error)) => {
            let parts = to_result_content(&content);
            let failed = match is_error {
                Some(b) => b,
                None => false,
            };
            if failed {
                proof {
                    law_answers_are_texts(views(content@));
                }
                Err(ToolError::Execution(text_from_content(&parts, "[]".to_owned())))
            } else {
                Ok(ToolResult { tool_call_id: None, content: parts, is_error: false })
            }
        },
    }
}

/// What became of a call of a tool of this process that takes and gives values of its own.
#[derive(Debug, PartialEq)]
pub enum Invocation {
    /// The parameters are not what the tool takes.
    Refused(String),
    /// The tool failed.
    Failed(String),
    /// The tool gave a value, written as JSON where it can be.
    Returned(Option<String>),
}

/// What a call of such a tool comes to.
pub fn settle(call: Invocation) -> (r: Result<ToolResult, ToolError>)
    ensures
        match (call, r) {
            (Invocation::Refused(m), Err(e)) => e@ == ToolErrorV::Validation(m@),
            (Invocation::Failed(m), Err(e)) => e@ == ToolErrorV::Execution(m@),
            (Invocation::Returned(Some(text)), Ok(result)) => result@ == text_result(text@, false),
            (Invocation::Returned(None), Ok(result)) => result@ == text_result(
                "tool returned non-serializable result"@,
                false,
            ),
            _ => false,
        },
        match r {
            Ok(result) => settled(call) == Ok::<ToolResultV, ToolErrorV>(result@),
            Err(e) => settled(call) == Err::<ToolResultV, ToolErrorV>(e@),
        },
{
    match call {
        Invocation::Refused(m) => Err(ToolError::Validation(m)),
        Invocation::Failed(m) => Err(ToolError::Execution(m)),
        Invocation::Returned(Some(text)) => Ok(ToolResult::text(text, false)),
        Invocation::Returned(None) => Ok(
            ToolResult::text("tool returned non-serializable result".to_owned(), false),
        ),
    }
}

/// A tool that a server declares and may bring is offered as the server declares it: under its
/// name stand its description, or an empty one, and exactly its schema, or an object of nothing.
pub proof fn law_declared_tools_are_offered(
    tools: Seq<ToolSpecV>,
    server: ServerV,
    before: Seq<RemoteToolV>,
    tool: RemoteToolV,
    after: Seq<RemoteToolV>,
)
    requires
        crate::tools::distinct_tools(tools),
        server.allows(tool.name),
        forall|i: int| 0 <= i < after.len() ==> (#[trigger] after[i]).name != tool.name,
    ensures
        match crate::tools::find_tool(
            with_remote(tools, server, before.push(tool) + after),
            tool.name,
        ) {
            Some(offered) => {
                &&& offered.definition.name == tool.name
                &&& tool.description matches Some(d) ==> offered.definition.description == d
                &&& tool.description is None ==> offered.definition.description.len() == 0
                &&& tool.input_schema matches Some(schema) ==> offered.definition.parameters
                    == schema
                &&& tool.input_schema is None ==> {
                    &&& offered.definition.parameters.get("type"@) == Some(JsonV::Str("object"@))
                    &&& offered.definition.parameters.get("properties"@) == Some(
                        JsonV::Object(Seq::empty()),
                    )
                    &&& offered.definition.parameters.get("required"@) is None
                }
                &&& offered.output is None
            },
            None => false,
        },
        crate::tools::distinct_tools(with_remote(tools, server, before.push(tool) + after)),
    decreases after.len(),
{
    let found = before.push(tool) + after;
    crate::params::law_parameters_declare_an_object(Seq::empty(), Seq::empty());
    if after.len() == 0 {
        assert(found =~= before.push(tool));
        assert(found.drop_last() =~= before);
        lemma_still_distinct(tools, server, before);
        crate::tools::law_register(
            with_remote(tools, server, before),
            ToolSpecV { definition: remote_definition(tool), output: None },
            tool.name,
        );
    } else {
        let rest = after.drop_last();
        assert(found.drop_last() =~= before.push(tool) + rest);
        assert(found.last() == after.last());
        assert forall|i: int| 0 <= i < rest.len() implies (#[trigger] rest[i]).name != tool.name by {
            assert(rest[i] == after[i]);
        }
        law_declared_tools_are_offered(tools, server, before, tool, rest);
        assert(after[after.len() - 1].name != tool.name);
        if server.allows(found.last().name) {
            crate::tools::law_register(
                with_remote(tools, server, found.drop_last()),
                ToolSpecV { definition: remote_definition(found.last()), output: None },
                tool.name,
            );
        }
    }
}

/// Taking in a server's tools gives no name two tools.
proof fn lemma_still_distinct(tools: Seq<ToolSpecV>, server: ServerV, found: Seq<RemoteToolV>)
    requires
        crate::tools::distinct_tools(tools),
    ensures
        crate::tools::distinct_tools(with_remote(tools, server, found)),
    decreases found.len(),
{
    if found.len() > 0 {
        lemma_still_distinct(tools, server, found.drop_last());
        if server.allows(found.last().name) {
            crate::tools::law_register(
                with_remote(tools, server, found.drop_last()),
                ToolSpecV { definition: remote_definition(found.last()), output: None },
                found.last().name,
            );
        }
    }
}

/// A name that a server does not declare finds what it found.
pub proof fn law_other_tools_stay(
    tools: Seq<ToolSpecV>,
    server: ServerV,
    found: Seq<RemoteToolV>,
    name: Seq<char>,
)
    requires
        crate::tools::distinct_tools(tools),
        forall|i: int| 0 <= i < found.len() ==> (#[trigger] found[i]).name != name,
    ensures
        crate::tools::find_tool(with_remote(tools, server, found), name)
            == crate::tools::find_tool(tools, name),
    decreases found.len(),
{
    if found.len() > 0 {
        let rest = found.drop_last();
        assert forall|i: int| 0 <= i < rest.len() implies (#[trigger] rest[i]).name != name by {
            assert(rest[i] == found[i]);
        }
        law_other_tools_stay(tools, server, rest, name);
        assert(found[found.len() - 1].name != name);
        lemma_still_distinct(tools, server, rest);
        if server.allows(found.last().name) {
            crate::tools::law_register(
                with_remote(tools, server, rest),
                ToolSpecV { definition: remote_definition(found.last()), output: None },
                name,
            );
        }
    }
}

/// A tool comes in if and only if it is not denied and, where any are named, is named.
pub proof fn law_named_tools_come_in(server: ServerV, name: Seq<char>)
    ensures
        !server.deny.contains(name) && server.allow.contains(name) ==> server.allows(name),
        server.allow.len() > 0 && !server.allow.contains(name) ==> !server.allows(name),
        !server.deny.contains(name) && server.allow.len() == 0 ==> server.allows(name),
{
}

/// A list is read as texts if and only if each of its values is one: the texts come in order.
pub proof fn law_lists_of_texts_are_read(items: Seq<JsonV>)
    ensures
        match texts_of(Some(JsonV::Array(items))) {
            Some(texts) => texts.len() == items.len() && forall|i: int|
                0 <= i < items.len() ==> #[trigger] items[i] == JsonV::Str(texts[i]),
            None => exists|i: int| 0 <= i < items.len() && !((#[trigger] items[i]) is Str),
        },
        texts_of(None) == Some(Seq::<Seq<char>>::empty()),
    decreases items.len(),
{
    if items.len() > 0 {
        let head = items.drop_last();
        law_lists_of_texts_are_read(head);
        match all_texts(head) {
            Some(texts) => {
                if items.last() is Str {
                    assert forall|i: int| 0 <= i < items.len() implies #[trigger] items[i]
                        == JsonV::Str(all_texts(items)->0[i]) by {
                        if i < head.len() {
                            assert(head[i] == items[i]);
                        }
                    }
                } else {
                    assert(!(items[items.len() - 1] is Str));
                }
            },
            None => {
                let i = choose|i: int| 0 <= i < head.len() && !((#[trigger] head[i]) is Str);
                assert(!(items[i] is Str));
            },
        }
    }
}

/// An object is read as pairs of texts if and only if each of its members is a text: the pairs
/// come in order, each with its own name.
pub proof fn law_pairs_of_texts_are_read(members: Seq<(Seq<char>, JsonV)>)
    ensures
        match pairs_of(Some(JsonV::Object(members))) {
            Some(pairs) => pairs.len() == members.len() && forall|i: int|
                0 <= i < members.len() ==> #[trigger] members[i] == (
                    pairs[i].0,
                    JsonV::Str(pairs[i].1),
                ),
            None => exists|i: int| 0 <= i < members.len() && !((#[trigger] members[i]).1 is Str),
        },
        pairs_of(None) == Some(Seq::<(Seq<char>, Seq<char>)>::empty()),
    decreases members.len(),
{
    if members.len() > 0 {
        let head = members.drop_last();
        law_pairs_of_texts_are_read(head);
        match all_text_members(head) {
            Some(pairs) => {
                if members.last().1 is Str {
                    let all = all_text_members(members)->0;
                    assert forall|i: int| 0 <= i < members.len() implies #[trigger] members[i] == (
                        all[i].0,
                        JsonV::Str(all[i].1),
                    ) by {
                        if i < head.len() {
                            assert(head[i] == members[i]);
                        }
                    }
                } else {
                    assert(!(members[members.len() - 1].1 is Str));
                }
            },
            None => {
                let i = choose|i: int| 0 <= i < head.len() && !((#[trigger] head[i]).1 is Str);
                assert(!(members[i].1 is Str));
            },
        }
    }
}

/// A server that is described by members has the address, the headers and the two lists of
/// tools that stand under their names; without an address that is a text, none is described.
pub proof fn law_servers_are_read_by_name(
    members: Seq<(Seq<char>, JsonV)>,
    url: Seq<char>,
    allow: Seq<JsonV>,
    deny: Seq<JsonV>,
)
    ensures
        ({
            let v = JsonV::Object(members);
            server_in(v) matches Some(server) ==> {
                &&& v.get("url"@) == Some(JsonV::Str(server.url))
                &&& pairs_of(v.get("headers"@)) == Some(server.headers)
                &&& texts_of(v.get("allow"@)) == Some(server.allow)
                &&& texts_of(v.get("deny"@)) == Some(server.deny)
                &&& entry_in(v) == EntryConfigV::StreamableHttp(server)
            }
        }),
        ({
            let v = JsonV::Object(members);
            server_in(v) is None ==> {
                &&& entry_in(v) == EntryConfigV::Unknown(v)
                &&& !(v.get("url"@) matches Some(JsonV::Str(_))) || pairs_of(v.get("headers"@))
                    is None || texts_of(v.get("allow"@)) is None || texts_of(v.get("deny"@)) is None
            }
        }),
{
}

/// Where a server's description is a list, its parts stand in order.
pub proof fn law_servers_are_read_by_place(items: Seq<JsonV>)
    ensures
        server_in(JsonV::Array(items)) matches Some(server) ==> {
            &&& 1 <= items.len() <= 4
            &&& items[0] == JsonV::Str(server.url)
            &&& items.len() > 1 ==> pairs_of(Some(items[1])) == Some(server.headers)
            &&& items.len() <= 1 ==> server.headers.len() == 0
            &&& items.len() > 2 ==> texts_of(Some(items[2])) == Some(server.allow)
            &&& items.len() <= 2 ==> server.allow.len() == 0
            &&& items.len() > 3 ==> texts_of(Some(items[3])) == Some(server.deny)
            &&& items.len() <= 3 ==> server.deny.len() == 0
        },
        1 <= items.len() <= 4 && items[0] is Str && (items.len() > 1 ==> pairs_of(Some(items[1]))
            is Some) && (items.len() > 2 ==> texts_of(Some(items[2])) is Some) && (items.len() > 3
            ==> texts_of(Some(items[3])) is Some) ==> server_in(JsonV::Array(items)) is Some,
{
}

/// A configuration names its servers under either of two words: each entry keeps its name and
/// its place, and is read from its own member.
pub proof fn law_configurations_name_servers(v: JsonV, members: Seq<(Seq<char>, JsonV)>)
    requires
        v is Object,
        v.get("mcpServers"@) == Some(JsonV::Object(members)) && v.get("servers"@) is None
            || v.get("mcpServers"@) is None && v.get("servers"@) == Some(JsonV::Object(members)),
    ensures
        match config_in(v) {
            Ok(servers) => servers.len() == members.len() && forall|i: int|
                0 <= i < members.len() ==> (#[trigger] servers[i]).0 == members[i].0
                    && servers[i].1 == entry_in(members[i].1),
            Err(_) => false,
        },
        config_in(JsonV::Array(seq![JsonV::Object(members)])) == config_in(v),
{
}

/// A header is refused if and only if its name or its value is of no use, and what is said of it
/// names it.
pub proof fn law_headers_are_checked_in_order(headers: Seq<(Seq<char>, Seq<char>)>, at: int)
    requires
        0 <= at <= headers.len(),
        forall|i: int|
            0 <= i < at ==> is_header_name((#[trigger] headers[i]).0) && is_header_value(
                headers[i].1,
            ),
    ensures
        at == headers.len() ==> headers_fault(headers, 0) is None,
        at < headers.len() && !is_header_name(headers[at].0) ==> headers_fault(headers, 0) == Some(
            "invalid header name '"@ + headers[at].0 + ("': "@ + "invalid HTTP header name"@),
        ),
        at < headers.len() && is_header_name(headers[at].0) && !is_header_value(headers[at].1)
            ==> headers_fault(headers, 0) == Some(
            "invalid header value for '"@ + headers[at].0 + ("': "@
                + "failed to parse header value"@),
        ),
{
    lemma_headers_before(headers, at, 0);
}

/// Headers that are of use do not matter to what is wrong with those behind them.
proof fn lemma_headers_before(headers: Seq<(Seq<char>, Seq<char>)>, at: int, from: int)
    requires
        0 <= from <= at <= headers.len(),
        forall|i: int|
            from <= i < at ==> is_header_name((#[trigger] headers[i]).0) && is_header_value(
                headers[i].1,
            ),
    ensures
        headers_fault(headers, from) == headers_fault(headers, at),
    decreases at - from,
{
    if from < at {
        assert(is_header_name(headers[from].0));
        lemma_headers_before(headers, at, from + 1);
    }
}

/// What a server answers is what its tool gives: a text for each part, in order, as the part
/// holds it. An answer that says it is a failure fails the call with the same texts, a line each,
/// and where there is no answer the call fails with the reason.
pub proof fn law_answers_are_handed_on(
    content: Seq<RemoteContentV>,
    said: Option<bool>,
    reason: Seq<char>,
)
    ensures
        said != Some(true) ==> {
            &&& call_outcome(Ok((content, said))) matches Ok(result)
            &&& result.content.len() == content.len()
            &&& forall|i: int|
                0 <= i < content.len() ==> match #[trigger] content[i] {
                    RemoteContentV::Text(t) => result.content[i] == ResultPartV::Text(t),
                    RemoteContentV::TextResource(t) => result.content[i] == ResultPartV::Text(t),
                    RemoteContentV::Other(t) => result.content[i] == ResultPartV::Text(t),
                }
            &&& !result.is_error
            &&& result.tool_call_id is None
        },
        said == Some(true) && content.len() == 0 ==> call_outcome(Ok((content, said))) == Err::<
            ToolResultV,
            ToolErrorV,
        >(ToolErrorV::Execution("[]"@)),
        said == Some(true) && content.len() > 0 ==> call_outcome(Ok((content, said))) == Err::<
            ToolResultV,
            ToolErrorV,
        >(
            ToolErrorV::Execution(
                joined(
                    part_texts(call_outcome(Ok((content, Some(false))))->Ok_0.content),
                    "\n"@,
                ),
            ),
        ),
        call_outcome(Err(reason)) == Err::<ToolResultV, ToolErrorV>(ToolErrorV::Execution(reason)),
{
    law_answers_are_texts(content);
}

/// The parts that are texts are read in order, and no others are.
pub proof fn law_readable_parts_are_read(
    content: Seq<RemoteContentV>,
    parts: Seq<ResultPartV>,
    text: Seq<char>,
)
    ensures
        readable_texts(Seq::<RemoteContentV>::empty()).len() == 0,
        readable_texts(content.push(RemoteContentV::Text(text))) == readable_texts(content).push(
            text,
        ),
        readable_texts(content.push(RemoteContentV::TextResource(text))) == readable_texts(
            content,
        ).push(text),
        readable_texts(content.push(RemoteContentV::Other(text))) == readable_texts(content),
        part_texts(Seq::<ResultPartV>::empty()).len() == 0,
        part_texts(parts.push(ResultPartV::Text(text))) == part_texts(parts).push(text),
        forall|part: ResultPartV|
            !(part is Text) ==> #[trigger] part_texts(parts.push(part)) == part_texts(parts),
{
    assert(content.push(RemoteContentV::Text(text)).drop_last() =~= content);
    assert(content.push(RemoteContentV::TextResource(text)).drop_last() =~= content);
    assert(content.push(RemoteContentV::Other(text)).drop_last() =~= content);
    assert(parts.push(ResultPartV::Text(text)).drop_last() =~= parts);
    assert forall|part: ResultPartV| !(part is Text) implies #[trigger] part_texts(
        parts.push(part),
    ) == part_texts(parts) by {
        assert(parts.push(part).drop_last() =~= parts);
    }
}

/// What is said of a server that cannot be used ends with the reason.
pub proof fn law_server_errors_tell_the_reason(reason: Seq<char>)
    ensures
        ends_with(McpToolErrorV::Connection(reason).words(), reason),
        ends_with(McpToolErrorV::Discovery(reason).words(), reason),
        ends_with((McpConfigErrorV::InvalidConfig { detail: reason }).words(), reason),
        McpConfigErrorV::Parse(reason).words() == reason,
        McpToolErrorV::Connection(reason).words() != McpToolErrorV::Discovery(reason).words(),
{
    reveal_strlit("connection error: ");
    reveal_strlit("tool discovery error: ");
    assert("connection error: "@.len() == 18);
    assert("tool discovery error: "@.len() == 22);
    lemma_ends_with("connection error: "@, reason);
    lemma_ends_with("tool discovery error: "@, reason);
    lemma_ends_with("invalid config: "@, reason);
}

/// What is said of a configuration that names no servers, or names them twice, or in place of
/// servers holds something else, says which of these it is.
pub proof fn law_configurations_without_servers_are_refused(v: JsonV, items: Seq<JsonV>)
    ensures
        v is Object && v.get("mcpServers"@) is None && v.get("servers"@) is None ==> config_in(v)
            == Err::<Seq<(Seq<char>, EntryConfigV)>, Seq<char>>("missing field `mcpServers`"@),
        v is Object ==> (v.get("mcpServers"@) matches Some(own) ==> (own is Object && v.get(
            "servers"@,
        ) is Some ==> config_in(v) == Err::<Seq<(Seq<char>, EntryConfigV)>, Seq<char>>(
            "duplicate field `mcpServers`"@,
        ))),
        v is Object ==> (v.get("mcpServers"@) matches Some(own) ==> (!(own is Object) ==> config_in(
            v,
        ) == Err::<Seq<(Seq<char>, EntryConfigV)>, Seq<char>>(invalid_type(own, "a map"@)))),
        !(v is Object) && !(v is Array) ==> config_in(v) == Err::<
            Seq<(Seq<char>, EntryConfigV)>,
            Seq<char>,
        >(invalid_type(v, "struct McpConfig"@)),
        items.len() == 0 ==> config_in(JsonV::Array(items)) == Err::<
            Seq<(Seq<char>, EntryConfigV)>,
            Seq<char>,
        >("invalid length 0, expected struct McpConfig with 1 element"@),
        items.len() > 1 && items[0] is Object ==> config_in(JsonV::Array(items)) == Err::<
            Seq<(Seq<char>, EntryConfigV)>,
            Seq<char>,
        >("invalid length "@ + decimal(items.len()) + ", expected fewer elements in array"@),
{
}

/// A transport that is not supported is named.
pub proof fn law_unsupported_transports_are_named(transport: Seq<char>)
    ensures
        ("unsupported transport '"@ + transport + "'"@).is_prefix_of(
            (McpConfigErrorV::UnsupportedTransport { transport }).words(),
        ),
{
    reveal_strlit("'");
    reveal_strlit("'; only StreamableHttp (url-based) is supported");
    assert("'"@.len() == 1);
    let rest = "'; only StreamableHttp (url-based) is supported"@;
    let lead = "unsupported transport '"@ + transport;
    assert(rest.take(1) =~= "'"@);
    assert((lead + rest).take((lead + "'"@).len() as int) =~= lead + "'"@);
}

/// The arguments that a call hands on.
pub open spec fn handed_arguments(params: JsonV) -> Option<JsonV> {
    if params is Object {
        Some(params)
    } else {
        None
    }
}

/// What a call of a tool of this process comes to.
pub open spec fn settled(call: Invocation) -> Result<ToolResultV, ToolErrorV> {
    match call {
        Invocation::Refused(m) => Err(ToolErrorV::Validation(m@)),
        Invocation::Failed(m) => Err(ToolErrorV::Execution(m@)),
        Invocation::Returned(Some(text)) => Ok(text_result(text@, false)),
        Invocation::Returned(None) => Ok(
            text_result("tool returned non-serializable result"@, false),
        ),
    }
}

/// A tool of this process gives back what it returned, as a text that is no error; where it
/// refused its input or failed, the call fails with the reason, the one told from the other.
pub proof fn law_own_tools_give_back_what_they_return(text: String, reason: String)
    ensures
        settled(Invocation::Returned(Some(text))) matches Ok(result)
            && crate::types::parts_text(result.content) == text@ && !result.is_error,
        settled(Invocation::Refused(reason)) matches Err(ToolErrorV::Validation(m)) && m
            == reason@,
        settled(Invocation::Failed(reason)) matches Err(ToolErrorV::Execution(m)) && m == reason@,
        settled(Invocation::Returned(None)) is Ok,
{
    crate::types::law_texts_are_read_back(""@, text@, false);
}

/// A call hands on what it was given, if and only if that is an object.
pub proof fn law_arguments_are_objects(params: JsonV, key: Seq<char>)
    ensures
        handed_arguments(params) is Some <==> params is Object,
        handed_arguments(params) matches Some(handed) ==> handed.get(key) == params.get(key),
        handed_arguments(params) matches Some(handed) ==> handed == params,
{
}

} // verus!
