//! Skills: instructions with a name and a description, which run as subagents.
//!
//! A skill is written down as a `SKILL.md`: a YAML head between two `---` fences, and behind it
//! the instructions.
use vstd::prelude::*;

use crate::json::{
    json_read, json_text, law_first_member_is_found, member_views, read_json, write_json, Json,
    JsonV,
};
use crate::lines::{law_lines_read_back, lines, lines_of, plain_line, words, words_of};
use crate::params::{
    law_parameters_declare_an_object, law_text_parameters_declare_texts, parameters,
    parameters_schema, text_parameter, text_parameter_schema,
};
use crate::subagent::{Subagent, SubagentTool};
use crate::text::{
    chars_of, concat2, concat3, decimal, decimal_text, ends_with, is_space, join, joined,
    law_trimming_the_end, lemma_ends_with, opt_view, pair_views, same, text_of, trim_end,
    trimmed_end, views,
};
use crate::tools::{
    distinct_tools, find_tool, law_subset, tool_subset, with_tool, ToolError, ToolErrorV, ToolRegistry, ToolSpec, ToolSpecV,
};
use crate::types::{BlockV, ContentBlock, TextContent, ToolDefinition, ToolDefinitionV};
use crate::yaml::{law_tags_are_taken_off, read_yaml, yaml_members, yaml_read, Yaml, YamlV};

verus! {

/// The head of a `SKILL.md`.
#[derive(Debug, PartialEq)]
pub struct SkillFrontmatter {
    pub name: String,
    pub description: String,
    pub license: Option<String>,
    pub compatibility: Option<String>,
    pub metadata: Vec<(String, String)>,
    /// The tools that the skill may use.
    pub allowed_tools: Vec<String>,
    /// The file, beside the `SKILL.md`, that holds the schemas of what the skill is given and
    /// of its result.
    pub schema: Option<String>,
}

/// What a [`SkillFrontmatter`] is.
#[verifier::ext_equal]
pub struct FrontmatterV {
    pub name: Seq<char>,
    pub description: Seq<char>,
    pub license: Option<Seq<char>>,
    pub compatibility: Option<Seq<char>>,
    pub metadata: Seq<(Seq<char>, Seq<char>)>,
    pub allowed_tools: Seq<Seq<char>>,
    pub schema: Option<Seq<char>>,
}

impl View for SkillFrontmatter {
    type V = FrontmatterV;

    open spec fn view(&self) -> FrontmatterV {
        FrontmatterV {
            name: self.name@,
            description: self.description@,
            license: opt_view(self.license),
            compatibility: opt_view(self.compatibility),
            metadata: pair_views(self.metadata@),
            allowed_tools: views(self.allowed_tools@),
            schema: opt_view(self.schema),
        }
    }
}

/// A skill that was found.
#[derive(Debug, PartialEq)]
pub struct ParsedSkill {
    pub frontmatter: SkillFrontmatter,
    /// The directory of the skill.
    pub dir: String,
    /// The instructions.
    pub body: String,
}

/// What a [`ParsedSkill`] is.
#[verifier::ext_equal]
pub struct ParsedSkillV {
    pub frontmatter: FrontmatterV,
    pub dir: Seq<char>,
    pub body: Seq<char>,
}

impl View for ParsedSkill {
    type V = ParsedSkillV;

    open spec fn view(&self) -> ParsedSkillV {
        ParsedSkillV { frontmatter: self.frontmatter@, dir: self.dir@, body: self.body@ }
    }
}

/// Where skills are looked for.
#[derive(Debug, PartialEq)]
pub struct SkillConfig {
    pub dir: String,
}

/// Why there is no skill.
#[derive(Debug, PartialEq)]
pub enum SkillError {
    Io(String),
    Parse(String),
    Invalid { name: String, reason: String },
}

/// What a [`SkillError`] is.
#[verifier::ext_equal]
pub enum SkillErrorV {
    Io(Seq<char>),
    Parse(Seq<char>),
    Invalid { name: Seq<char>, reason: Seq<char> },
}

impl View for SkillError {
    type V = SkillErrorV;

    open spec fn view(&self) -> SkillErrorV {
        match self {
            SkillError::Io(m) => SkillErrorV::Io(m@),
            SkillError::Parse(m) => SkillErrorV::Parse(m@),
            SkillError::Invalid { name, reason } => SkillErrorV::Invalid {
                name: name@,
                reason: reason@,
            },
        }
    }
}

impl SkillErrorV {
    /// The error in words.
    pub open spec fn words(self) -> Seq<char> {
        match self {
            SkillErrorV::Io(m) => "io error: "@ + m,
            SkillErrorV::Parse(m) => "parse error: "@ + m,
            SkillErrorV::Invalid { name, reason } => "invalid skill '"@ + name + ("': "@
                + reason),
        }
    }
}

impl SkillError {
    /// The error in words.
    pub fn words(&self) -> (r: String)
        ensures
            r@ == self@.words(),
    {
        match self {
            SkillError::Io(m) => concat2("io error: ", m.as_str()),
            SkillError::Parse(m) => concat2("parse error: ", m.as_str()),
            SkillError::Invalid { name, reason } => {
                let rest = concat2("': ", reason.as_str());
                concat3("invalid skill '", name.as_str(), rest.as_str())
            },
        }
    }

    /// The error of a skill that breaks a rule.
    fn invalid(name: &str, reason: String) -> (r: SkillError)
        ensures
            r@ == (SkillErrorV::Invalid { name: name@, reason: reason@ }),
    {
        SkillError::Invalid { name: name.to_owned(), reason }
    }
}

/// A line is a fence: three hyphens, and white space behind them at most.
pub open spec fn is_fence(line: Seq<char>) -> bool {
    trimmed_end(line) == "---"@
}

/// The first fence at or behind `from`, or the number of lines.
pub open spec fn fence_place(all: Seq<Seq<char>>, from: int) -> int
    decreases all.len() - from,
{
    if from < 0 || from >= all.len() {
        all.len() as int
    } else if is_fence(all[from]) {
        from
    } else {
        fence_place(all, from + 1)
    }
}

/// The text without a byte order mark at its start.
pub open spec fn without_mark(content: Seq<char>) -> Seq<char> {
    if content.len() > 0 && content[0] == '\u{feff}' {
        content.skip(1)
    } else {
        content
    }
}

/// The head and the body of lines, where the first is a fence and another one closes the head.
pub open spec fn parts_of(all: Seq<Seq<char>>) -> Option<(Seq<char>, Seq<char>)> {
    let close = fence_place(all, 1);
    if all.len() == 0 || !is_fence(all[0]) || close >= all.len() {
        None
    } else {
        Some(
            (
                joined(all.subrange(1, close), "\n"@),
                joined(all.skip(close + 1), "\n"@),
            ),
        )
    }
}

/// The head and the body of a `SKILL.md`.
pub open spec fn split_content(content: Seq<char>) -> Option<(Seq<char>, Seq<char>)> {
    parts_of(lines_of(without_mark(content)))
}

/// A copy of some of the lines.
fn copy_lines(all: &Vec<String>, from: usize, to: usize) -> (r: Vec<String>)
    requires
        from <= to <= all@.len(),
    ensures
        views(r@) == views(all@).subrange(from as int, to as int),
{
    let mut out: Vec<String> = Vec::new();
    let mut i: usize = from;
    while i < to
        invariant
            from <= i <= to <= all@.len(),
            out@.len() == i - from,
            forall|j: int| 0 <= j < out@.len() ==> (#[trigger] out@[j])@ == all@[from + j]@,
        decreases to - i,
    {
        out.push(all[i].clone());
        i += 1;
    }
    assert(views(out@) =~= views(all@).subrange(from as int, to as int));
    out
}

/// Whether a line is a fence.
fn fence(line: &str) -> (r: bool)
    ensures
        r == is_fence(line@),
{
    let bare = trim_end(line);
    same(bare.as_str(), "---")
}

/// The head and the body of a `SKILL.md`, where it has a head between fences.
pub fn split_frontmatter(content: &str) -> (r: Option<(String, String)>)
    ensures
        match r {
            Some((yaml, body)) => split_content(content@) == Some((yaml@, body@)),
            None => split_content(content@) is None,
        },
{
    let v = chars_of(content);
    let bare = if v.len() > 0 && v[0] == '\u{feff}' {
        let rest = text_of(&v, 1, v.len());
        assert(rest@ =~= content@.skip(1));
        rest
    } else {
        content.to_owned()
    };
    let all = lines(bare.as_str());
    let ghost shown = views(all@);
    let total: usize = all.len();
    if total == 0 || !fence(all[0].as_str()) {
        return None;
    }
    let mut close: usize = 1;
    while close < total && !fence(all[close].as_str())
        invariant
            1 <= close <= total,
            total == all@.len(),
            shown == views(all@),
            fence_place(shown, 1) == fence_place(shown, close as int),
        decreases total - close,
    {
        assert(shown[close as int] == all@[close as int]@);
        close += 1;
    }
    if close >= total {
        return None;
    }
    assert(shown[close as int] == all@[close as int]@);
    let head = copy_lines(&all, 1, close);
    let rest = copy_lines(&all, close + 1, total);
    assert(views(rest@) =~= shown.skip(close + 1));
    Some((join(&head, "\n"), join(&rest, "\n")))
}

/// A head between fences and a body behind them are read back as they were written, where no
/// line of the head is a fence and the last line of the body says something.
pub proof fn law_split_reads_back(head: Seq<Seq<char>>, body: Seq<Seq<char>>)
    requires
        forall|i: int| 0 <= i < head.len() ==> plain_line(#[trigger] head[i]) && !is_fence(head[i]),
        forall|i: int| 0 <= i < body.len() ==> plain_line(#[trigger] body[i]),
        body.len() > 0 ==> body.last().len() > 0,
    ensures
        split_content(joined(seq!["---"@] + head + seq!["---"@] + body, "\n"@)) == Some(
            (joined(head, "\n"@), joined(body, "\n"@)),
        ),
{
    reveal_strlit("---");
    reveal_strlit("\n");
    assert("\n"@ =~= seq!['\n']);
    let line = "---"@;
    let all = seq![line] + head + seq![line] + body;
    let content = joined(all, "\n"@);
    assert(plain_line(line));
    assert(is_fence(line)) by {
        reveal_with_fuel(trimmed_end, 2);
    }
    assert forall|i: int| 0 <= i < all.len() implies plain_line(#[trigger] all[i]) by {
        if 0 < i <= head.len() {
            assert(all[i] == head[i - 1]);
        } else if i > head.len() + 1 {
            assert(all[i] == body[i - head.len() - 2]);
        }
    }
    if body.len() > 0 {
        assert(all.last() == body.last());
    }
    law_lines_read_back(all);
    crate::lines::lemma_joined_front(all, "\n"@);
    assert(content[0] == '-');
    assert(without_mark(content) == content);
    let close = head.len() as int + 1;
    assert forall|j: int| 1 <= j < close implies !is_fence(#[trigger] all[j]) by {
        assert(all[j] == head[j - 1]);
    }
    lemma_fence_place(all, 1, close);
    assert(all.subrange(1, close) =~= head);
    assert(all.skip(close + 1) =~= body);
}

/// A fence behind which nothing was skipped is the first one.
proof fn lemma_fence_place(all: Seq<Seq<char>>, from: int, at: int)
    requires
        0 <= from <= at < all.len(),
        is_fence(all[at]),
        forall|j: int| from <= j < at ==> !is_fence(#[trigger] all[j]),
    ensures
        fence_place(all, from) == at,
    decreases at - from,
{
    if from < at {
        assert(!is_fence(all[from]));
        lemma_fence_place(all, from + 1, at);
    }
}

/// What is said of a member that is not of its type.
pub open spec fn wrong_type(key: Seq<char>, expected: Seq<char>) -> Seq<char> {
    "invalid type: `"@ + key + ("`, expected "@ + expected)
}

/// What is said of a member that is not of its type.
fn wrong_type_text(key: &str, expected: &str) -> (r: String)
    ensures
        r@ == wrong_type(key@, expected@),
{
    let rest = concat2("`, expected ", expected);
    concat3("invalid type: `", key, rest.as_str())
}

/// The text of a member that must be there. A tag before a text makes it something else.
pub open spec fn needed_text(v: YamlV, key: Seq<char>) -> Result<Seq<char>, Seq<char>> {
    match v.get(key) {
        Some(YamlV::Str(s)) => Ok(s),
        Some(_) => Err(wrong_type(key, "a string"@)),
        None => Err("missing field `"@ + key + "`"@),
    }
}

/// The text of a member that need not be there.
pub open spec fn optional_text(v: YamlV, key: Seq<char>) -> Result<Option<Seq<char>>, Seq<char>> {
    match v.get(key) {
        Some(YamlV::Str(s)) => Ok(Some(s)),
        Some(YamlV::Null) => Ok(None),
        Some(_) => Err(wrong_type(key, "a string"@)),
        None => Ok(None),
    }
}

/// The texts of items, where all are texts. Tags do not count.
pub open spec fn item_texts(items: Seq<YamlV>) -> Option<Seq<Seq<char>>>
    decreases items.len(),
{
    if items.len() == 0 {
        Some(Seq::empty())
    } else {
        match (item_texts(items.drop_last()), items.last().bare()) {
            (Some(names), YamlV::Str(s)) => Some(names.push(s)),
            _ => None,
        }
    }
}

/// The texts of members, by name, where all are texts without a tag.
pub open spec fn member_texts(members: Seq<(Seq<char>, YamlV)>) -> Option<
    Seq<(Seq<char>, Seq<char>)>,
>
    decreases members.len(),
{
    if members.len() == 0 {
        Some(Seq::empty())
    } else {
        match (member_texts(members.drop_last()), members.last().1) {
            (Some(pairs), YamlV::Str(s)) => Some(pairs.push((members.last().0, s))),
            _ => None,
        }
    }
}

/// The tools that a head allows: a list, or a text of words. Tags do not count, but what a tag
/// stands before has to be one of the two.
pub open spec fn allowed_in(v: YamlV) -> Result<Seq<Seq<char>>, Seq<char>> {
    match v.get("allowed-tools"@) {
        None => Ok(Seq::empty()),
        Some(YamlV::Null) => Ok(Seq::empty()),
        Some(value) => match value.bare() {
            YamlV::Str(s) => Ok(words_of(s)),
            YamlV::Sequence(items) => match item_texts(items) {
                Some(names) => Ok(names),
                None => Err(wrong_type("allowed-tools"@, "a string or a sequence of strings"@)),
            },
            _ => Err(wrong_type("allowed-tools"@, "a string or a sequence of strings"@)),
        },
    }
}

/// The further data of a head. A tag before the mapping does not count.
pub open spec fn metadata_in(v: YamlV) -> Result<Seq<(Seq<char>, Seq<char>)>, Seq<char>> {
    match v.get("metadata"@) {
        None => Ok(Seq::empty()),
        Some(value) => match value.bare() {
            YamlV::Mapping(members) => match member_texts(members) {
                Some(pairs) => Ok(pairs),
                None => Err(wrong_type("metadata"@, "a map of strings"@)),
            },
            _ => Err(wrong_type("metadata"@, "a map of strings"@)),
        },
    }
}

/// What the YAML of a head says. A tag before the head does not count.
pub open spec fn frontmatter_in(read: YamlV) -> Result<FrontmatterV, Seq<char>> {
    let v = read.bare();
    if !(v is Mapping) {
        Err("expected a mapping"@)
    } else {
        match (
            needed_text(v, "name"@),
            needed_text(v, "description"@),
            optional_text(v, "license"@),
            optional_text(v, "compatibility"@),
            metadata_in(v),
            allowed_in(v),
            optional_text(v, "schema"@),
        ) {
            (
                Ok(name),
                Ok(description),
                Ok(license),
                Ok(compatibility),
                Ok(metadata),
                Ok(allowed_tools),
                Ok(schema),
            ) => Ok(
                FrontmatterV {
                    name,
                    description,
                    license,
                    compatibility,
                    metadata,
                    allowed_tools,
                    schema,
                },
            ),
            (Err(e), _, _, _, _, _, _) => Err(e),
            (_, Err(e), _, _, _, _, _) => Err(e),
            (_, _, Err(e), _, _, _, _) => Err(e),
            (_, _, _, Err(e), _, _, _) => Err(e),
            (_, _, _, _, Err(e), _, _) => Err(e),
            (_, _, _, _, _, Err(e), _) => Err(e),
            (_, _, _, _, _, _, Err(e)) => Err(e),
        }
    }
}

/// The text under a key, which has to be there.
fn read_needed(v: &Yaml, key: &str) -> (r: Result<String, String>)
    ensures
        match r {
            Ok(s) => needed_text(v@, key@) == Ok::<Seq<char>, Seq<char>>(s@),
            Err(e) => needed_text(v@, key@) == Err::<Seq<char>, Seq<char>>(e@),
        },
{
    match v.get(key) {
        Some(value) => match value.as_str() {
            Some(s) => Ok(s.to_owned()),
            None => Err(wrong_type_text(key, "a string")),
        },
        None => Err(concat3("missing field `", key, "`")),
    }
}

/// The text under a key, if there is one.
fn read_optional(v: &Yaml, key: &str) -> (r: Result<Option<String>, String>)
    ensures
        match r {
            Ok(o) => optional_text(v@, key@) == Ok::<Option<Seq<char>>, Seq<char>>(opt_view(o)),
            Err(e) => optional_text(v@, key@) == Err::<Option<Seq<char>>, Seq<char>>(e@),
        },
{
    match v.get(key) {
        Some(Yaml::Null) => Ok(None),
        Some(value) => match value.as_str() {
            Some(s) => Ok(Some(s.to_owned())),
            None => Err(wrong_type_text(key, "a string")),
        },
        None => Ok(None),
    }
}

/// The texts, where every value is one. Tags do not count.
fn read_item_texts(items: &Vec<Yaml>) -> (r: Option<Vec<String>>)
    ensures
        match r {
            Some(names) => item_texts(views(items@)) == Some(views(names@)),
            None => item_texts(views(items@)) is None,
        },
{
    let ghost all = views(items@);
    let mut out: Vec<String> = Vec::new();
    let mut i: usize = 0;
    let mut fits = true;
    proof {
        assert(all.take(0) =~= Seq::empty());
        assert(views(out@) =~= Seq::empty());
    }
    while i < items.len()
        invariant
            i <= items@.len(),
            all == views(items@),
            fits ==> item_texts(all.take(i as int)) == Some(views(out@)),
            !fits ==> item_texts(all.take(i as int)) is None,
        decreases items@.len() - i,
    {
        proof {
            assert(all.take(i + 1).drop_last() =~= all.take(i as int));
            assert(all.take(i + 1).last() == items@[i as int]@);
        }
        let ghost before = views(out@);
        match items[i].bare().as_str() {
            Some(s) => {
                out.push(s.to_owned());
                assert(views(out@) =~= before.push(s@));
            },
            None => {
                fits = false;
            },
        }
        i += 1;
    }
    assert(all.take(all.len() as int) =~= all);
    if fits {
        Some(out)
    } else {
        None
    }
}

/// The members, where the value of each is a text without a tag.
fn read_member_texts(members: &Vec<(String, Yaml)>) -> (r: Option<Vec<(String, String)>>)
    ensures
        match r {
            Some(pairs) => member_texts(yaml_members(members@)) == Some(pair_views(pairs@)),
            None => member_texts(yaml_members(members@)) is None,
        },
{
    let ghost all = yaml_members(members@);
    let mut out: Vec<(String, String)> = Vec::new();
    let mut i: usize = 0;
    let mut fits = true;
    proof {
        assert(all.take(0) =~= Seq::empty());
        assert(pair_views(out@) =~= Seq::empty());
    }
    while i < members.len()
        invariant
            i <= members@.len(),
            all == yaml_members(members@),
            fits ==> member_texts(all.take(i as int)) == Some(pair_views(out@)),
            !fits ==> member_texts(all.take(i as int)) is None,
        decreases members@.len() - i,
    {
        proof {
            assert(all.take(i + 1).drop_last() =~= all.take(i as int));
            assert(all.take(i + 1).last() == (members@[i as int].0@, members@[i as int].1@));
        }
        let ghost before = pair_views(out@);
        match members[i].1.as_str() {
            Some(s) => {
                out.push((members[i].0.clone(), s.to_owned()));
                assert(pair_views(out@) =~= before.push((members@[i as int].0@, s@)));
            },
            None => {
                fits = false;
            },
        }
        i += 1;
    }
    assert(all.take(all.len() as int) =~= all);
    if fits {
        Some(out)
    } else {
        None
    }
}

/// The tools that a skill may use.
fn read_allowed(v: &Yaml) -> (r: Result<Vec<String>, String>)
    ensures
        match r {
            Ok(names) => allowed_in(v@) == Ok::<Seq<Seq<char>>, Seq<char>>(views(names@)),
            Err(e) => allowed_in(v@) == Err::<Seq<Seq<char>>, Seq<char>>(e@),
        },
{
    let none: Vec<String> = Vec::new();
    assert(views(none@) =~= Seq::empty());
    match v.get("allowed-tools") {
        None => Ok(none),
        Some(Yaml::Null) => Ok(none),
        Some(value) => {
            let value = value.bare();
            match value.as_str() {
                Some(s) => Ok(words(s)),
                None => {
                    match value.items() {
                        Some(items) => match read_item_texts(items) {
                            Some(names) => {
                                return Ok(names);
                            },
                            None => {},
                        },
                        None => {},
                    }
                    Err(wrong_type_text("allowed-tools", "a string or a sequence of strings"))
                },
            }
        },
    }
}

/// The metadata of a skill.
fn read_metadata(v: &Yaml) -> (r: Result<Vec<(String, String)>, String>)
    ensures
        match r {
            Ok(pairs) => metadata_in(v@) == Ok::<Seq<(Seq<char>, Seq<char>)>, Seq<char>>(
                pair_views(pairs@),
            ),
            Err(e) => metadata_in(v@) == Err::<Seq<(Seq<char>, Seq<char>)>, Seq<char>>(e@),
        },
{
    match v.get("metadata") {
        None => {
            let none: Vec<(String, String)> = Vec::new();
            assert(pair_views(none@) =~= Seq::empty());
            Ok(none)
        },
        Some(value) => {
            match value.bare().members() {
                Some(members) => match read_member_texts(members) {
                    Some(pairs) => {
                        return Ok(pairs);
                    },
                    None => {},
                },
                None => {},
            }
            Err(wrong_type_text("metadata", "a map of strings"))
        },
    }
}

/// Reads what the YAML of a head says.
fn read_frontmatter(read: &Yaml) -> (r: Result<SkillFrontmatter, String>)
    ensures
        match r {
            Ok(fm) => frontmatter_in(read@) == Ok::<FrontmatterV, Seq<char>>(fm@),
            Err(e) => frontmatter_in(read@) == Err::<FrontmatterV, Seq<char>>(e@),
        },
{
    let v = read.bare();
    if v.members().is_none() {
        return Err("expected a mapping".to_owned());
    }
    let name = match read_needed(v, "name") {
        Ok(x) => x,
        Err(e) => {
            return Err(e);
        },
    };
    let description = match read_needed(v, "description") {
        Ok(x) => x,
        Err(e) => {
            return Err(e);
        },
    };
    let license = match read_optional(v, "license") {
        Ok(x) => x,
        Err(e) => {
            return Err(e);
        },
    };
    let compatibility = match read_optional(v, "compatibility") {
        Ok(x) => x,
        Err(e) => {
            return Err(e);
        },
    };
    let metadata = match read_metadata(v) {
        Ok(x) => x,
        Err(e) => {
            return Err(e);
        },
    };
    let allowed_tools = match read_allowed(v) {
        Ok(x) => x,
        Err(e) => {
            return Err(e);
        },
    };
    let schema = match read_optional(v, "schema") {
        Ok(x) => x,
        Err(e) => {
            return Err(e);
        },
    };
    Ok(
        SkillFrontmatter {
            name,
            description,
            license,
            compatibility,
            metadata,
            allowed_tools,
            schema,
        },
    )
}

/// What is wrong with a head.
pub open spec fn fault_of(fm: FrontmatterV) -> Option<SkillErrorV> {
    let n = fm.description.len();
    if n == 0 || n > 1024 {
        Some(
            SkillErrorV::Invalid {
                name: fm.name,
                reason: "description must be 1-1024 characters, got "@ + decimal(n),
            },
        )
    } else {
        match fm.compatibility {
            Some(c) if c.len() > 500 => Some(
                SkillErrorV::Invalid {
                    name: fm.name,
                    reason: "compatibility must be at most 500 characters, got "@ + decimal(
                        c.len(),
                    ),
                },
            ),
            _ => None,
        }
    }
}

/// Checks the lengths in a head: a description of 1 to 1024 characters, and at most 500 on
/// compatibility.
pub fn validate(fm: &SkillFrontmatter) -> (r: Result<(), SkillError>)
    ensures
        match r {
            Ok(_) => fault_of(fm@) is None,
            Err(e) => fault_of(fm@) == Some(e@),
        },
{
    let length: usize = chars_of(fm.description.as_str()).len();
    if length == 0 || length > 1024 {
        let digits = decimal_text(length as u128);
        return Err(
            SkillError::invalid(
                fm.name.as_str(),
                concat2("description must be 1-1024 characters, got ", digits.as_str()),
            ),
        );
    }
    match &fm.compatibility {
        Some(c) => {
            let length: usize = chars_of(c.as_str()).len();
            if length > 500 {
                let digits = decimal_text(length as u128);
                return Err(
                    SkillError::invalid(
                        fm.name.as_str(),
                        concat2("compatibility must be at most 500 characters, got ", digits.as_str()),
                    ),
                );
            }
        },
        None => {},
    }
    Ok(())
}

/// The head that its YAML writes, where it is sound.
pub open spec fn checked_frontmatter(read: Result<YamlV, Seq<char>>) -> Result<
    FrontmatterV,
    SkillErrorV,
> {
    match read {
        Err(e) => Err(SkillErrorV::Parse("invalid frontmatter: "@ + e)),
        Ok(v) => match frontmatter_in(v) {
            Err(e) => Err(SkillErrorV::Parse("invalid frontmatter: "@ + e)),
            Ok(fm) => match fault_of(fm) {
                Some(fault) => Err(fault),
                None => Ok(fm),
            },
        },
    }
}

/// The head that its YAML writes, given what was read of it. The words that say what is wrong
/// with a member are this library's own. A name that comes twice in a text goes unseen: a value
/// has kept its last member of that name.
pub fn frontmatter_of(read: Result<Yaml, String>) -> (r: Result<SkillFrontmatter, SkillError>)
    ensures
        ({
            let came = match read {
                Ok(v) => Ok(v@),
                Err(e) => Err(e@),
            };
            match r {
                Ok(fm) => checked_frontmatter(came) == Ok::<FrontmatterV, SkillErrorV>(fm@),
                Err(e) => checked_frontmatter(came) == Err::<FrontmatterV, SkillErrorV>(e@),
            }
        }),
{
    let v = match read {
        Ok(v) => v,
        Err(e) => {
            return Err(SkillError::Parse(concat2("invalid frontmatter: ", e.as_str())));
        },
    };
    match read_frontmatter(&v) {
        Ok(fm) => match validate(&fm) {
            Ok(_) => Ok(fm),
            Err(e) => Err(e),
        },
        Err(e) => Err(SkillError::Parse(concat2("invalid frontmatter: ", e.as_str()))),
    }
}

/// What a `SKILL.md` holds: its head, where it is sound, and its body.
pub open spec fn parsed(content: Seq<char>) -> Result<(FrontmatterV, Seq<char>), SkillErrorV> {
    match split_content(content) {
        None => Err(
            SkillErrorV::Parse(
                "missing YAML frontmatter: expected leading and closing '---' fences"@,
            ),
        ),
        Some((yaml, body)) => match checked_frontmatter(yaml_read(yaml)) {
            Ok(fm) => Ok((fm, body)),
            Err(e) => Err(e),
        },
    }
}

/// Reads a `SKILL.md`: its head, which must be sound, and its body. What [`frontmatter_of`] says
/// of names that come twice and of its words holds here too.
pub fn parse(content: &str) -> (r: Result<(SkillFrontmatter, String), SkillError>)
    ensures
        match r {
            Ok((fm, body)) => parsed(content@) == Ok::<(FrontmatterV, Seq<char>), SkillErrorV>(
                (fm@, body@),
            ),
            Err(e) => parsed(content@) == Err::<(FrontmatterV, Seq<char>), SkillErrorV>(e@),
        },
{
    match split_frontmatter(content) {
        None => Err(
            SkillError::Parse(
                "missing YAML frontmatter: expected leading and closing '---' fences".to_owned(),
            ),
        ),
        Some((yaml, body)) => match frontmatter_of(read_yaml(yaml.as_str())) {
            Ok(fm) => Ok((fm, body)),
            Err(e) => Err(e),
        },
    }
}

/// A directory in which a skill may stand: its path, its name, and what was read of its
/// `SKILL.md`, or why that could not be read.
#[derive(Debug, PartialEq)]
pub struct SkillDir {
    pub path: String,
    pub name: String,
    pub content: Result<String, String>,
}

/// What a [`SkillDir`] is.
#[verifier::ext_equal]
pub struct SkillDirV {
    pub path: Seq<char>,
    pub name: Seq<char>,
    pub content: Result<Seq<char>, Seq<char>>,
}

impl View for SkillDir {
    type V = SkillDirV;

    open spec fn view(&self) -> SkillDirV {
        SkillDirV {
            path: self.path@,
            name: self.name@,
            content: match self.content {
                Ok(c) => Ok(c@),
                Err(e) => Err(e@),
            },
        }
    }
}

/// Why a directory is passed over.
pub open spec fn skipping(path: Seq<char>, why: Seq<char>) -> Seq<char> {
    "[skill] skipping "@ + path + (": "@ + why)
}

/// Why a directory is passed over.
fn skipping_text(path: &str, why: &str) -> (r: String)
    ensures
        r@ == skipping(path@, why@),
{
    let rest = concat2(": ", why);
    concat3("[skill] skipping ", path, rest.as_str())
}

/// The skill of a directory, given what its `SKILL.md` holds; or the warning that says why
/// there is none. A skill bears the name of its directory.
pub open spec fn admitted(
    dir: SkillDirV,
    held: Result<(FrontmatterV, Seq<char>), SkillErrorV>,
) -> Result<ParsedSkillV, Seq<char>> {
    match dir.content {
        Err(e) => Err(skipping(dir.path, "cannot read SKILL.md ("@ + e + ")"@)),
        Ok(_) => match held {
            Err(e) => Err(skipping(dir.path, e.words())),
            Ok((fm, body)) => if fm.name != dir.name {
                Err(
                    skipping(
                        dir.path,
                        "frontmatter name '"@ + fm.name + ("' must match directory '"@ + dir.name
                            + "'"@),
                    ),
                )
            } else {
                Ok(ParsedSkillV { frontmatter: fm, dir: dir.path, body })
            },
        },
    }
}

/// The skill of a directory, given what its `SKILL.md` holds; or the warning that says why
/// there is none.
pub fn take_in(dir: &SkillDir, held: Result<(SkillFrontmatter, String), SkillError>) -> (r: Result<
    ParsedSkill,
    String,
>)
    ensures
        ({
            let came = match held {
                Ok(pair) => Ok((pair.0@, pair.1@)),
                Err(e) => Err(e@),
            };
            match r {
                Ok(skill) => admitted(dir@, came) == Ok::<ParsedSkillV, Seq<char>>(skill@),
                Err(w) => admitted(dir@, came) == Err::<ParsedSkillV, Seq<char>>(w@),
            }
        }),
{
    match &dir.content {
        Err(e) => {
            let why = concat3("cannot read SKILL.md (", e.as_str(), ")");
            return Err(skipping_text(dir.path.as_str(), why.as_str()));
        },
        Ok(_) => {},
    }
    match held {
        Err(e) => Err(skipping_text(dir.path.as_str(), e.words().as_str())),
        Ok((frontmatter, body)) => {
            if !same(frontmatter.name.as_str(), dir.name.as_str()) {
                let rest = concat3("' must match directory '", dir.name.as_str(), "'");
                let why = concat3("frontmatter name '", frontmatter.name.as_str(), rest.as_str());
                Err(skipping_text(dir.path.as_str(), why.as_str()))
            } else {
                Ok(ParsedSkill { frontmatter, dir: dir.path.clone(), body })
            }
        },
    }
}

/// What there is to say of a directory.
pub open spec fn found_in(dir: SkillDirV) -> Result<ParsedSkillV, Seq<char>> {
    admitted(
        dir,
        match dir.content {
            Ok(content) => parsed(content),
            Err(e) => Err(SkillErrorV::Io(e)),
        },
    )
}

/// The skills of directories, in order.
pub open spec fn skills_in(dirs: Seq<SkillDirV>) -> Seq<ParsedSkillV>
    decreases dirs.len(),
{
    if dirs.len() == 0 {
        Seq::empty()
    } else {
        match found_in(dirs.last()) {
            Ok(skill) => skills_in(dirs.drop_last()).push(skill),
            Err(_) => skills_in(dirs.drop_last()),
        }
    }
}

/// The warnings about directories that hold no skill, in order.
pub open spec fn warnings_in(dirs: Seq<SkillDirV>) -> Seq<Seq<char>>
    decreases dirs.len(),
{
    if dirs.len() == 0 {
        Seq::empty()
    } else {
        match found_in(dirs.last()) {
            Ok(_) => warnings_in(dirs.drop_last()),
            Err(w) => warnings_in(dirs.drop_last()).push(w),
        }
    }
}

/// The skills that stand in the directories, and a warning for each that holds none. One bad
/// skill keeps none of the others from loading.
pub fn discover(dirs: &Vec<SkillDir>) -> (r: (Vec<ParsedSkill>, Vec<String>))
    ensures
        views(r.0@) == skills_in(views(dirs@)),
        views(r.1@) == warnings_in(views(dirs@)),
{
    let ghost all = views(dirs@);
    let mut skills: Vec<ParsedSkill> = Vec::new();
    let mut warnings: Vec<String> = Vec::new();
    proof {
        assert(all.take(0) =~= Seq::empty());
        assert(views(skills@) =~= Seq::empty());
        assert(views(warnings@) =~= Seq::empty());
    }
    let mut i: usize = 0;
    while i < dirs.len()
        invariant
            i <= dirs@.len(),
            all == views(dirs@),
            views(skills@) == skills_in(all.take(i as int)),
            views(warnings@) == warnings_in(all.take(i as int)),
        decreases dirs@.len() - i,
    {
        let dir = &dirs[i];
        proof {
            assert(all.take(i + 1).drop_last() =~= all.take(i as int));
            assert(all.take(i + 1).last() == dir@);
        }
        let held = match &dir.content {
            Ok(content) => parse(content.as_str()),
            Err(e) => Err(SkillError::Io(e.clone())),
        };
        let ghost known = views(skills@);
        let ghost said = views(warnings@);
        match take_in(dir, held) {
            Ok(skill) => {
                let ghost seen = skill@;
                skills.push(skill);
                assert(views(skills@) =~= known.push(seen));
            },
            Err(w) => {
                let ghost seen = w@;
                warnings.push(w);
                assert(views(warnings@) =~= said.push(seen));
            },
        }
        i += 1;
    }
    assert(all.take(all.len() as int) =~= all);
    (skills, warnings)
}

/// One text, given in natural language.
pub open spec fn free_input() -> JsonV {
    parameters_schema(
        seq![
            (
                "input"@,
                text_parameter_schema(
                    "The task to perform with this skill, in natural language."@,
                ),
            ),
        ],
        seq!["input"@],
    )
}

/// What a skill is given, where it declares nothing: one text.
pub fn default_input_schema() -> (r: Json)
    ensures
        r@ == free_input(),
{
    let mut properties: Vec<(String, Json)> = Vec::new();
    properties.push(
        (
            "input".to_owned(),
            text_parameter("The task to perform with this skill, in natural language."),
        ),
    );
    let mut required: Vec<String> = Vec::new();
    required.push("input".to_owned());
    proof {
        assert(views(required@) =~= seq!["input"@]);
        assert(member_views(properties@) =~= seq![
            (
                "input"@,
                text_parameter_schema("The task to perform with this skill, in natural language."@),
            ),
        ]);
    }
    parameters(properties, &required)
}

/// One text.
pub open spec fn free_output() -> JsonV {
    parameters_schema(
        seq![("result"@, text_parameter_schema("The skill's result, as free text."@))],
        seq!["result"@],
    )
}

/// The result of a skill that declares nothing of it: one text.
pub fn default_output_schema() -> (r: Json)
    ensures
        r@ == free_output(),
{
    let mut properties: Vec<(String, Json)> = Vec::new();
    properties.push(("result".to_owned(), text_parameter("The skill's result, as free text.")));
    let mut required: Vec<String> = Vec::new();
    required.push("result".to_owned());
    proof {
        assert(views(required@) =~= seq!["result"@]);
        assert(member_views(properties@) =~= seq![
            ("result"@, text_parameter_schema("The skill's result, as free text."@)),
        ]);
    }
    parameters(properties, &required)
}

/// A schema among others, where it is there. It must be an object.
pub open spec fn schema_member(parent: JsonV, key: Seq<char>) -> Result<
    Option<JsonV>,
    SkillErrorV,
> {
    match parent.get(key) {
        None => Ok(None),
        Some(v) => if v is Object {
            Ok(Some(v))
        } else {
            Err(SkillErrorV::Invalid { name: key, reason: "'"@ + key + "' must be a JSON object"@ })
        },
    }
}

/// A schema among others, where it is there. It must be an object.
pub fn take_object(parent: &Json, key: &str) -> (r: Result<Option<Json>, SkillError>)
    ensures
        match r {
            Ok(o) => schema_member(parent@, key@) == Ok::<Option<JsonV>, SkillErrorV>(opt_view(o)),
            Err(e) => schema_member(parent@, key@) == Err::<Option<JsonV>, SkillErrorV>(e@),
        },
{
    match parent.get(key) {
        None => Ok(None),
        Some(v) => if v.is_object() {
            Ok(Some(v.clone()))
        } else {
            Err(SkillError::invalid(key, concat3("'", key, "' must be a JSON object")))
        },
    }
}

/// The schemas of a skill, given what its schema file writes: of what it is given, which is
/// one text where nothing is said, and of its result, where anything is said.
pub open spec fn schemas_in(path: Seq<char>, read: Result<JsonV, Seq<char>>) -> Result<
    (JsonV, Option<JsonV>),
    SkillErrorV,
> {
    match read {
        Err(e) => Err(SkillErrorV::Parse("invalid schema '"@ + path + ("': "@ + e))),
        Ok(v) => if !(v is Object) {
            Err(
                SkillErrorV::Invalid {
                    name: "schema"@,
                    reason: "schema must be a JSON object"@,
                },
            )
        } else {
            match (schema_member(v, "inputSchema"@), schema_member(v, "outputSchema"@)) {
                (Err(e), _) => Err(e),
                (_, Err(e)) => Err(e),
                (Ok(input), Ok(output)) => Ok(
                    (
                        match input {
                            Some(i) => i,
                            None => free_input(),
                        },
                        output,
                    ),
                ),
            }
        },
    }
}

/// The schemas of a skill, given what its schema file writes.
pub fn schemas_of(path: &str, read: Result<Json, String>) -> (r: Result<
    (Json, Option<Json>),
    SkillError,
>)
    ensures
        ({
            let came = match read {
                Ok(v) => Ok(v@),
                Err(e) => Err(e@),
            };
            match r {
                Ok((input, output)) => schemas_in(path@, came) == Ok::<
                    (JsonV, Option<JsonV>),
                    SkillErrorV,
                >((input@, opt_view(output))),
                Err(e) => schemas_in(path@, came) == Err::<(JsonV, Option<JsonV>), SkillErrorV>(e@),
            }
        }),
{
    let v = match read {
        Ok(v) => v,
        Err(e) => {
            let rest = concat2("': ", e.as_str());
            return Err(SkillError::Parse(concat3("invalid schema '", path, rest.as_str())));
        },
    };
    if !v.is_object() {
        return Err(SkillError::invalid("schema", "schema must be a JSON object".to_owned()));
    }
    let input = match take_object(&v, "inputSchema") {
        Ok(Some(i)) => i,
        Ok(None) => default_input_schema(),
        Err(e) => {
            return Err(e);
        },
    };
    match take_object(&v, "outputSchema") {
        Ok(output) => Ok((input, output)),
        Err(e) => Err(e),
    }
}

impl ParsedSkillV {
    /// The schemas of the skill, given the text of its schema file, where it names one.
    pub open spec fn schemas(self, text: Result<Seq<char>, Seq<char>>) -> Result<
        (JsonV, Option<JsonV>),
        SkillErrorV,
    > {
        match self.frontmatter.schema {
            None => Ok((free_input(), None)),
            Some(path) => match text {
                Err(e) => Err(SkillErrorV::Parse("cannot read schema '"@ + path + ("': "@ + e))),
                Ok(text) => schemas_in(path, json_read(text)),
            },
        }
    }
}

impl ParsedSkill {
    /// The schemas of the skill, given the text of its schema file, or why that could not be
    /// read. A skill that names no file reads none.
    pub fn resolve_schema(&self, text: Result<String, String>) -> (r: Result<
        (Json, Option<Json>),
        SkillError,
    >)
        ensures
            ({
                let came = match text {
                    Ok(t) => Ok(t@),
                    Err(e) => Err(e@),
                };
                match r {
                    Ok((input, output)) => self@.schemas(came) == Ok::<
                        (JsonV, Option<JsonV>),
                        SkillErrorV,
                    >((input@, opt_view(output))),
                    Err(e) => self@.schemas(came) == Err::<(JsonV, Option<JsonV>), SkillErrorV>(
                        e@,
                    ),
                }
            }),
    {
        match &self.frontmatter.schema {
            None => Ok((default_input_schema(), None)),
            Some(path) => match text {
                Err(e) => {
                    let rest = concat2("': ", e.as_str());
                    Err(
                        SkillError::Parse(
                            concat3("cannot read schema '", path.as_str(), rest.as_str()),
                        ),
                    )
                },
                Ok(text) => schemas_of(path.as_str(), read_json(text.as_str())),
            },
        }
    }
}

/// A skill as a subagent.
#[derive(Debug, PartialEq)]
pub struct SkillTool {
    pub base_tools: ToolRegistry,
    pub skill: ParsedSkill,
    pub input_schema: Json,
    pub output_schema: Option<Json>,
}

impl SkillTool {
    /// The skill over a pool of tools, given the text of its schema file.
    pub fn new(base_tools: ToolRegistry, skill: ParsedSkill, text: Result<String, String>) -> (r:
        Result<SkillTool, SkillError>)
        ensures
            ({
                let came = match text {
                    Ok(t) => Ok(t@),
                    Err(e) => Err(e@),
                };
                match r {
                    Ok(tool) => {
                        &&& tool.base_tools@ == base_tools@
                        &&& tool.skill@ == skill@
                        &&& skill@.schemas(came) == Ok::<(JsonV, Option<JsonV>), SkillErrorV>(
                            (tool.input_schema@, opt_view(tool.output_schema)),
                        )
                    },
                    Err(e) => skill@.schemas(came) == Err::<(JsonV, Option<JsonV>), SkillErrorV>(
                        e@,
                    ),
                }
            }),
    {
        match skill.resolve_schema(text) {
            Ok((input_schema, output_schema)) => Ok(
                SkillTool { base_tools, skill, input_schema, output_schema },
            ),
            Err(e) => Err(e),
        }
    }
}

/// What every run of a skill is reminded of.
pub open spec fn reminder() -> Seq<char> {
    "Your final result MUST be returned by calling the yield tool, with the result object as its arguments (conforming to the tool's parameter schema). Do not emit the result as text."@
}

impl Subagent for SkillTool {
    open spec fn declared(&self) -> ToolDefinitionV {
        ToolDefinitionV {
            name: self.skill.frontmatter.name@,
            description: self.skill.frontmatter.description@,
            parameters: self.input_schema@,
        }
    }

    open spec fn shapes(&self) -> (JsonV, Option<JsonV>) {
        (self.input_schema@, opt_view(self.output_schema))
    }

    open spec fn pool(&self) -> Seq<ToolSpecV> {
        tool_subset(self.base_tools@, views(self.skill.frontmatter.allowed_tools@))
    }

    open spec fn seeded(&self, params: JsonV, resume: bool) -> Result<Seq<BlockV>, ToolErrorV> {
        let tail = seq![BlockV::Text(json_text(params)), BlockV::Text(reminder())];
        Ok(
            if resume {
                tail
            } else {
                seq![BlockV::Text(self.skill.body@)] + tail
            },
        )
    }

    fn definition(&self) -> (r: ToolDefinition) {
        ToolDefinition {
            name: self.skill.frontmatter.name.clone(),
            description: self.skill.frontmatter.description.clone(),
            parameters: self.input_schema.clone(),
        }
    }

    fn schema(&self) -> (r: (Json, Option<Json>)) {
        (
            self.input_schema.clone(),
            match &self.output_schema {
                Some(v) => Some(v.clone()),
                None => None,
            },
        )
    }

    fn tools(&self) -> (r: ToolRegistry) {
        self.base_tools.subset(&self.skill.frontmatter.allowed_tools)
    }

    fn seed(&self, params: &Json, resume: bool) -> (r: Result<Vec<ContentBlock>, ToolError>) {
        let mut out: Vec<ContentBlock> = Vec::new();
        if !resume {
            out.push(ContentBlock::Text(TextContent { content: self.skill.body.clone() }));
        }
        out.push(ContentBlock::Text(TextContent { content: write_json(params) }));
        out.push(ContentBlock::Text(TextContent { content: "Your final result MUST be returned by calling the yield tool, with the result object as its arguments (conforming to the tool's parameter schema). Do not emit the result as text.".to_owned() }));
        assert(Ok::<Seq<BlockV>, ToolErrorV>(views(out@)) == self.seeded(params@, resume)) by {
            let tail = seq![BlockV::Text(json_text(params@)), BlockV::Text(reminder())];
            if resume {
                assert(views(out@) =~= tail);
            } else {
                assert(views(out@) =~= seq![BlockV::Text(self.skill.body@)] + tail);
            }
        }
        Ok(out)
    }
}

/// A skill can use a tool if and only if the pool holds it and the skill's head allows it:
/// a head that allows nothing allows no tool.
pub proof fn law_skill_uses_allowed_tools(skill: SkillTool, tool: ToolSpecV)
    ensures
        skill.pool().contains(tool) <==> skill.base_tools@.contains(tool) && views(
            skill.skill.frontmatter.allowed_tools@,
        ).contains(tool.definition.name),
{
    law_subset(skill.base_tools@, views(skill.skill.frontmatter.allowed_tools@), tool);
}

/// A resumed skill is not told its instructions again; what it is told last is the same.
pub proof fn law_resume_omits_the_body(skill: SkillTool, params: JsonV)
    ensures
        skill.seeded(params, false)->Ok_0 == seq![BlockV::Text(skill.skill.body@)]
            + skill.seeded(params, true)->Ok_0,
        skill.seeded(params, true)->Ok_0.len() == 2,
        skill.seeded(params, true)->Ok_0[1] == BlockV::Text(reminder()),
{
}

/// The tools with a skill among them.
pub open spec fn with_skill(tools: Seq<ToolSpecV>, tool: SkillTool) -> Seq<ToolSpecV> {
    with_tool(
        tools,
        ToolSpecV { definition: SubagentTool { subagent: tool }.declared(), output: None },
    )
}

/// The tools with skills among them, one after the other.
pub open spec fn with_skills(tools: Seq<ToolSpecV>, skills: Seq<SkillTool>) -> Seq<ToolSpecV>
    decreases skills.len(),
{
    if skills.len() == 0 {
        tools
    } else {
        with_skill(with_skills(tools, skills.drop_last()), skills.last())
    }
}

/// What is said of a skill whose schemas are of no use.
pub open spec fn skipped_for(
    skill: ParsedSkillV,
    text: Result<Seq<char>, Seq<char>>,
) -> Option<Seq<char>> {
    match skill.schemas(text) {
        Ok(_) => None,
        Err(e) => Some(skipping(skill.dir, e.words())),
    }
}

/// Registers a skill as a tool over a pool, given the text of its schema file. Returns the
/// skill, or the warning that says why it is left out.
pub fn register(
    registry: &mut ToolRegistry,
    base_tools: &ToolRegistry,
    skill: ParsedSkill,
    text: Result<String, String>,
) -> (r: Result<SubagentTool<SkillTool>, String>)
    ensures
        ({
            let came = match text {
                Ok(t) => Ok(t@),
                Err(e) => Err(e@),
            };
            match r {
                Ok(tool) => {
                    &&& skipped_for(skill@, came) is None
                    &&& tool.subagent.base_tools@ == base_tools@
                    &&& tool.subagent.skill@ == skill@
                    &&& skill@.schemas(came) == Ok::<(JsonV, Option<JsonV>), SkillErrorV>(
                        (tool.subagent.input_schema@, opt_view(tool.subagent.output_schema)),
                    )
                    &&& final(registry)@ == with_skill(old(registry)@, tool.subagent)
                },
                Err(w) => skipped_for(skill@, came) == Some(w@) && final(registry)@ == old(
                    registry,
                )@,
            }
        }),
{
    let label = skill.dir.clone();
    match SkillTool::new(base_tools.clone(), skill, text) {
        Ok(tool) => {
            let wrapped = SubagentTool::new(tool);
            registry.register(ToolSpec { definition: wrapped.definition(), output: None });
            Ok(wrapped)
        },
        Err(e) => Err(skipping_text(label.as_str(), e.words().as_str())),
    }
}

/// The head of a skill says what its members say, each under its own name; a name and a
/// description must be there and be texts. A tag before the head does not count.
pub proof fn law_heads_are_read_by_name(
    members: Seq<(Seq<char>, YamlV)>,
    text: Seq<char>,
    tag: Seq<char>,
)
    ensures
        ({
            let v = YamlV::Mapping(members);
            frontmatter_in(v) matches Ok(fm) ==> {
                &&& v.get("name"@) == Some(YamlV::Str(fm.name))
                &&& v.get("description"@) == Some(YamlV::Str(fm.description))
                &&& v.get("license"@) == Some(YamlV::Str(text)) <==> fm.license == Some(text)
                &&& v.get("compatibility"@) == Some(YamlV::Str(text)) <==> fm.compatibility
                    == Some(text)
                &&& v.get("schema"@) == Some(YamlV::Str(text)) <==> fm.schema == Some(text)
                &&& v.get("allowed-tools"@) == Some(YamlV::Str(text)) ==> fm.allowed_tools
                    == words_of(text)
                &&& v.get("allowed-tools"@) is None || v.get("allowed-tools"@) == Some(YamlV::Null)
                    ==> fm.allowed_tools.len() == 0
                &&& v.get("allowed-tools"@) matches Some(YamlV::Sequence(items)) ==> item_texts(
                    items,
                ) == Some(fm.allowed_tools)
                &&& v.get("metadata"@) matches Some(YamlV::Mapping(own)) ==> member_texts(own)
                    == Some(fm.metadata)
                &&& v.get("metadata"@) is None ==> fm.metadata.len() == 0
            }
        }),
        YamlV::Mapping(members).get("name"@) is None ==> frontmatter_in(YamlV::Mapping(members))
            == Err::<FrontmatterV, Seq<char>>("missing field `"@ + "name"@ + "`"@),
        !(YamlV::Mapping(members).get("description"@) matches Some(YamlV::Str(_)))
            ==> frontmatter_in(YamlV::Mapping(members)) is Err,
        frontmatter_in(YamlV::Tagged(tag, Box::new(YamlV::Mapping(members)))) == frontmatter_in(
            YamlV::Mapping(members),
        ),
{
    law_tags_are_taken_off(tag, YamlV::Mapping(members));
    match YamlV::Mapping(members).get("allowed-tools"@) {
        Some(v) => {
            law_tags_are_taken_off(tag, v);
        },
        None => {},
    }
    match YamlV::Mapping(members).get("metadata"@) {
        Some(v) => {
            law_tags_are_taken_off(tag, v);
        },
        None => {},
    }
}

/// A head of which every member is what it has to be is taken: a text where a text is asked for,
/// and further data and tools that are texts.
pub proof fn law_sound_heads_are_taken(v: YamlV, name: Seq<char>, description: Seq<char>)
    requires
        v is Mapping,
        v.get("name"@) == Some(YamlV::Str(name)),
        v.get("description"@) == Some(YamlV::Str(description)),
        v.get("license"@) is None || v.get("license"@)->0 is Str || v.get("license"@)->0 is Null,
        v.get("compatibility"@) is None || v.get("compatibility"@)->0 is Str || v.get(
            "compatibility"@,
        )->0 is Null,
        v.get("schema"@) is None || v.get("schema"@)->0 is Str || v.get("schema"@)->0 is Null,
        metadata_in(v) is Ok,
        allowed_in(v) is Ok,
    ensures
        frontmatter_in(v) matches Ok(fm) && fm.name == name && fm.description == description
            && fm.metadata == metadata_in(v)->Ok_0 && fm.allowed_tools == allowed_in(v)->Ok_0,
{
}

/// A list is read as texts if and only if each of its items is one, tags aside: they come in
/// order.
pub proof fn law_items_are_read_in_order(items: Seq<YamlV>)
    ensures
        match item_texts(items) {
            Some(texts) => texts.len() == items.len() && forall|i: int|
                0 <= i < items.len() ==> (#[trigger] items[i]).bare() == YamlV::Str(texts[i]),
            None => exists|i: int| 0 <= i < items.len() && !((#[trigger] items[i]).bare() is Str),
        },
    decreases items.len(),
{
    if items.len() > 0 {
        let head = items.drop_last();
        law_items_are_read_in_order(head);
        match item_texts(head) {
            Some(texts) => {
                if items.last().bare() is Str {
                    let all = item_texts(items)->0;
                    assert forall|i: int| 0 <= i < items.len() implies (#[trigger] items[i]).bare()
                        == YamlV::Str(all[i]) by {
                        if i < head.len() {
                            assert(head[i] == items[i]);
                        }
                    }
                } else {
                    assert(!(items[items.len() - 1].bare() is Str));
                }
            },
            None => {
                let i = choose|i: int| 0 <= i < head.len() && !((#[trigger] head[i]).bare() is Str);
                assert(!(items[i].bare() is Str));
            },
        }
    }
}

/// Further data is read if and only if each member is a text: the members come in order, each
/// under its own name.
pub proof fn law_data_is_read_in_order(members: Seq<(Seq<char>, YamlV)>)
    ensures
        match member_texts(members) {
            Some(pairs) => pairs.len() == members.len() && forall|i: int|
                0 <= i < members.len() ==> #[trigger] members[i] == (
                    pairs[i].0,
                    YamlV::Str(pairs[i].1),
                ),
            None => exists|i: int| 0 <= i < members.len() && !((#[trigger] members[i]).1 is Str),
        },
    decreases members.len(),
{
    if members.len() > 0 {
        let head = members.drop_last();
        law_data_is_read_in_order(head);
        match member_texts(head) {
            Some(pairs) => {
                if members.last().1 is Str {
                    let all = member_texts(members)->0;
                    assert forall|i: int| 0 <= i < members.len() implies #[trigger] members[i] == (
                        all[i].0,
                        YamlV::Str(all[i].1),
                    ) by {
                        if i < head.len() {
                            assert(head[i] == members[i]);
                        }
                    }
                } else {
                    assert(!(members[members.len() - 1].1 is Str));
                }
            },
            None => {
                let i = choose|i: int| 0 <= i < head.len() && !((#[trigger] head[i]).1 is Str);
                assert(!(members[i].1 is Str));
            },
        }
    }
}

/// A head is sound if and only if its description has 1 to 1024 characters and what it says of
/// compatibility no more than 500; what is said of one that is not names the skill.
pub proof fn law_sound_heads_keep_their_bounds(fm: FrontmatterV)
    ensures
        fault_of(fm) is None <==> 1 <= fm.description.len() <= 1024 && (fm.compatibility matches
            Some(c) ==> c.len() <= 500),
        fault_of(fm) matches Some(fault) ==> {
            &&& fault matches SkillErrorV::Invalid { name, reason }
            &&& name == fm.name
            &&& fm.description.len() == 0 || fm.description.len() > 1024 ==> ends_with(
                reason,
                decimal(fm.description.len()),
            )
            &&& 1 <= fm.description.len() <= 1024 ==> ends_with(
                reason,
                decimal(fm.compatibility->0.len()),
            )
        },
{
    lemma_ends_with("description must be 1-1024 characters, got "@, decimal(fm.description.len()));
    match fm.compatibility {
        Some(c) => {
            lemma_ends_with(
                "compatibility must be at most 500 characters, got "@,
                decimal(c.len()),
            );
        },
        None => {},
    }
}

/// What a `SKILL.md` holds is the head that its first part writes, if it is sound, and its second
/// part as it stands; a byte order mark does not count.
pub proof fn law_a_skill_is_its_head_and_its_body(content: Seq<char>)
    ensures
        parsed(content) matches Ok(held) ==> {
            &&& split_content(content) matches Some((yaml, body))
            &&& held.1 == body
            &&& yaml_read(yaml) matches Ok(v)
            &&& frontmatter_in(v) == Ok::<FrontmatterV, Seq<char>>(held.0)
            &&& fault_of(held.0) is None
        },
        split_content(content) is None ==> parsed(content) is Err,
        split_content(content) matches Some(parts) ==> (yaml_read(parts.0) matches Ok(v) ==> (
        frontmatter_in(v) matches Ok(fm) ==> (fault_of(fm) is None ==> parsed(content) == Ok::<
            (FrontmatterV, Seq<char>),
            SkillErrorV,
        >((fm, parts.1))))),
        content.len() == 0 || content[0] != '\u{feff}' ==> split_content(seq!['\u{feff}'] + content)
            == split_content(content),
{
    assert((seq!['\u{feff}'] + content).skip(1) =~= content);
}

/// What cannot be read of a head is an error that ends with the reason.
pub proof fn law_head_errors_tell_the_reason(v: YamlV, why: Seq<char>)
    ensures
        checked_frontmatter(Err(why)) matches Err(SkillErrorV::Parse(m)) && ends_with(m, why),
        frontmatter_in(v) matches Err(e) ==> (checked_frontmatter(Ok(v)) matches Err(
            SkillErrorV::Parse(m),
        ) && ends_with(m, e)),
        frontmatter_in(v) matches Ok(fm) ==> (fault_of(fm) matches Some(fault)
            ==> checked_frontmatter(Ok(v)) == Err::<FrontmatterV, SkillErrorV>(fault)),
        ends_with(SkillErrorV::Io(why).words(), why),
        ends_with(SkillErrorV::Parse(why).words(), why),
{
    lemma_ends_with("invalid frontmatter: "@, why);
    match frontmatter_in(v) {
        Err(e) => {
            lemma_ends_with("invalid frontmatter: "@, e);
        },
        Ok(_) => {},
    }
    lemma_ends_with("io error: "@, why);
    lemma_ends_with("parse error: "@, why);
}

/// A skill is admitted if and only if its `SKILL.md` could be read, is sound, and bears the name
/// of its directory: it has the head and the body that were read, and the directory's path.
pub proof fn law_skills_bear_their_directory_name(
    dir: SkillDirV,
    held: Result<(FrontmatterV, Seq<char>), SkillErrorV>,
)
    ensures
        admitted(dir, held) matches Ok(skill) ==> {
            &&& held == Ok::<(FrontmatterV, Seq<char>), SkillErrorV>(
                (skill.frontmatter, skill.body),
            )
            &&& skill.dir == dir.path
            &&& skill.frontmatter.name == dir.name
        },
        admitted(dir, held) is Ok <==> dir.content is Ok && (held matches Ok(pair) && pair.0.name
            == dir.name),
        admitted(dir, held) matches Err(warning) ==> exists|why: Seq<char>|
            warning == #[trigger] skipping(dir.path, why),
        dir.content is Ok ==> (held matches Err(e) ==> admitted(dir, held) == Err::<
            ParsedSkillV,
            Seq<char>,
        >(skipping(dir.path, e.words()))),
{
}

/// A warning names the directory that is passed over and ends with the reason.
pub proof fn law_warnings_name_the_directory(path: Seq<char>, why: Seq<char>)
    ensures
        ("[skill] skipping "@ + path).is_prefix_of(skipping(path, why)),
        ends_with(skipping(path, why), why),
{
    let lead = "[skill] skipping "@ + path;
    let all = skipping(path, why);
    assert(all.take(lead.len() as int) =~= lead);
    lemma_ends_with(lead + ": "@, why);
    assert(all =~= lead + ": "@ + why);
}

/// Every directory gives either a skill or a warning, in order: one that holds no skill keeps no
/// other from being found.
pub proof fn law_directories_are_taken_in_order(dirs: Seq<SkillDirV>, dir: SkillDirV)
    ensures
        skills_in(Seq::<SkillDirV>::empty()).len() == 0,
        warnings_in(Seq::<SkillDirV>::empty()).len() == 0,
        found_in(dir) matches Ok(skill) ==> skills_in(dirs.push(dir)) == skills_in(dirs).push(skill)
            && warnings_in(dirs.push(dir)) == warnings_in(dirs),
        found_in(dir) matches Err(w) ==> skills_in(dirs.push(dir)) == skills_in(dirs)
            && warnings_in(dirs.push(dir)) == warnings_in(dirs).push(w),
        dir.content matches Ok(content) ==> found_in(dir) == admitted(dir, parsed(content)),
{
    assert(dirs.push(dir).drop_last() =~= dirs);
}

/// A skill that says nothing of what it is given is given one text, and one that says nothing of
/// its result gives one text back; both have to be there.
pub proof fn law_free_schemas_are_texts()
    ensures
        ({
            &&& free_input().get("properties"@) matches Some(p)
            &&& p.get("input"@) matches Some(field)
            &&& field.get("type"@) == Some(JsonV::Str("string"@))
        }),
        free_input().get("required"@) matches Some(JsonV::Array(names)) && names == seq![
            JsonV::Str("input"@),
        ],
        free_input().get("type"@) == Some(JsonV::Str("object"@)),
        ({
            &&& free_output().get("properties"@) matches Some(p)
            &&& p.get("result"@) matches Some(field)
            &&& field.get("type"@) == Some(JsonV::Str("string"@))
        }),
        free_output().get("required"@) matches Some(JsonV::Array(names)) && names == seq![
            JsonV::Str("result"@),
        ],
        free_output().get("type"@) == Some(JsonV::Str("object"@)),
{
    let task = "The task to perform with this skill, in natural language."@;
    let result = "The skill's result, as free text."@;
    let given = seq![("input"@, text_parameter_schema(task))];
    let back = seq![("result"@, text_parameter_schema(result))];
    law_text_parameters_declare_texts(task);
    law_text_parameters_declare_texts(result);
    law_parameters_declare_an_object(given, seq!["input"@]);
    law_parameters_declare_an_object(back, seq!["result"@]);
    law_first_member_is_found(given, "input"@, 0);
    law_first_member_is_found(back, "result"@, 0);
}

/// The schemas of a skill are those that its schema file declares, each under its own name and as
/// it stands there; what is declared has to be an object. A skill that names no file reads none.
pub proof fn law_schemas_are_read_by_name(
    skill: ParsedSkillV,
    path: Seq<char>,
    v: JsonV,
    text: Result<Seq<char>, Seq<char>>,
    schema: JsonV,
)
    requires
        v is Object,
    ensures
        schemas_in(path, Ok(v)) matches Ok(shapes) ==> {
            &&& v.get("inputSchema"@) matches Some(input) ==> shapes.0 == input && input is Object
            &&& v.get("inputSchema"@) is None ==> shapes.0 == free_input()
            &&& v.get("outputSchema"@) == shapes.1
            &&& shapes.1 matches Some(output) ==> output is Object
        },
        schemas_in(path, Ok(v)) is Err <==> (v.get("inputSchema"@) matches Some(input) && !(
        input is Object)) || (v.get("outputSchema"@) matches Some(output) && !(output is Object)),
        skill.frontmatter.schema is None ==> skill.schemas(text) == Ok::<
            (JsonV, Option<JsonV>),
            SkillErrorV,
        >((free_input(), None)),
        skill.frontmatter.schema == Some(path) ==> (text matches Ok(t) ==> (json_read(t) == Ok::<
            JsonV,
            Seq<char>,
        >(v) ==> skill.schemas(text) == schemas_in(path, Ok(v)))),
        skill.frontmatter.schema is Some && text is Err ==> skill.schemas(text) is Err,
{
}

/// What a schema file that is of no use is reported as ends with the reason and names the file.
pub proof fn law_schema_errors_name_the_file(skill: ParsedSkillV, path: Seq<char>, why: Seq<char>)
    ensures
        schemas_in(path, Err(why)) matches Err(SkillErrorV::Parse(m)) && ends_with(
            m,
            path + ("': "@ + why),
        ),
        skill.frontmatter.schema == Some(path) ==> (skill.schemas(Err(why)) matches Err(
            SkillErrorV::Parse(m),
        ) && ends_with(m, path + ("': "@ + why))),
{
    lemma_ends_with("invalid schema '"@, path + ("': "@ + why));
    lemma_ends_with("cannot read schema '"@, path + ("': "@ + why));
    assert("invalid schema '"@ + path + ("': "@ + why) =~= "invalid schema '"@ + (path + ("': "@
        + why)));
    assert("cannot read schema '"@ + path + ("': "@ + why) =~= "cannot read schema '"@ + (path
        + ("': "@ + why)));
}

/// A skill is told its instructions, then what it is given, written as JSON, and last how to give
/// its result back. It never refuses a call.
pub proof fn law_skills_are_told_what_they_are_given(skill: SkillTool, params: JsonV)
    ensures
        skill.seeded(params, false) matches Ok(blocks) && blocks.len() == 3 && blocks[0]
            == BlockV::Text(skill.skill.body@) && blocks[1] == BlockV::Text(json_text(params))
            && blocks[2] == BlockV::Text(reminder()),
        skill.seeded(params, true) matches Ok(blocks) && blocks.len() == 2 && blocks[0]
            == BlockV::Text(json_text(params)) && blocks[1] == BlockV::Text(reminder()),
{
}

/// A skill is offered under the name and with the description of its head; what it is given
/// follows its schema.
pub proof fn law_skills_are_offered(tools: Seq<ToolSpecV>, skill: SkillTool, other: Seq<char>)
    requires
        distinct_tools(tools),
    ensures
        match find_tool(with_skill(tools, skill), skill.skill.frontmatter.name@) {
            Some(found) => {
                &&& found.definition.name == skill.skill.frontmatter.name@
                &&& found.definition.description == skill.skill.frontmatter.description@
                &&& found.definition.parameters == crate::subagent::session_schema(
                    skill.input_schema@,
                )
                &&& found.output is None
            },
            None => false,
        },
        other != skill.skill.frontmatter.name@ ==> find_tool(with_skill(tools, skill), other)
            == find_tool(tools, other),
        distinct_tools(with_skill(tools, skill)),
        skill.shapes() == (skill.input_schema@, opt_view(skill.output_schema)),
{
    crate::tools::law_register(
        tools,
        ToolSpecV { definition: SubagentTool { subagent: skill }.declared(), output: None },
        other,
    );
}

/// Skills are taken in one after the other.
pub proof fn law_skills_are_taken_in_order(
    tools: Seq<ToolSpecV>,
    skills: Seq<SkillTool>,
    skill: SkillTool,
)
    ensures
        with_skills(tools, Seq::empty()) == tools,
        with_skills(tools, skills.push(skill)) == with_skill(with_skills(tools, skills), skill),
{
    assert(skills.push(skill).drop_last() =~= skills);
}

/// A skill is left out if and only if its schemas are of no use, and the warning says why.
pub proof fn law_useless_schemas_leave_a_skill_out(
    skill: ParsedSkillV,
    text: Result<Seq<char>, Seq<char>>,
)
    ensures
        skipped_for(skill, text) is None <==> skill.schemas(text) is Ok,
        skill.schemas(text) matches Err(e) ==> skipped_for(skill, text) == Some(
            skipping(skill.dir, e.words()),
        ),
{
}

/// What is said of a member of the wrong type names the member and ends with what was expected.
pub proof fn law_wrong_members_are_named(v: YamlV, key: Seq<char>, expected: Seq<char>)
    ensures
        ("invalid type: `"@ + key + "`"@).is_prefix_of(wrong_type(key, expected)),
        ends_with(wrong_type(key, expected), expected),
        v.get(key) matches Some(value) ==> (!(value is Str) ==> needed_text(v, key) == Err::<
            Seq<char>,
            Seq<char>,
        >(wrong_type(key, "a string"@))),
        v.get(key) is None ==> needed_text(v, key) == Err::<Seq<char>, Seq<char>>(
            "missing field `"@ + key + "`"@,
        ),
        v.get(key) matches Some(value) ==> (!(value is Str) && !(value is Null) ==> optional_text(
            v,
            key,
        ) == Err::<Option<Seq<char>>, Seq<char>>(wrong_type(key, "a string"@))),
{
    reveal_strlit("`");
    reveal_strlit("`, expected ");
    assert("`"@.len() == 1);
    let lead = "invalid type: `"@ + key;
    let rest = "`, expected "@;
    assert(rest.take(1) =~= "`"@);
    assert(wrong_type(key, expected) =~= lead + rest + expected);
    assert((lead + rest + expected).take((lead + "`"@).len() as int) =~= lead + "`"@);
    lemma_ends_with(lead + rest, expected);
}

/// A skill whose head bears another name than its directory is passed over, and both names are
/// told; a skill that breaks a rule is named, and the rule is told last.
pub proof fn law_mismatched_names_are_told(
    dir: SkillDirV,
    fm: FrontmatterV,
    body: Seq<char>,
    reason: Seq<char>,
)
    ensures
        dir.content is Ok && fm.name != dir.name ==> admitted(dir, Ok((fm, body))) == Err::<
            ParsedSkillV,
            Seq<char>,
        >(
            skipping(
                dir.path,
                "frontmatter name '"@ + fm.name + ("' must match directory '"@ + dir.name + "'"@),
            ),
        ),
        dir.content matches Err(e) ==> admitted(dir, Ok((fm, body))) == Err::<
            ParsedSkillV,
            Seq<char>,
        >(skipping(dir.path, "cannot read SKILL.md ("@ + e + ")"@)),
        ends_with((SkillErrorV::Invalid { name: fm.name, reason }).words(), reason),
        ("invalid skill '"@ + fm.name).is_prefix_of(
            (SkillErrorV::Invalid { name: fm.name, reason }).words(),
        ),
{
    let lead = "invalid skill '"@ + fm.name;
    let words = (SkillErrorV::Invalid { name: fm.name, reason }).words();
    assert(words =~= lead + "': "@ + reason);
    lemma_ends_with(lead + "': "@, reason);
    assert(words.take(lead.len() as int) =~= lead);
}

/// A schema that is no object is refused by its name, the one of the input first; so is a schema
/// file that holds none.
pub proof fn law_useless_schemas_are_named(path: Seq<char>, v: JsonV, key: Seq<char>)
    ensures
        v.get(key) matches Some(schema) ==> (!(schema is Object) ==> (schema_member(v, key) matches
            Err(SkillErrorV::Invalid { name, reason }) && name == key && ends_with(
            reason,
            key + "' must be a JSON object"@,
        ))),
        v is Object ==> (schema_member(v, "inputSchema"@) matches Err(e) ==> schemas_in(path, Ok(v))
            == Err::<(JsonV, Option<JsonV>), SkillErrorV>(e)),
        v is Object && schema_member(v, "inputSchema"@) is Ok ==> (schema_member(
            v,
            "outputSchema"@,
        ) matches Err(e) ==> schemas_in(path, Ok(v)) == Err::<
            (JsonV, Option<JsonV>),
            SkillErrorV,
        >(e)),
        !(v is Object) ==> schemas_in(path, Ok(v)) is Err,
{
    lemma_ends_with("'"@, key + "' must be a JSON object"@);
    assert("'"@ + key + "' must be a JSON object"@ =~= "'"@ + (key + "' must be a JSON object"@));
}

/// A fence is three hyphens, with white space behind them at most and nothing before them.
pub proof fn law_fences_are_three_hyphens(line: Seq<char>)
    ensures
        is_fence(line) <==> line.len() >= 3 && line.take(3) == "---"@ && (forall|i: int|
            3 <= i < line.len() ==> is_space(#[trigger] line[i])),
{
    reveal_strlit("---");
    assert("---"@.len() == 3);
    assert("---"@[2] == '-');
    law_trimming_the_end(line);
    let kept = trimmed_end(line);
    if is_fence(line) {
        assert(line.take(3) =~= "---"@);
    }
    if line.len() >= 3 && line.take(3) == "---"@ && (forall|i: int|
        3 <= i < line.len() ==> is_space(#[trigger] line[i])) {
        assert(line[2] == line.take(3)[2]);
        assert(!is_space(line[2]));
        if kept.len() < 3 {
            assert(is_space(line[2]));
        }
        if kept.len() > 3 {
            assert(is_space(line[kept.len() - 1]));
        }
        assert(kept =~= "---"@);
    }
}

/// The tools that a head allows are read where it says nothing of them, says nothing under their
/// name, or says it in a text or in a list of texts, tags aside, and only there.
pub proof fn law_allowed_tools_are_read(v: YamlV, text: Seq<char>, items: Seq<YamlV>)
    ensures
        v.get("allowed-tools"@) is None || v.get("allowed-tools"@) == Some(YamlV::Null)
            ==> allowed_in(v) == Ok::<Seq<Seq<char>>, Seq<char>>(Seq::empty()),
        v.get("allowed-tools"@) matches Some(value) ==> (value.bare() == YamlV::Str(text)
            ==> allowed_in(v) == Ok::<Seq<Seq<char>>, Seq<char>>(words_of(text))),
        v.get("allowed-tools"@) matches Some(value) ==> (value.bare() == YamlV::Sequence(items)
            ==> (allowed_in(v) is Ok <==> item_texts(items) is Some)),
        v.get("allowed-tools"@) matches Some(value) ==> (value.bare() == YamlV::Sequence(items)
            ==> (item_texts(items) matches Some(names) ==> allowed_in(v) == Ok::<
            Seq<Seq<char>>,
            Seq<char>,
        >(names))),
        v.get("allowed-tools"@) matches Some(value) ==> (!(value is Null) && !(
        value.bare() is Str) && !(value.bare() is Sequence) ==> allowed_in(v) == Err::<
            Seq<Seq<char>>,
            Seq<char>,
        >(wrong_type("allowed-tools"@, "a string or a sequence of strings"@))),
{
}

/// Further data is read where there is none, or a mapping of texts, tags before it aside, and
/// only there.
pub proof fn law_further_data_is_read(v: YamlV, members: Seq<(Seq<char>, YamlV)>)
    ensures
        v.get("metadata"@) is None ==> metadata_in(v) == Ok::<
            Seq<(Seq<char>, Seq<char>)>,
            Seq<char>,
        >(Seq::empty()),
        v.get("metadata"@) matches Some(value) ==> (value.bare() == YamlV::Mapping(members)
            ==> match member_texts(members) {
            Some(pairs) => metadata_in(v) == Ok::<Seq<(Seq<char>, Seq<char>)>, Seq<char>>(pairs),
            None => metadata_in(v) is Err,
        }),
        v.get("metadata"@) matches Some(value) ==> (!(value.bare() is Mapping) ==> metadata_in(v)
            == Err::<Seq<(Seq<char>, Seq<char>)>, Seq<char>>(
            wrong_type("metadata"@, "a map of strings"@),
        )),
{
}

} // verus!
