//! Tools: what they declare, why they fail, and the registry that holds them by name.
use vstd::prelude::*;

use crate::json::{Json, JsonV};
use crate::text::{concat2, ends_with, lemma_ends_with, same, views};
use crate::types::{ToolDefinition, ToolDefinitionV};

verus! {

/// Why a tool gave no result.
#[derive(Debug, PartialEq)]
pub enum ToolError {
    Validation(String),
    Execution(String),
    Aborted,
}

/// What a [`ToolError`] is.
#[verifier::ext_equal]
pub enum ToolErrorV {
    Validation(Seq<char>),
    Execution(Seq<char>),
    Aborted,
}

impl View for ToolError {
    type V = ToolErrorV;

    open spec fn view(&self) -> ToolErrorV {
        match self {
            ToolError::Validation(m) => ToolErrorV::Validation(m@),
            ToolError::Execution(m) => ToolErrorV::Execution(m@),
            ToolError::Aborted => ToolErrorV::Aborted,
        }
    }
}

impl Clone for ToolError {
    fn clone(&self) -> (r: Self)
        ensures
            r@ == self@,
    {
        match self {
            ToolError::Validation(m) => ToolError::Validation(m.clone()),
            ToolError::Execution(m) => ToolError::Execution(m.clone()),
            ToolError::Aborted => ToolError::Aborted,
        }
    }
}

impl ToolErrorV {
    /// The error in words.
    pub open spec fn words(self) -> Seq<char> {
        match self {
            ToolErrorV::Validation(m) => "validation error: "@ + m,
            ToolErrorV::Execution(m) => "execution error: "@ + m,
            ToolErrorV::Aborted => "aborted"@,
        }
    }
}

impl ToolError {
    /// The error in words.
    pub fn words(&self) -> (r: String)
        ensures
            r@ == self@.words(),
    {
        match self {
            ToolError::Validation(m) => concat2("validation error: ", m.as_str()),
            ToolError::Execution(m) => concat2("execution error: ", m.as_str()),
            ToolError::Aborted => "aborted".to_owned(),
        }
    }
}

/// What a tool declares: its definition, whose parameters are its input schema, and the
/// schema that its output follows, where it has one.
#[derive(Debug, PartialEq)]
pub struct ToolSpec {
    pub definition: ToolDefinition,
    pub output: Option<Json>,
}

/// What a [`ToolSpec`] is.
#[verifier::ext_equal]
pub struct ToolSpecV {
    pub definition: ToolDefinitionV,
    pub output: Option<JsonV>,
}

impl View for ToolSpec {
    type V = ToolSpecV;

    open spec fn view(&self) -> ToolSpecV {
        ToolSpecV {
            definition: self.definition@,
            output: match self.output {
                Some(v) => Some(v@),
                None => None,
            },
        }
    }
}

impl Clone for ToolSpec {
    fn clone(&self) -> (r: Self)
        ensures
            r@ == self@,
    {
        ToolSpec {
            definition: self.definition.clone(),
            output: match &self.output {
                Some(v) => Some(v.clone()),
                None => None,
            },
        }
    }
}

/// The position of the tool of that name, or the number of tools.
pub open spec fn tool_position(tools: Seq<ToolSpecV>, name: Seq<char>) -> int
    decreases tools.len(),
{
    if tools.len() == 0 {
        0
    } else if tools[0].definition.name == name {
        0
    } else {
        1 + tool_position(tools.skip(1), name)
    }
}

/// The tool of that name.
pub open spec fn find_tool(tools: Seq<ToolSpecV>, name: Seq<char>) -> Option<ToolSpecV> {
    if tool_position(tools, name) < tools.len() {
        Some(tools[tool_position(tools, name)])
    } else {
        None
    }
}

/// The tools once `tool` is among them: in the place of the one of its name, or last.
pub open spec fn with_tool(tools: Seq<ToolSpecV>, tool: ToolSpecV) -> Seq<ToolSpecV> {
    let at = tool_position(tools, tool.definition.name);
    if at < tools.len() {
        tools.update(at, tool)
    } else {
        tools.push(tool)
    }
}

/// The tools that `names` names, in the order in which they stand.
pub open spec fn tool_subset(tools: Seq<ToolSpecV>, names: Seq<Seq<char>>) -> Seq<ToolSpecV> {
    tools.filter(|t: ToolSpecV| names.contains(t.definition.name))
}

/// No two tools share a name.
pub open spec fn distinct_tools(tools: Seq<ToolSpecV>) -> bool {
    forall|i: int, j: int|
        0 <= i < j < tools.len() ==> (#[trigger] tools[i]).definition.name != (
        #[trigger] tools[j]).definition.name
}

/// The position found is the first one of that name.
pub proof fn lemma_tool_position(tools: Seq<ToolSpecV>, name: Seq<char>)
    ensures
        0 <= tool_position(tools, name) <= tools.len(),
        tool_position(tools, name) < tools.len() ==> tools[tool_position(
            tools,
            name,
        )].definition.name == name,
        forall|j: int|
            0 <= j < tool_position(tools, name) ==> (#[trigger] tools[j]).definition.name != name,
    decreases tools.len(),
{
    if tools.len() > 0 && tools[0].definition.name != name {
        lemma_tool_position(tools.skip(1), name);
        assert forall|j: int| 0 <= j < tool_position(tools, name) implies (
        #[trigger] tools[j]).definition.name != name by {
            if j > 0 {
                assert(tools.skip(1)[j - 1] == tools[j]);
            }
        }
    }
}

/// A position of that name behind which nothing was skipped is the first one.
pub proof fn lemma_tool_position_is(tools: Seq<ToolSpecV>, name: Seq<char>, at: int)
    requires
        0 <= at <= tools.len(),
        at < tools.len() ==> tools[at].definition.name == name,
        forall|j: int| 0 <= j < at ==> (#[trigger] tools[j]).definition.name != name,
    ensures
        tool_position(tools, name) == at,
{
    lemma_tool_position(tools, name);
    let found = tool_position(tools, name);
    if found < at {
        assert(tools[found].definition.name == name);
    } else if at < found {
        assert(tools[at].definition.name == name);
    }
}

/// A registered tool is found under its name, and every other name finds what it found.
pub proof fn law_register(tools: Seq<ToolSpecV>, tool: ToolSpecV, other: Seq<char>)
    requires
        distinct_tools(tools),
    ensures
        distinct_tools(with_tool(tools, tool)),
        find_tool(with_tool(tools, tool), tool.definition.name) == Some(tool),
        other != tool.definition.name ==> find_tool(with_tool(tools, tool), other) == find_tool(
            tools,
            other,
        ),
{
    let name = tool.definition.name;
    let at = tool_position(tools, name);
    let after = with_tool(tools, tool);
    lemma_tool_position(tools, name);
    assert forall|i: int, j: int| 0 <= i < j < after.len() implies (
    #[trigger] after[i]).definition.name != (#[trigger] after[j]).definition.name by {
        if i < tools.len() {
            assert(tools[i].definition.name == tools[i].definition.name);
        }
        if j < tools.len() {
            assert(tools[j].definition.name == tools[j].definition.name);
        }
    }
    lemma_tool_position_is(after, name, at);
    if other != name {
        lemma_tool_position(tools, other);
        let old_at = tool_position(tools, other);
        if old_at < tools.len() {
            assert forall|j: int| 0 <= j < old_at implies (#[trigger] after[j]).definition.name
                != other by {
                assert(tools[j].definition.name != other);
            }
            lemma_tool_position_is(after, other, old_at);
        } else {
            assert forall|j: int| 0 <= j < after.len() implies (#[trigger] after[j]).definition.name
                != other by {
                if j < tools.len() {
                    assert(tools[j].definition.name != other);
                }
            }
            lemma_tool_position_is(after, other, after.len() as int);
        }
    }
}

/// A subset offers a tool if and only if it is named and in the pool.
pub proof fn law_subset(tools: Seq<ToolSpecV>, names: Seq<Seq<char>>, tool: ToolSpecV)
    ensures
        tool_subset(tools, names).contains(tool) <==> tools.contains(tool) && names.contains(
            tool.definition.name,
        ),
    decreases tools.len(),
{
    let keep = |t: ToolSpecV| names.contains(t.definition.name);
    reveal(Seq::filter);
    if tools.len() > 0 {
        let head = tools.drop_last();
        let last = tools.last();
        law_subset(head, names, tool);
        assert(tools =~= head.push(last));
        let kept = head.filter(keep);
        if head.contains(tool) {
            let i = head.index_of(tool);
            assert(tools[i] == tool);
        }
        if tools.contains(tool) {
            let i = tools.index_of(tool);
            if i < head.len() {
                assert(head[i] == tool);
            }
        }
        if keep(last) {
            assert(tool_subset(tools, names) =~= kept.push(last));
            if kept.contains(tool) {
                let i = kept.index_of(tool);
                assert(kept.push(last)[i] == tool);
            }
            assert(kept.push(last)[kept.len() as int] == last);
            assert(tools[head.len() as int] == last);
            if kept.push(last).contains(tool) && tool != last {
                let i = kept.push(last).index_of(tool);
                assert(kept[i] == tool);
            }
        } else {
            assert(tool_subset(tools, names) =~= kept);
        }
    }
}

/// Without names a subset is empty: nothing is on offer until it is enabled.
pub proof fn law_subset_denies_by_default(tools: Seq<ToolSpecV>)
    ensures
        tool_subset(tools, Seq::empty()) == Seq::<ToolSpecV>::empty(),
    decreases tools.len(),
{
    reveal(Seq::filter);
    if tools.len() > 0 {
        law_subset_denies_by_default(tools.drop_last());
        assert(!Seq::<Seq<char>>::empty().contains(tools.last().definition.name));
    }
    assert(tool_subset(tools, Seq::empty()) =~= Seq::<ToolSpecV>::empty());
}

/// The tools of an agent, by name.
#[derive(Debug, PartialEq)]
pub struct ToolRegistry {
    tools: Vec<ToolSpec>,
}

impl View for ToolRegistry {
    type V = Seq<ToolSpecV>;

    closed spec fn view(&self) -> Seq<ToolSpecV> {
        views(self.tools@)
    }
}

impl Clone for ToolRegistry {
    fn clone(&self) -> (r: Self)
        ensures
            r@ == self@,
    {
        let tools = self.tools.clone();
        assert(views(tools@) =~= views(self.tools@));
        ToolRegistry { tools }
    }
}

impl ToolRegistry {
    /// A registry without tools.
    pub fn new() -> (r: Self)
        ensures
            r@ == Seq::<ToolSpecV>::empty(),
    {
        let r = ToolRegistry { tools: Vec::new() };
        assert(r@ =~= Seq::empty());
        r
    }

    /// The place of a tool, or the number of tools.
    fn position(&self, name: &str) -> (at: usize)
        ensures
            at == tool_position(self@, name@),
            at <= self.tools@.len(),
    {
        let mut i: usize = 0;
        while i < self.tools.len()
            invariant
                i <= self.tools@.len(),
                forall|j: int| 0 <= j < i ==> (#[trigger] self@[j]).definition.name != name@,
            decreases self.tools@.len() - i,
        {
            assert(self@[i as int] == self.tools@[i as int]@);
            if same(self.tools[i].definition.name.as_str(), name) {
                proof {
                    lemma_tool_position_is(self@, name@, i as int);
                }
                return i;
            }
            i += 1;
        }
        proof {
            lemma_tool_position_is(self@, name@, i as int);
        }
        i
    }

    /// Puts a tool into the registry, in the place of the one of its name.
    pub fn register(&mut self, tool: ToolSpec)
        ensures
            final(self)@ == with_tool(old(self)@, tool@),
    {
        let ghost before = self@;
        let ghost shown = tool@;
        let at: usize = self.position(tool.definition.name.as_str());
        if at < self.tools.len() {
            self.tools[at] = tool;
            assert(self@ =~= before.update(at as int, shown));
        } else {
            self.tools.push(tool);
            assert(self@ =~= before.push(shown));
        }
    }

    /// The tool of that name.
    pub fn get(&self, name: &str) -> (r: Option<&ToolSpec>)
        ensures
            match r {
                Some(t) => find_tool(self@, name@) == Some(t@),
                None => find_tool(self@, name@) is None,
            },
    {
        let at: usize = self.position(name);
        if at < self.tools.len() {
            Some(&self.tools[at])
        } else {
            None
        }
    }

    /// Whether a tool of that name is registered.
    pub fn contains(&self, name: &str) -> (r: bool)
        ensures
            r == (find_tool(self@, name@) is Some),
    {
        self.position(name) < self.tools.len()
    }

    /// The number of tools.
    pub fn len(&self) -> (n: usize)
        ensures
            n == self@.len(),
    {
        self.tools.len()
    }

    /// The definitions of the tools, in order: what a model is told of them.
    pub fn definitions(&self) -> (r: Vec<ToolDefinition>)
        ensures
            views(r@) == definitions_of(self@),
    {
        let mut out: Vec<ToolDefinition> = Vec::new();
        let mut i: usize = 0;
        while i < self.tools.len()
            invariant
                i <= self.tools@.len(),
                out@.len() == i,
                forall|j: int|
                    0 <= j < i ==> (#[trigger] out@[j])@ == self.tools@[j].definition@,
            decreases self.tools@.len() - i,
        {
            out.push(self.tools[i].definition.clone());
            i += 1;
        }
        assert(views(out@) =~= definitions_of(self@));
        out
    }

    /// The tools themselves, in order, each with its input and output schemas.
    pub fn schemas(&self) -> (r: Vec<ToolSpec>)
        ensures
            views(r@) == self@,
    {
        let r = self.tools.clone();
        assert(views(r@) =~= self@);
        r
    }

    /// The registry of the tools that `names` names.
    pub fn subset(&self, names: &Vec<String>) -> (r: ToolRegistry)
        ensures
            r@ == tool_subset(self@, views(names@)),
    {
        let ghost all = self@;
        let ghost wanted = views(names@);
        let ghost keep = |t: ToolSpecV| wanted.contains(t.definition.name);
        let mut out: Vec<ToolSpec> = Vec::new();
        let mut i: usize = 0;
        proof {
            reveal(Seq::filter);
            assert(all.take(0) =~= Seq::empty());
            assert(views(out@) =~= all.take(0).filter(keep));
        }
        while i < self.tools.len()
            invariant
                i <= self.tools@.len(),
                all == views(self.tools@),
                wanted == views(names@),
                keep == (|t: ToolSpecV| wanted.contains(t.definition.name)),
                views(out@) == all.take(i as int).filter(keep),
            decreases self.tools@.len() - i,
        {
            let tool = &self.tools[i];
            let wants = contains_text(names, tool.definition.name.as_str());
            let ghost before = out@;
            if wants {
                out.push(tool.clone());
            }
            proof {
                reveal(Seq::filter);
                let next = all.take(i + 1);
                assert(next.drop_last() =~= all.take(i as int));
                assert(next.last() == tool@);
                assert(keep(tool@) == wants);
                if wants {
                    assert(views(out@) =~= views(before).push(tool@));
                }
            }
            i += 1;
        }
        assert(all.take(all.len() as int) =~= all);
        ToolRegistry { tools: out }
    }
}

/// The definitions of tools, in order.
pub open spec fn definitions_of(tools: Seq<ToolSpecV>) -> Seq<ToolDefinitionV> {
    Seq::new(tools.len(), |i: int| tools[i].definition)
}

/// Whether `text` is among `texts`.
pub fn contains_text(texts: &Vec<String>, text: &str) -> (r: bool)
    ensures
        r == views(texts@).contains(text@),
{
    let mut i: usize = 0;
    while i < texts.len()
        invariant
            i <= texts@.len(),
            forall|j: int| 0 <= j < i ==> (#[trigger] views(texts@)[j]) != text@,
        decreases texts@.len() - i,
    {
        if same(texts[i].as_str(), text) {
            assert(views(texts@)[i as int] == text@);
            return true;
        }
        i += 1;
    }
    false
}

/// What is told of tools is what each of them declares, in order.
pub proof fn law_definitions_stand_in_order(tools: Seq<ToolSpecV>, i: int)
    requires
        0 <= i < tools.len(),
    ensures
        definitions_of(tools).len() == tools.len(),
        definitions_of(tools)[i] == tools[i].definition,
{
}

/// What a tool fails with tells the reason, and whether it was its input or its work.
pub proof fn law_tool_errors_tell_the_reason(why: Seq<char>)
    ensures
        ends_with(ToolErrorV::Validation(why).words(), why),
        ends_with(ToolErrorV::Execution(why).words(), why),
        ToolErrorV::Validation(why).words() != ToolErrorV::Execution(why).words(),
{
    reveal_strlit("validation error: ");
    reveal_strlit("execution error: ");
    assert("validation error: "@.len() == 18);
    assert("execution error: "@.len() == 17);
    lemma_ends_with("validation error: "@, why);
    lemma_ends_with("execution error: "@, why);
}

/// Tools keep their order: one of a known name stays in its place, and a new one comes last.
pub proof fn law_tools_keep_their_order(tools: Seq<ToolSpecV>, tool: ToolSpecV)
    ensures
        find_tool(tools, tool.definition.name) is None ==> with_tool(tools, tool) == tools.push(
            tool,
        ),
        find_tool(tools, tool.definition.name) is Some ==> with_tool(tools, tool).len()
            == tools.len(),
        forall|i: int|
            0 <= i < tools.len() ==> (#[trigger] with_tool(tools, tool)[i]).definition.name
                == tools[i].definition.name,
        forall|i: int|
            0 <= i < tools.len() && tools[i].definition.name != tool.definition.name
                ==> #[trigger] with_tool(tools, tool)[i] == tools[i],
{
    lemma_tool_position(tools, tool.definition.name);
}

/// A subset is taken tool by tool, in the order of the pool.
pub proof fn law_subsets_keep_the_order(
    tools: Seq<ToolSpecV>,
    names: Seq<Seq<char>>,
    tool: ToolSpecV,
)
    ensures
        tool_subset(Seq::empty(), names).len() == 0,
        names.contains(tool.definition.name) ==> tool_subset(tools.push(tool), names)
            == tool_subset(tools, names).push(tool),
        !names.contains(tool.definition.name) ==> tool_subset(tools.push(tool), names)
            == tool_subset(tools, names),
{
    reveal(Seq::filter);
    assert(tools.push(tool).drop_last() =~= tools);
}

} // verus!
