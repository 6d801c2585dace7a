//! JSON values, held as plain data.
use serde_json::Value;
use vstd::prelude::*;

use crate::text::{
    concat2, concat3, decimal, decimal_text, ends_with, lemma_ends_with, same, signed, signed_text,
    views,
};

verus! {

/// A JSON value. An object holds its members in the order in which they are written.
#[derive(Debug, PartialEq)]
pub enum Json {
    Null,
    Bool(bool),
    /// A number that is no less than zero and fits 64 bits.
    UInt(u64),
    /// A number below zero that fits 64 bits.
    NegInt(i64),
    /// Any other number, by its text.
    Float(String),
    Str(String),
    Array(Vec<Json>),
    Object(Vec<(String, Json)>),
}

/// What a [`Json`] value is.
#[verifier::ext_equal]
pub enum JsonV {
    Null,
    Bool(bool),
    UInt(u64),
    NegInt(i64),
    Float(Seq<char>),
    Str(Seq<char>),
    Array(Seq<JsonV>),
    Object(Seq<(Seq<char>, JsonV)>),
}

impl JsonV {
    /// The position of the first member named `key` at or behind `from`, or the number of members.
    pub open spec fn position(members: Seq<(Seq<char>, JsonV)>, key: Seq<char>, from: int) -> int
        decreases members.len() - from,
    {
        if from < 0 || from >= members.len() {
            members.len() as int
        } else if members[from].0 == key {
            from
        } else {
            JsonV::position(members, key, from + 1)
        }
    }

    /// The first member named `key`, where the value is an object that has one.
    pub open spec fn get(self, key: Seq<char>) -> Option<JsonV> {
        match self {
            JsonV::Object(members) => {
                let at = JsonV::position(members, key, 0);
                if at < members.len() {
                    Some(members[at].1)
                } else {
                    None
                }
            },
            _ => None,
        }
    }

    /// The text, where the value is one.
    pub open spec fn as_str(self) -> Option<Seq<char>> {
        match self {
            JsonV::Str(s) => Some(s),
            _ => None,
        }
    }

    /// The number, where the value is one that is no less than zero and fits 64 bits.
    pub open spec fn as_u64(self) -> Option<u64> {
        match self {
            JsonV::UInt(n) => Some(n),
            _ => None,
        }
    }

    /// The text of the member named `key`, where there is one.
    pub open spec fn text_at(self, key: Seq<char>) -> Option<Seq<char>> {
        match self.get(key) {
            Some(v) => v.as_str(),
            None => None,
        }
    }

    /// The number of the member named `key`, or zero.
    pub open spec fn number_at(self, key: Seq<char>) -> u64 {
        match self.get(key) {
            Some(v) => match v.as_u64() {
                Some(n) => n,
                None => 0,
            },
            None => 0,
        }
    }

    /// The object with the member `key` set to `value`: in its place where there is one,
    /// behind the last member where there is none. Other values stay as they are.
    pub open spec fn with(self, key: Seq<char>, value: JsonV) -> JsonV {
        match self {
            JsonV::Object(members) => {
                let at = JsonV::position(members, key, 0);
                if at < members.len() {
                    JsonV::Object(members.update(at, (key, value)))
                } else {
                    JsonV::Object(members.push((key, value)))
                }
            },
            other => other,
        }
    }

    /// The object without its first member named `key`. Other values stay as they are.
    pub open spec fn without(self, key: Seq<char>) -> JsonV {
        match self {
            JsonV::Object(members) => {
                let at = JsonV::position(members, key, 0);
                if at < members.len() {
                    JsonV::Object(members.remove(at))
                } else {
                    self
                }
            },
            other => other,
        }
    }

    /// Whether the object has at most one member named `key`.
    pub open spec fn names_once(self, key: Seq<char>) -> bool {
        self matches JsonV::Object(members) ==> forall|i: int, j: int|
            0 <= i < j < members.len() ==> !((#[trigger] members[i]).0 == key && (
            #[trigger] members[j]).0 == key)
    }
}

/// The position found is the first one that carries the key.
pub proof fn lemma_position(members: Seq<(Seq<char>, JsonV)>, key: Seq<char>, from: int)
    requires
        0 <= from <= members.len(),
    ensures
        from <= JsonV::position(members, key, from) <= members.len(),
        JsonV::position(members, key, from) < members.len() ==> members[JsonV::position(
            members,
            key,
            from,
        )].0 == key,
        forall|j: int|
            from <= j < JsonV::position(members, key, from) ==> (#[trigger] members[j]).0 != key,
    decreases members.len() - from,
{
    if from < members.len() && members[from].0 != key {
        lemma_position(members, key, from + 1);
    }
}

/// A position behind which nothing was skipped is the first one.
pub proof fn lemma_position_is(members: Seq<(Seq<char>, JsonV)>, key: Seq<char>, at: int)
    requires
        0 <= at <= members.len(),
        at < members.len() ==> members[at].0 == key,
        forall|j: int| 0 <= j < at ==> (#[trigger] members[j]).0 != key,
    ensures
        JsonV::position(members, key, 0) == at,
{
    lemma_position(members, key, 0);
    let found = JsonV::position(members, key, 0);
    if found < at {
        assert(members[found].0 == key);
    }
    if at < found {
        assert(members[at].0 == key);
    }
}

/// What was set under a key is found there, and every other member stays as it was.
pub proof fn law_get_after_with(value: JsonV, key: Seq<char>, member: JsonV, other: Seq<char>)
    requires
        value is Object,
    ensures
        value.with(key, member).get(key) == Some(member),
        other != key ==> value.with(key, member).get(other) == value.get(other),
{
    let before = value->Object_0;
    let after = value.with(key, member)->Object_0;
    let at = JsonV::position(before, key, 0);
    lemma_position(before, key, 0);
    assert forall|j: int| 0 <= j < at implies (#[trigger] after[j]).0 != key by {
        assert(after[j] == before[j]);
    }
    lemma_position_is(after, key, at);
    if other != key {
        let old_at = JsonV::position(before, other, 0);
        lemma_position(before, other, 0);
        if old_at < before.len() {
            assert forall|j: int| 0 <= j < old_at implies (#[trigger] after[j]).0 != other by {
                assert(before[j].0 != other);
            }
            lemma_position_is(after, other, old_at);
        } else {
            assert forall|j: int| 0 <= j < after.len() implies (#[trigger] after[j]).0 != other by {
                if j < before.len() {
                    assert(before[j].0 != other);
                }
            }
            lemma_position_is(after, other, after.len() as int);
        }
    }
}

/// A member that was taken out is not found, where there was but one of its name, and every
/// other member stays as it was.
pub proof fn law_get_after_without(value: JsonV, key: Seq<char>, other: Seq<char>)
    requires
        value is Object,
    ensures
        value.names_once(key) ==> value.without(key).get(key) is None,
        other != key ==> value.without(key).get(other) == value.get(other),
{
    let before = value->Object_0;
    let after = value.without(key)->Object_0;
    let at = JsonV::position(before, key, 0);
    lemma_position(before, key, 0);
    assert forall|j: int| 0 <= j < after.len() implies (#[trigger] after[j]) == before[if j < at {
        j
    } else if at < before.len() {
        j + 1
    } else {
        j
    }] by {}
    if value.names_once(key) {
        assert forall|j: int| 0 <= j < after.len() implies (#[trigger] after[j]).0 != key by {
            if at < before.len() && j >= at {
                assert(before[at].0 == key);
                assert(after[j] == before[j + 1]);
            }
        }
        lemma_position_is(after, key, after.len() as int);
    }
    if other != key {
        let old_at = JsonV::position(before, other, 0);
        lemma_position(before, other, 0);
        let new_at = if old_at > at && at < before.len() {
            old_at - 1
        } else {
            old_at
        };
        assert forall|j: int| 0 <= j < new_at implies (#[trigger] after[j]).0 != other by {
            if at < before.len() && j >= at {
                assert(after[j] == before[j + 1]);
                assert(before[j + 1].0 != other);
            } else {
                assert(before[j].0 != other);
            }
        }
        lemma_position_is(after, other, new_at);
    }
}

impl View for Json {
    type V = JsonV;

    open spec fn view(&self) -> JsonV {
        self.model()
    }
}

impl Json {
    /// The value as mathematical data.
    pub open spec fn model(self) -> JsonV
        decreases self,
    {
        match self {
            Json::Null => JsonV::Null,
            Json::Bool(b) => JsonV::Bool(b),
            Json::UInt(n) => JsonV::UInt(n),
            Json::NegInt(n) => JsonV::NegInt(n),
            Json::Float(t) => JsonV::Float(t@),
            Json::Str(s) => JsonV::Str(s@),
            Json::Array(items) => JsonV::Array(
                Seq::new(
                    items@.len(),
                    |i: int|
                        if 0 <= i < items@.len() {
                            items@[i].model()
                        } else {
                            JsonV::Null
                        },
                ),
            ),
            Json::Object(members) => JsonV::Object(
                Seq::new(
                    members@.len(),
                    |i: int|
                        if 0 <= i < members@.len() {
                            (members@[i].0@, members@[i].1.model())
                        } else {
                            (Seq::<char>::empty(), JsonV::Null)
                        },
                ),
            ),
        }
    }

    /// The first member named `key`, where the value is an object that has one.
    pub fn get(&self, key: &str) -> (r: Option<&Json>)
        ensures
            match r {
                Some(v) => self@.get(key@) == Some(v@),
                None => self@.get(key@) is None,
            },
    {
        match self {
            Json::Object(members) => {
                let ghost all = self@->Object_0;
                let mut i: usize = 0;
                while i < members.len()
                    invariant
                        i <= members@.len(),
                        *self == Json::Object(*members),
                        all == self@->Object_0,
                        all.len() == members@.len(),
                        forall|j: int| 0 <= j < i ==> (#[trigger] all[j]).0 != key@,
                    decreases members@.len() - i,
                {
                    assert(all[i as int].0 == members@[i as int].0@);
                    if same(members[i].0.as_str(), key) {
                        proof {
                            lemma_position_is(all, key@, i as int);
                        }
                        return Some(&members[i].1);
                    }
                    i += 1;
                }
                proof {
                    lemma_position_is(all, key@, all.len() as int);
                }
                None
            },
            _ => None,
        }
    }

    /// The text, where the value is one.
    pub fn as_str(&self) -> (r: Option<&str>)
        ensures
            match r {
                Some(s) => self@.as_str() == Some(s@),
                None => self@.as_str() is None,
            },
    {
        match self {
            Json::Str(s) => Some(s.as_str()),
            _ => None,
        }
    }

    /// The number, where the value is one that is no less than zero and fits 64 bits.
    pub fn as_u64(&self) -> (r: Option<u64>)
        ensures
            r == self@.as_u64(),
    {
        match self {
            Json::UInt(n) => Some(*n),
            _ => None,
        }
    }

    /// Whether the value is an object.
    pub fn is_object(&self) -> (r: bool)
        ensures
            r == (self@ is Object),
    {
        match self {
            Json::Object(_) => true,
            _ => false,
        }
    }

    /// The items, where the value is an array.
    pub fn items(&self) -> (r: Option<&Vec<Json>>)
        ensures
            match r {
                Some(items) => self@ == JsonV::Array(views(items@)),
                None => !(self@ is Array),
            },
    {
        match self {
            Json::Array(items) => {
                proof {
                    reveal_with_fuel(Json::model, 2);
                    assert(self@->Array_0 =~= views(items@));
                }
                Some(items)
            },
            _ => None,
        }
    }

    /// The members, where the value is an object.
    pub fn members(&self) -> (r: Option<&Vec<(String, Json)>>)
        ensures
            match r {
                Some(members) => self@ == JsonV::Object(member_views(members@)),
                None => !(self@ is Object),
            },
    {
        match self {
            Json::Object(members) => {
                proof {
                    reveal_with_fuel(Json::model, 2);
                    assert(self@->Object_0 =~= member_views(members@));
                }
                Some(members)
            },
            _ => None,
        }
    }

    /// The text of the member named `key`, where there is one.
    pub fn text_at(&self, key: &str) -> (r: Option<String>)
        ensures
            crate::text::opt_view(r) == self@.text_at(key@),
    {
        match self.get(key) {
            Some(v) => match v.as_str() {
                Some(s) => Some(s.to_owned()),
                None => None,
            },
            None => None,
        }
    }

    /// The number of the member named `key`, or zero.
    pub fn number_at(&self, key: &str) -> (r: u64)
        ensures
            r == self@.number_at(key@),
    {
        match self.get(key) {
            Some(v) => match v.as_u64() {
                Some(n) => n,
                None => 0,
            },
            None => 0,
        }
    }

    /// The object with the member `key` set to `value`. Other values stay as they are.
    pub fn with(self, key: &str, value: Json) -> (r: Json)
        ensures
            r@ == self@.with(key@, value@),
    {
        let ghost before = self;
        match self {
            Json::Object(members) => {
                let ghost all = before@->Object_0;
                let mut members = members;
                let mut i: usize = 0;
                while i < members.len()
                    invariant
                        i <= members@.len(),
                        before == Json::Object(members),
                        before == self,
                        all == before@->Object_0,
                        all.len() == members@.len(),
                        forall|j: int| 0 <= j < i ==> (#[trigger] all[j]).0 != key@,
                    decreases members@.len() - i,
                {
                    assert(all[i as int].0 == members@[i as int].0@);
                    if same(members[i].0.as_str(), key) {
                        members[i] = (key.to_owned(), value);
                        let r = Json::Object(members);
                        proof {
                            lemma_position_is(all, key@, i as int);
                            assert(r@->Object_0 =~= all.update(i as int, (key@, value@)));
                        }
                        return r;
                    }
                    i += 1;
                }
                members.push((key.to_owned(), value));
                let r = Json::Object(members);
                proof {
                    lemma_position_is(all, key@, all.len() as int);
                    assert(r@->Object_0 =~= all.push((key@, value@)));
                }
                r
            },
            other => other,
        }
    }

    /// The object without its first member named `key`. Other values stay as they are.
    pub fn without(self, key: &str) -> (r: Json)
        ensures
            r@ == self@.without(key@),
    {
        let ghost before = self;
        match self {
            Json::Object(members) => {
                let ghost all = before@->Object_0;
                let mut members = members;
                let mut i: usize = 0;
                while i < members.len()
                    invariant
                        i <= members@.len(),
                        before == Json::Object(members),
                        before == self,
                        all == before@->Object_0,
                        all.len() == members@.len(),
                        forall|j: int| 0 <= j < i ==> (#[trigger] all[j]).0 != key@,
                    decreases members@.len() - i,
                {
                    assert(all[i as int].0 == members@[i as int].0@);
                    if same(members[i].0.as_str(), key) {
                        let _ = members.remove(i);
                        let r = Json::Object(members);
                        proof {
                            lemma_position_is(all, key@, i as int);
                            assert(r@->Object_0 =~= all.remove(i as int));
                        }
                        return r;
                    }
                    i += 1;
                }
                proof {
                    lemma_position_is(all, key@, all.len() as int);
                }
                Json::Object(members)
            },
            other => other,
        }
    }
}

impl Clone for Json {
    fn clone(&self) -> (r: Self)
        ensures
            r@ == self@,
        decreases self,
    {
        match self {
            Json::Null => Json::Null,
            Json::Bool(b) => Json::Bool(*b),
            Json::UInt(n) => Json::UInt(*n),
            Json::NegInt(n) => Json::NegInt(*n),
            Json::Float(t) => Json::Float(t.clone()),
            Json::Str(s) => Json::Str(s.clone()),
            Json::Array(items) => Json::Array(copy_items(items)),
            Json::Object(members) => Json::Object(copy_members(members)),
        }
    }
}

/// A copy of the items of an array.
fn copy_items(items: &Vec<Json>) -> (r: Vec<Json>)
    ensures
        Json::Array(r)@ == Json::Array(*items)@,
    decreases items,
{
    broadcast use vstd::std_specs::vec::axiom_vec_index_decreases;

    let mut out: Vec<Json> = Vec::new();
    let mut i: usize = 0;
    while i < items.len()
        invariant
            i <= items@.len(),
            out@.len() == i,
            forall|j: int| 0 <= j < i ==> (#[trigger] out@[j]).model() == items@[j].model(),
        decreases items@.len() - i,
    {
        assert(decreases_to!(*items => items[i as int]));
        out.push(items[i].clone());
        i += 1;
    }
    assert(Json::Array(out).model()->Array_0 =~= Json::Array(*items).model()->Array_0);
    out
}

/// A copy of the members of an object.
fn copy_members(members: &Vec<(String, Json)>) -> (r: Vec<(String, Json)>)
    ensures
        Json::Object(r)@ == Json::Object(*members)@,
    decreases members,
{
    broadcast use vstd::std_specs::vec::axiom_vec_index_decreases;

    let mut out: Vec<(String, Json)> = Vec::new();
    let mut i: usize = 0;
    while i < members.len()
        invariant
            i <= members@.len(),
            out@.len() == i,
            forall|j: int|
                0 <= j < i ==> (#[trigger] out@[j]).0@ == members@[j].0@ && out@[j].1.model()
                    == members@[j].1.model(),
        decreases members@.len() - i,
    {
        assert(decreases_to!(*members => members[i as int]));
        assert(decreases_to!(members[i as int] => members[i as int].1));
        out.push((members[i].0.clone(), members[i].1.clone()));
        i += 1;
    }
    assert(Json::Object(out).model()->Object_0 =~= Json::Object(*members).model()->Object_0);
    out
}

impl Json {
    /// Reads a value out of a text.
    pub fn parse(text: &str) -> (r: Result<Json, String>)
        ensures
            match r {
                Ok(v) => json_read(text@) == Ok::<JsonV, Seq<char>>(v@),
                Err(e) => json_read(text@) == Err::<JsonV, Seq<char>>(e@),
            },
    {
        read_json(text)
    }

    /// Writes the value as a text.
    pub fn text(&self) -> (r: String)
        ensures
            r@ == json_text(self@),
    {
        write_json(self)
    }
}

/// The views of an object's members, in order.
pub open spec fn member_views(members: Seq<(String, Json)>) -> Seq<(Seq<char>, JsonV)> {
    Seq::new(members.len(), |i: int| (members[i].0@, members[i].1@))
}

/// The object of the members.
pub fn object(members: Vec<(String, Json)>) -> (r: Json)
    ensures
        r@ == JsonV::Object(member_views(members@)),
{
    let r = Json::Object(members);
    proof {
        reveal_with_fuel(Json::model, 2);
        assert(r@->Object_0 =~= member_views(members@));
    }
    r
}

/// The array of the items.
pub fn array(items: Vec<Json>) -> (r: Json)
    ensures
        r@ == JsonV::Array(views(items@)),
{
    let r = Json::Array(items);
    proof {
        reveal_with_fuel(Json::model, 2);
        assert(r@->Array_0 =~= views(items@));
    }
    r
}

/// What the standard library's `Debug` prints of a text: the text between quotes, with what
/// would not show escaped.
pub uninterp spec fn quoted(text: Seq<char>) -> Seq<char>;

/// `<str as Debug>::fmt`, through `format!`. The result is a function of the text alone; the
/// contract gives it a name.
#[verifier::external_body]
fn quote(text: &str) -> (r: String)
    ensures
        r@ == quoted(text@),
{
    format!("{:?}", text)
}

/// What a value is called where it is not what was expected. A number that is written with an
/// exponent keeps it.
pub open spec fn kind_of(v: JsonV) -> Seq<char> {
    match v {
        JsonV::Null => "null"@,
        JsonV::Bool(b) => if b {
            "boolean `true`"@
        } else {
            "boolean `false`"@
        },
        JsonV::UInt(n) => "integer `"@ + decimal(n as nat) + "`"@,
        JsonV::NegInt(n) => "integer `"@ + signed(n as int) + "`"@,
        JsonV::Float(t) => "floating point `"@ + t + "`"@,
        JsonV::Str(s) => "string "@ + quoted(s),
        JsonV::Array(_) => "sequence"@,
        JsonV::Object(_) => "map"@,
    }
}

/// What is said of a value of the wrong type.
pub open spec fn invalid_type(v: JsonV, expected: Seq<char>) -> Seq<char> {
    "invalid type: "@ + kind_of(v) + (", expected "@ + expected)
}

/// What a value is called where it is not what was expected.
fn kind_text(v: &Json) -> (r: String)
    ensures
        r@ == kind_of(v@),
{
    match v {
        Json::Null => "null".to_owned(),
        Json::Bool(b) => if *b {
            "boolean `true`".to_owned()
        } else {
            "boolean `false`".to_owned()
        },
        Json::UInt(n) => concat3("integer `", decimal_text(*n as u128).as_str(), "`"),
        Json::NegInt(n) => concat3("integer `", signed_text(*n).as_str(), "`"),
        Json::Float(t) => concat3("floating point `", t.as_str(), "`"),
        Json::Str(s) => concat2("string ", quote(s.as_str()).as_str()),
        Json::Array(_) => "sequence".to_owned(),
        Json::Object(_) => "map".to_owned(),
    }
}

/// What is said of a value of the wrong type.
pub fn invalid_type_text(v: &Json, expected: &str) -> (r: String)
    ensures
        r@ == invalid_type(v@, expected@),
{
    let rest = concat2(", expected ", expected);
    concat3("invalid type: ", kind_text(v).as_str(), rest.as_str())
}

/// What `serde_json::from_str` makes of a text: the value that it writes, or the text of the
/// error that says why it writes none.
pub uninterp spec fn json_read(text: Seq<char>) -> Result<JsonV, Seq<char>>;

/// What a `serde_json::Value` prints for a value.
pub uninterp spec fn json_text(value: JsonV) -> Seq<char>;

/// `serde_json::Value`, carried from a call of its crate to the conversion below.
#[verifier::external_type_specification]
#[verifier::external_body]
pub struct ExValue(serde_json::Value);

/// The value that a `serde_json::Value` holds, variant by variant.
#[verifier::external_body]
fn from_value(value: Value) -> Json {
    match value {
        Value::Null => Json::Null,
        Value::Bool(b) => Json::Bool(b),
        Value::Number(n) => match (n.as_u64(), n.as_i64()) {
            (Some(u), _) => Json::UInt(u),
            (None, Some(i)) => Json::NegInt(i),
            (None, None) => Json::Float(n.to_string()),
        },
        Value::String(s) => Json::Str(s),
        Value::Array(a) => Json::Array(a.into_iter().map(from_value).collect()),
        Value::Object(o) => Json::Object(
            o.into_iter().map(|m| (m.0, from_value(m.1))).collect(),
        ),
    }
}

/// The `serde_json::Value` that holds a value, variant by variant.
#[verifier::external_body]
pub(crate) fn to_value(value: &Json) -> Value {
    match value {
        Json::Null => Value::Null,
        Json::Bool(b) => Value::Bool(*b),
        Json::UInt(n) => Value::from(*n),
        Json::NegInt(n) => Value::from(*n),
        Json::Float(t) => t.parse().map_or(Value::Null, Value::Number),
        Json::Str(s) => Value::String(s.clone()),
        Json::Array(a) => Value::Array(a.iter().map(to_value).collect()),
        Json::Object(o) => Value::Object(
            o.iter().map(|m| (m.0.clone(), to_value(&m.1))).collect(),
        ),
    }
}

/// `serde_json::from_str` into a `serde_json::Value`. The result is a function of the text
/// alone; the contract gives it a name.
#[verifier::external_body]
pub(crate) fn read_json(text: &str) -> (r: Result<Json, String>)
    ensures
        match r {
            Ok(v) => json_read(text@) == Ok::<JsonV, Seq<char>>(v@),
            Err(e) => json_read(text@) == Err::<JsonV, Seq<char>>(e@),
        },
{
    serde_json::from_str(text).map(from_value).map_err(|e: serde_json::Error| e.to_string())
}

/// `serde_json::Value::to_string`, the compact text of a value. The result is a function of
/// the value alone; the contract gives it a name.
#[verifier::external_body]
pub(crate) fn write_json(value: &Json) -> (r: String)
    ensures
        r@ == json_text(value@),
{
    to_value(value).to_string()
}

/// The first member of a name is the one that is found.
pub proof fn law_first_member_is_found(
    members: Seq<(Seq<char>, JsonV)>,
    key: Seq<char>,
    at: int,
)
    requires
        0 <= at <= members.len(),
        at < members.len() ==> members[at].0 == key,
        forall|j: int| 0 <= j < at ==> (#[trigger] members[j]).0 != key,
    ensures
        at < members.len() ==> JsonV::Object(members).get(key) == Some(members[at].1),
        at == members.len() ==> JsonV::Object(members).get(key) is None,
{
    lemma_position_is(members, key, at);
}

/// A text, or a number that is not negative, is read from the member that is one; anything else
/// that stands there is passed over.
pub proof fn law_members_are_read_by_kind(v: JsonV, key: Seq<char>, text: Seq<char>, n: u64)
    ensures
        v.get(key) == Some(JsonV::Str(text)) <==> v.text_at(key) == Some(text),
        v.get(key) == Some(JsonV::UInt(n)) ==> v.number_at(key) == n,
        !(v.get(key) matches Some(JsonV::UInt(_))) ==> v.number_at(key) == 0,
        !(v is Object) ==> v.get(key) is None,
{
}

/// Members keep their order: one that is set anew stays in its place, one that is new comes last,
/// and taking one out moves none of the others past each other. What is no object stays as it is.
pub proof fn law_members_keep_their_order(value: JsonV, key: Seq<char>, member: JsonV)
    ensures
        value matches JsonV::Object(before) ==> {
            &&& value.with(key, member) matches JsonV::Object(after)
            &&& value.get(key) is None ==> after == before.push((key, member))
            &&& value.get(key) is Some ==> after.len() == before.len()
            &&& forall|i: int| 0 <= i < before.len() ==> (#[trigger] after[i]).0 == before[i].0
            &&& forall|i: int|
                0 <= i < before.len() && before[i].0 != key ==> #[trigger] after[i] == before[i]
        },
        value matches JsonV::Object(before) ==> {
            &&& value.without(key) matches JsonV::Object(after)
            &&& value.get(key) is None ==> after == before
            &&& value.get(key) is Some ==> exists|at: int|
                0 <= at < before.len() && before[at].0 == key && after == #[trigger] before.remove(
                    at,
                )
        },
        !(value is Object) ==> value.with(key, member) == value && value.without(key) == value,
{
    match value {
        JsonV::Object(before) => {
            lemma_position(before, key, 0);
            let at = JsonV::position(before, key, 0);
            if at < before.len() {
                assert(value.without(key) == JsonV::Object(before.remove(at)));
            }
        },
        _ => {},
    }
}

/// What is said of a value of the wrong type tells what was expected last, and what came: a
/// number or a text with what it is.
pub proof fn law_wrong_types_are_named(v: JsonV, expected: Seq<char>)
    ensures
        "invalid type: "@.is_prefix_of(invalid_type(v, expected)),
        ends_with(invalid_type(v, expected), kind_of(v) + (", expected "@ + expected)),
        v matches JsonV::UInt(n) ==> kind_of(v) == "integer `"@ + signed(n as int) + "`"@,
        v matches JsonV::NegInt(n) ==> kind_of(v) == "integer `"@ + signed(n as int) + "`"@,
        v matches JsonV::Str(s) ==> ends_with(kind_of(v), quoted(s)),
        v matches JsonV::Float(t) ==> ends_with(kind_of(v), t + "`"@),
        v is Array ==> kind_of(v) == "sequence"@,
        v is Object ==> kind_of(v) == "map"@,
        v is Null ==> kind_of(v) == "null"@,
        kind_of(JsonV::Bool(true)) == "boolean `true`"@,
        kind_of(JsonV::Bool(false)) == "boolean `false`"@,
{
    let lead = "invalid type: "@;
    let rest = kind_of(v) + (", expected "@ + expected);
    assert(invalid_type(v, expected) =~= lead + rest);
    assert((lead + rest).take(lead.len() as int) =~= lead);
    lemma_ends_with(lead, rest);
    match v {
        JsonV::Str(s) => {
            lemma_ends_with("string "@, quoted(s));
        },
        JsonV::Float(t) => {
            lemma_ends_with("floating point `"@, t + "`"@);
            assert("floating point `"@ + t + "`"@ =~= "floating point `"@ + (t + "`"@));
        },
        _ => {},
    }
}

} // verus!
