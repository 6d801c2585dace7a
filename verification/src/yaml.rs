//! YAML values, held as plain data.
use serde_yml::Value;
use vstd::prelude::*;

use crate::text::{same, views};

verus! {

/// A YAML value. A mapping holds its members in the order in which they are written.
#[derive(Debug, PartialEq)]
pub enum Yaml {
    Null,
    Bool(bool),
    /// A number, by its text.
    Number(String),
    Str(String),
    Sequence(Vec<Yaml>),
    Mapping(Vec<(String, Yaml)>),
    /// A value with a tag before it.
    Tagged(String, Box<Yaml>),
}

/// What a [`Yaml`] value is.
#[verifier::ext_equal]
pub enum YamlV {
    Null,
    Bool(bool),
    Number(Seq<char>),
    Str(Seq<char>),
    Sequence(Seq<YamlV>),
    Mapping(Seq<(Seq<char>, YamlV)>),
    Tagged(Seq<char>, Box<YamlV>),
}

impl YamlV {
    /// The value without the tags before it.
    pub open spec fn bare(self) -> YamlV
        decreases self,
    {
        match self {
            YamlV::Tagged(_, inner) => inner.bare(),
            other => other,
        }
    }

    /// The first of the members that is named `key`.
    pub open spec fn member(members: Seq<(Seq<char>, YamlV)>, key: Seq<char>) -> Option<YamlV>
        decreases members.len(),
    {
        if members.len() == 0 {
            None
        } else if members[0].0 == key {
            Some(members[0].1)
        } else {
            YamlV::member(members.skip(1), key)
        }
    }

    /// The first member named `key`, where the value is a mapping that has one.
    pub open spec fn get(self, key: Seq<char>) -> Option<YamlV> {
        match self {
            YamlV::Mapping(members) => YamlV::member(members, key),
            _ => None,
        }
    }
}

impl View for Yaml {
    type V = YamlV;

    open spec fn view(&self) -> YamlV {
        self.model()
    }
}

/// The views of members.
pub open spec fn yaml_members(members: Seq<(String, Yaml)>) -> Seq<(Seq<char>, YamlV)> {
    Seq::new(members.len(), |i: int| (members[i].0@, members[i].1@))
}

impl Yaml {
    /// The value as mathematical data.
    pub open spec fn model(self) -> YamlV
        decreases self,
    {
        match self {
            Yaml::Null => YamlV::Null,
            Yaml::Bool(b) => YamlV::Bool(b),
            Yaml::Number(t) => YamlV::Number(t@),
            Yaml::Str(s) => YamlV::Str(s@),
            Yaml::Sequence(items) => YamlV::Sequence(
                Seq::new(
                    items@.len(),
                    |i: int|
                        if 0 <= i < items@.len() {
                            items@[i].model()
                        } else {
                            YamlV::Null
                        },
                ),
            ),
            Yaml::Mapping(members) => YamlV::Mapping(
                Seq::new(
                    members@.len(),
                    |i: int|
                        if 0 <= i < members@.len() {
                            (members@[i].0@, members@[i].1.model())
                        } else {
                            (Seq::<char>::empty(), YamlV::Null)
                        },
                ),
            ),
            Yaml::Tagged(tag, inner) => YamlV::Tagged(tag@, Box::new(inner.model())),
        }
    }

    /// The value without the tags before it.
    pub fn bare(&self) -> (r: &Yaml)
        ensures
            r@ == self@.bare(),
            !(r@ is Tagged),
        decreases self,
    {
        match self {
            Yaml::Tagged(_, inner) => inner.bare(),
            other => other,
        }
    }

    /// The text, where the value is one.
    pub fn as_str(&self) -> (r: Option<&str>)
        ensures
            match r {
                Some(s) => self@ == YamlV::Str(s@),
                None => !(self@ is Str),
            },
    {
        match self {
            Yaml::Str(s) => Some(s.as_str()),
            _ => None,
        }
    }

    /// The items, where the value is a sequence.
    pub fn items(&self) -> (r: Option<&Vec<Yaml>>)
        ensures
            match r {
                Some(items) => self@ == YamlV::Sequence(views(items@)),
                None => !(self@ is Sequence),
            },
    {
        match self {
            Yaml::Sequence(items) => {
                proof {
                    reveal_with_fuel(Yaml::model, 2);
                    assert(self@->Sequence_0 =~= views(items@));
                }
                Some(items)
            },
            _ => None,
        }
    }

    /// The members, where the value is a mapping.
    pub fn members(&self) -> (r: Option<&Vec<(String, Yaml)>>)
        ensures
            match r {
                Some(members) => self@ == YamlV::Mapping(yaml_members(members@)),
                None => !(self@ is Mapping),
            },
    {
        match self {
            Yaml::Mapping(members) => {
                proof {
                    reveal_with_fuel(Yaml::model, 2);
                    assert(self@->Mapping_0 =~= yaml_members(members@));
                }
                Some(members)
            },
            _ => None,
        }
    }

    /// The first member named `key`, where the value is a mapping that has one.
    pub fn get(&self, key: &str) -> (r: Option<&Yaml>)
        ensures
            match r {
                Some(v) => self@.get(key@) == Some(v@),
                None => self@.get(key@) is None,
            },
    {
        let members = match self.members() {
            Some(members) => members,
            None => {
                return None;
            },
        };
        let ghost all = yaml_members(members@);
        let mut i: usize = 0;
        assert(all.skip(0) =~= all);
        while i < members.len()
            invariant
                i <= members@.len(),
                all == yaml_members(members@),
                self@ == YamlV::Mapping(all),
                YamlV::member(all, key@) == YamlV::member(all.skip(i as int), key@),
            decreases members@.len() - i,
        {
            assert(all.skip(i as int)[0] == (members@[i as int].0@, members@[i as int].1@));
            assert(all.skip(i as int).skip(1) =~= all.skip(i + 1));
            if same(members[i].0.as_str(), key) {
                return Some(&members[i].1);
            }
            i += 1;
        }
        None
    }
}

/// What `serde_yml::from_str` makes of a text: the value that it writes, or the text of the
/// error that says why it writes none.
pub uninterp spec fn yaml_read(text: Seq<char>) -> Result<YamlV, Seq<char>>;

/// `serde_yml::Value`, carried from a call of its crate to the conversion below.
#[allow(deprecated)]
#[verifier::external_type_specification]
#[verifier::external_body]
pub struct ExYamlValue(serde_yml::Value);

/// The value that a `serde_yml::Value` holds, variant by variant.
#[allow(deprecated)]
#[verifier::external_body]
fn from_yaml(value: Value) -> Yaml {
    match value {
        Value::Null => Yaml::Null,
        Value::Bool(b) => Yaml::Bool(b),
        Value::Number(n) => Yaml::Number(n.to_string()),
        Value::String(s) => Yaml::Str(s),
        Value::Sequence(a) => Yaml::Sequence(a.into_iter().map(from_yaml).collect()),
        Value::Mapping(o) => {
            Yaml::Mapping(o.into_iter().map(|m| (m.0, from_yaml(m.1))).collect())
        },
        Value::Tagged(t) => {
            Yaml::Tagged(t.tag().to_string(), Box::new(from_yaml(t.value().clone())))
        },
    }
}

/// `serde_yml::from_str` into a `serde_yml::Value`. The result is a function of the text
/// alone; the contract gives it a name.
#[allow(deprecated)]
#[verifier::external_body]
pub(crate) fn read_yaml(text: &str) -> (r: Result<Yaml, String>)
    ensures
        match r {
            Ok(v) => yaml_read(text@) == Ok::<YamlV, Seq<char>>(v@),
            Err(e) => yaml_read(text@) == Err::<YamlV, Seq<char>>(e@),
        },
{
    serde_yml::from_str(text).map(from_yaml).map_err(|e: serde_yml::Error| e.to_string())
}

/// The first member of a name is the one that is found; a name that no member has finds nothing.
pub proof fn law_first_yaml_member_is_found(
    before: Seq<(Seq<char>, YamlV)>,
    key: Seq<char>,
    value: YamlV,
    after: Seq<(Seq<char>, YamlV)>,
)
    requires
        forall|i: int| 0 <= i < before.len() ==> (#[trigger] before[i]).0 != key,
    ensures
        YamlV::Mapping(before).get(key) is None,
        YamlV::Mapping(before.push((key, value)) + after).get(key) == Some(value),
    decreases before.len(),
{
    let all = before.push((key, value)) + after;
    if before.len() > 0 {
        let rest = before.skip(1);
        assert forall|i: int| 0 <= i < rest.len() implies (#[trigger] rest[i]).0 != key by {
            assert(rest[i] == before[i + 1]);
        }
        law_first_yaml_member_is_found(rest, key, value, after);
        assert(all[0] == before[0]);
        assert(all.skip(1) =~= rest.push((key, value)) + after);
    } else {
        assert(all[0] == (key, value));
    }
}

/// Tags are taken off, however many there are, and nothing else is.
pub proof fn law_tags_are_taken_off(tag: Seq<char>, inner: YamlV)
    ensures
        YamlV::Tagged(tag, Box::new(inner)).bare() == inner.bare(),
        !(inner is Tagged) ==> inner.bare() == inner,
        !(inner.bare() is Tagged),
    decreases inner,
{
    match inner {
        YamlV::Tagged(other, deeper) => {
            law_tags_are_taken_off(other, *deeper);
        },
        _ => {},
    }
}

} // verus!
