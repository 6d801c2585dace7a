//! The schemas in which tools declare their parameters.
use vstd::prelude::*;

use crate::json::{array, law_first_member_is_found, member_views, object, Json, JsonV};
use crate::text::views;

verus! {

/// A text parameter and what it is for.
pub open spec fn text_parameter_schema(description: Seq<char>) -> JsonV {
    JsonV::Object(
        seq![("description"@, JsonV::Str(description)), ("type"@, JsonV::Str("string"@))],
    )
}

/// The JSON texts of a list.
pub open spec fn json_texts(texts: Seq<Seq<char>>) -> Seq<JsonV> {
    Seq::new(texts.len(), |i: int| JsonV::Str(texts[i]))
}

/// An object of the parameters, those of `required` mandatory.
pub open spec fn parameters_schema(
    properties: Seq<(Seq<char>, JsonV)>,
    required: Seq<Seq<char>>,
) -> JsonV {
    let kind = ("type"@, JsonV::Str("object"@));
    if required.len() == 0 {
        JsonV::Object(seq![("properties"@, JsonV::Object(properties)), kind])
    } else {
        JsonV::Object(
            seq![
                ("properties"@, JsonV::Object(properties)),
                ("required"@, JsonV::Array(json_texts(required))),
                kind,
            ],
        )
    }
}

/// A text parameter and what it is for.
pub fn text_parameter(description: &str) -> (r: Json)
    ensures
        r@ == text_parameter_schema(description@),
{
    let mut members: Vec<(String, Json)> = Vec::new();
    members.push(("description".to_owned(), Json::Str(description.to_owned())));
    members.push(("type".to_owned(), Json::Str("string".to_owned())));
    assert(member_views(members@) =~= text_parameter_schema(description@)->Object_0);
    object(members)
}

/// The JSON texts of a list.
fn texts(list: &Vec<String>) -> (r: Vec<Json>)
    ensures
        views(r@) == json_texts(views(list@)),
{
    let mut out: Vec<Json> = Vec::new();
    let mut i: usize = 0;
    while i < list.len()
        invariant
            i <= list@.len(),
            out@.len() == i,
            forall|j: int| 0 <= j < i ==> (#[trigger] out@[j])@ == JsonV::Str(list@[j]@),
        decreases list@.len() - i,
    {
        out.push(Json::Str(list[i].clone()));
        i += 1;
    }
    assert(views(out@) =~= json_texts(views(list@)));
    out
}

/// An object of the parameters, those of `required` mandatory.
pub fn parameters(properties: Vec<(String, Json)>, required: &Vec<String>) -> (r: Json)
    ensures
        r@ == parameters_schema(member_views(properties@), views(required@)),
{
    let ghost shown = member_views(properties@);
    let mut members: Vec<(String, Json)> = Vec::new();
    members.push(("properties".to_owned(), object(properties)));
    if required.len() > 0 {
        members.push(("required".to_owned(), array(texts(required))));
    }
    members.push(("type".to_owned(), Json::Str("object".to_owned())));
    assert(member_views(members@) =~= parameters_schema(shown, views(required@))->Object_0);
    object(members)
}

/// A text parameter declares itself as a text, and says what it is for.
pub proof fn law_text_parameters_declare_texts(description: Seq<char>)
    ensures
        text_parameter_schema(description).get("description"@) == Some(JsonV::Str(description)),
        text_parameter_schema(description).get("type"@) == Some(JsonV::Str("string"@)),
{
    reveal_strlit("description");
    reveal_strlit("type");
    assert("description"@.len() == 11);
    assert("type"@.len() == 4);
    let members = text_parameter_schema(description)->Object_0;
    law_first_member_is_found(members, "description"@, 0);
    law_first_member_is_found(members, "type"@, 1);
}

/// The parameters of a tool are an object: what is declared is found among its properties, and
/// a name is required if and only if it is listed.
pub proof fn law_parameters_declare_an_object(
    properties: Seq<(Seq<char>, JsonV)>,
    required: Seq<Seq<char>>,
)
    ensures
        parameters_schema(properties, required).get("type"@) == Some(JsonV::Str("object"@)),
        parameters_schema(properties, required).get("properties"@) == Some(
            JsonV::Object(properties),
        ),
        required.len() == 0 ==> parameters_schema(properties, required).get("required"@) is None,
        required.len() > 0 ==> {
            &&& parameters_schema(properties, required).get("required"@) matches Some(
                JsonV::Array(names),
            )
            &&& names.len() == required.len()
            &&& forall|i: int|
                0 <= i < names.len() ==> #[trigger] names[i] == JsonV::Str(required[i])
        },
{
    reveal_strlit("properties");
    reveal_strlit("required");
    reveal_strlit("type");
    assert("properties"@.len() == 10);
    assert("required"@.len() == 8);
    assert("type"@.len() == 4);
    let members = parameters_schema(properties, required)->Object_0;
    law_first_member_is_found(members, "properties"@, 0);
    if required.len() == 0 {
        law_first_member_is_found(members, "type"@, 1);
        law_first_member_is_found(members, "required"@, 2);
    } else {
        law_first_member_is_found(members, "required"@, 1);
        law_first_member_is_found(members, "type"@, 2);
    }
}

} // verus!
