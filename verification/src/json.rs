//! Request bodies: flat JSON objects, serialised by `serde_json`.

use vstd::prelude::*;

verus! {

/// `serde_json`'s error type, carried through as it is.
#[verifier::external_type_specification]
#[verifier::external_body]
pub struct ExJsonError(serde_json::Error);

/// A value that a field of a request body holds.
pub enum JsonScalar {
    Text(String),
    Flag(bool),
}

/// What a `JsonScalar` stands for.
pub enum JsonScalarView {
    Text(Seq<char>),
    Flag(bool),
}

impl View for JsonScalar {
    type V = JsonScalarView;

    open spec fn view(&self) -> JsonScalarView {
        match self {
            JsonScalar::Text(s) => JsonScalarView::Text(s@),
            JsonScalar::Flag(b) => JsonScalarView::Flag(*b),
        }
    }
}

/// The fields of a body, keys and values taken by their views.
pub open spec fn fields_view(fields: Seq<(String, JsonScalar)>) -> Seq<(Seq<char>, JsonScalarView)> {
    fields.map_values(|f: (String, JsonScalar)| (f.0@, f.1@))
}

/// The text `serde_json::to_string` writes for the JSON object with these fields.
pub uninterp spec fn object_json_text(fields: Seq<(Seq<char>, JsonScalarView)>) -> Seq<char>;

/// Builds a `serde_json::Value::Object` (each key to a JSON string or boolean)
/// and calls `serde_json::to_string` on it. Claims that it succeeds and that
/// the text is the serialisation of that object, named and not spelled out
/// (with the crate's default features the keys come out in sorted order).
/// `to_string` fails only when a `Serialize` impl fails or a map key is not a
/// string; `Value`'s impl does neither for an object with string keys.
#[verifier::external_body]
pub(crate) fn object_to_json(fields: &Vec<(String, JsonScalar)>) -> (text: Result<String, serde_json::Error>)
    ensures
        text is Ok,
        text matches Ok(t) ==> t@ == object_json_text(fields_view(fields@)),
{
    let mut map = serde_json::Map::new();
    for (key, value) in fields.iter() {
        let v = match value {
            JsonScalar::Text(s) => serde_json::Value::String(s.clone()),
            JsonScalar::Flag(b) => serde_json::Value::Bool(*b),
        };
        map.insert(key.clone(), v);
    }
    serde_json::to_string(&serde_json::Value::Object(map))
}

/// Calls `Display` of `serde_json::Error`: the error's message. Nothing is claimed of it.
#[verifier::external_body]
pub(crate) fn json_error_message(e: &serde_json::Error) -> String {
    e.to_string()
}

/// The value the JSON object of `fields` holds under `key`: that of the last
/// field so named, as a map keeps it; `None` when no field has that name.
pub open spec fn field_of(fields: Seq<(Seq<char>, JsonScalarView)>, key: Seq<char>) -> Option<JsonScalarView>
    decreases fields.len(),
{
    if fields.len() == 0 {
        None
    } else if fields.last().0 == key {
        Some(fields.last().1)
    } else {
        field_of(fields.drop_last(), key)
    }
}

/// The object holds under `key` the value of the last field named `key`.
pub proof fn lemma_field_at(fields: Seq<(Seq<char>, JsonScalarView)>, key: Seq<char>, i: int)
    requires
        0 <= i < fields.len(),
        fields[i].0 == key,
        forall|j: int| i < j < fields.len() ==> fields[j].0 != key,
    ensures
        field_of(fields, key) == Some(fields[i].1),
    decreases fields.len(),
{
    if i < fields.len() - 1 {
        assert(fields.last() == fields[fields.len() - 1]);
        lemma_field_at(fields.drop_last(), key, i);
    }
}

} // verus!
