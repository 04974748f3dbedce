//! The JSON side of the store: what a document is as far as the store reads
//! it, and the two calls into `serde_json` that read and write one.

use crate::bimap::pair_views;
use serde::ser::Serializer;
use vstd::prelude::*;

verus! {

/// `serde_json::Error`, taken as a whole: the store reads nothing of it.
#[verifier::external_type_specification]
#[verifier::external_body]
pub struct ExJsonError(serde_json::Error);

/// The value of one member of a JSON object.
pub enum JsonMember {
    /// A JSON string.
    Text(String),
    /// Any other JSON value.
    Other,
}

/// A JSON document.
pub enum JsonDocument {
    /// A JSON object, with its members in the order in which the parser
    /// hands them out.
    Object(Vec<(String, JsonMember)>),
    /// Any other JSON value.
    Other,
}

/// The members of a JSON object in specifications: each is its name and,
/// where its value is a string, that string.
pub type Members = Seq<(Seq<char>, Option<Seq<char>>)>;

/// A JSON document in specifications. A member is its name and, where its
/// value is a string, that string.
pub enum JsonShape {
    /// A JSON object and its members.
    Object(Members),
    /// Any other JSON value.
    Other,
}

impl View for JsonMember {
    type V = Option<Seq<char>>;

    open spec fn view(&self) -> Option<Seq<char>> {
        match self {
            JsonMember::Text(text) => Some(text@),
            JsonMember::Other => None,
        }
    }
}

impl View for JsonDocument {
    type V = JsonShape;

    open spec fn view(&self) -> JsonShape {
        match self {
            JsonDocument::Object(members) => JsonShape::Object(
                Seq::new(members@.len(), |i: int| (members@[i].0@, members@[i].1@)),
            ),
            JsonDocument::Other => JsonShape::Other,
        }
    }
}

/// No two members have one name.
pub open spec fn distinct_names(members: Members) -> bool {
    forall|i: int, j: int|
        0 <= i < j < members.len() ==> (#[trigger] members[i]).0 != (#[trigger] members[j]).0
}

/// What `serde_json` reads `text` as: `None` where it is no JSON document.
pub uninterp spec fn json_document(text: Seq<char>) -> Option<JsonShape>;

/// What `serde_json` writes for the object whose members are `entries`, in
/// that order, each value a string: `None` where its serializer reports an
/// error in place of a text.
pub uninterp spec fn json_object_text(entries: Seq<(Seq<char>, Seq<char>)>) -> Option<Seq<char>>;

/// `serde_json::from_str`, read as a `serde_json::Value`: the document that
/// `text` holds, or the parser's error where it holds none. The value is
/// handed on as a `JsonDocument`, which keeps of it what the store reads.
/// The parser keeps the members of an object in a map by their names, so
/// that no two of the members it hands out have one name.
#[verifier::external_body]
pub(crate) fn parse_document(text: &str) -> (parsed: Result<JsonDocument, serde_json::Error>)
    ensures
        match parsed {
            Ok(document) => json_document(text@) == Some(document@),
            Err(_) => json_document(text@) is None,
        },
        parsed matches Ok(document) ==> (document@ matches JsonShape::Object(members)
            ==> distinct_names(members)),
{
    let value: serde_json::Value = serde_json::from_str(text)?;
    Ok(match value {
        serde_json::Value::Object(members) => JsonDocument::Object(
            members.into_iter().map(|(name, value)| (name, match value {
                serde_json::Value::String(text) => JsonMember::Text(text),
                _ => JsonMember::Other,
            })).collect(),
        ),
        _ => JsonDocument::Other,
    })
}

/// `serde_json::Serializer`, driven through `Serializer::collect_map`, which
/// goes by `serialize_map`: the text of the JSON object whose members are
/// `entries`, or the serializer's error. The serializer writes into memory,
/// so that the entries alone decide which of the two it is, and what the
/// text is.
#[verifier::external_body]
pub(crate) fn render_object(entries: &Vec<(String, String)>) -> (rendered: Result<
    String,
    serde_json::Error,
>)
    ensures
        match rendered {
            Ok(text) => json_object_text(pair_views(entries@)) == Some(text@),
            Err(_) => json_object_text(pair_views(entries@)) is None,
        },
{
    let mut bytes: Vec<u8> = Vec::new();
    let mut serializer = serde_json::Serializer::new(&mut bytes);
    serializer.collect_map(entries.iter().map(|entry| (&entry.0, &entry.1)))?;
    String::from_utf8(bytes).map_err(serde::ser::Error::custom)
}

} // verus!
