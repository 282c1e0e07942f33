//! The JSON encoder and parser that the library relies on, and what it
//! assumes of them. Nothing in this file is proved: each contract restates
//! what the `serde_json` crate does, and the rest of the library is verified
//! against these statements.

use crate::entries::put;
use vstd::prelude::*;

verus! {

/// A JSON object as `serde_json` holds it. Opaque here: its entries are
/// reached through [`object_entries`].
#[verifier::external_type_specification]
#[verifier::external_body]
#[verifier::reject_recursive_types(K)]
#[verifier::reject_recursive_types(V)]
pub struct ExObject<K, V>(serde_json::Map<K, V>);

/// A parsed JSON document. Opaque here.
#[verifier::external_type_specification]
#[verifier::external_body]
pub struct ExValue(serde_json::Value);

/// The reason `serde_json` gives when it fails. Opaque here.
#[verifier::external_type_specification]
#[verifier::external_body]
pub struct ExError(serde_json::Error);

/// The entries of an object whose values are all JSON strings: each key with
/// its value, in the order in which the object yields them.
pub uninterp spec fn object_entries(object: serde_json::Map<String, serde_json::Value>) -> Seq<
    (Seq<char>, Seq<char>),
>;

/// What a document holds, written down as its compact JSON text.
pub uninterp spec fn document_content(document: serde_json::Value) -> Seq<char>;

/// The compact JSON text that `serde_json::to_string` produces for an object
/// with the given string entries, or `None` where it reports an error.
pub uninterp spec fn compact_json(entries: Seq<(Seq<char>, Seq<char>)>) -> Option<Seq<char>>;

/// The content of the document that `serde_json::from_str` reads from a
/// text, or `None` where it rejects the text.
pub uninterp spec fn parsed_json(text: Seq<char>) -> Option<Seq<char>>;

/// The indented JSON text that `serde_json::to_string_pretty` produces for a
/// document of the given content, or `None` where it reports an error.
pub uninterp spec fn pretty_json(content: Seq<char>) -> Option<Seq<char>>;

/// `serde_json::Map::new`: an object without entries.
#[verifier::external_body]
pub(crate) fn new_object() -> (object: serde_json::Map<String, serde_json::Value>)
    ensures
        object_entries(object) == Seq::<(Seq<char>, Seq<char>)>::empty(),
{
    serde_json::Map::new()
}

/// `serde_json::Map::insert` with a string value. With the crate's
/// `preserve_order` feature the object keeps its entries in insertion order:
/// an existing key stays where it is and has its value replaced, a new key
/// is appended.
#[verifier::external_body]
pub(crate) fn insert_string(
    object: &mut serde_json::Map<String, serde_json::Value>,
    key: String,
    value: String,
)
    ensures
        object_entries(*final(object)) == put(object_entries(*old(object)), key@, value@),
{
    object.insert(key, serde_json::Value::String(value));
}

/// `serde_json::to_string` on an object: the text depends on the entries
/// alone, and so does whether there is one.
#[verifier::external_body]
pub(crate) fn object_to_string(object: &serde_json::Map<String, serde_json::Value>) -> (r: Result<
    String,
    serde_json::Error,
>)
    ensures
        match r {
            Ok(text) => compact_json(object_entries(*object)) == Some(text@),
            Err(_) => compact_json(object_entries(*object)) is None,
        },
{
    serde_json::to_string(object)
}

/// `serde_json::from_str` for a whole document: whether the text is
/// accepted, and what the document then holds, depends on the text alone.
#[verifier::external_body]
pub(crate) fn parse_document(text: &str) -> (r: Result<serde_json::Value, serde_json::Error>)
    ensures
        match r {
            Ok(document) => parsed_json(text@) == Some(document_content(document)),
            Err(_) => parsed_json(text@) is None,
        },
{
    serde_json::from_str::<serde_json::Value>(text)
}

/// `serde_json::to_string_pretty` on a document: the text depends on what
/// the document holds alone, and so does whether there is one.
#[verifier::external_body]
pub(crate) fn document_to_pretty_string(document: &serde_json::Value) -> (r: Result<
    String,
    serde_json::Error,
>)
    ensures
        match r {
            Ok(text) => pretty_json(document_content(*document)) == Some(text@),
            Err(_) => pretty_json(document_content(*document)) is None,
        },
{
    serde_json::to_string_pretty(document)
}

} // verus!
