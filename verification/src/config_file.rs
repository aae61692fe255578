//! Configuration files: their TOML text read into a `TomlDoc`, and the
//! document a program works from once the file is laid over its built-in
//! defaults.

use vstd::prelude::*;
use crate::toml_doc::{merge_docs, merged, TomlDoc};

verus! {

broadcast use vstd::string::group_string_axioms;

#[verifier::external_type_specification]
#[verifier::external_body]
pub struct ExTomlValue(toml::Value);

/// What the `toml` crate reads from `text`, as a document (its tables in
/// the crate's key order, floats by their bits, dates in their text form),
/// or the message of its parse error. Both depend on the text alone.
pub uninterp spec fn toml_document(text: Seq<char>) -> Result<TomlDoc, Seq<char>>;

/// A parse outcome with its error message by its view.
pub open spec fn parse_view(r: Result<TomlDoc, String>) -> Result<TomlDoc, Seq<char>> {
    match r {
        Ok(d) => Ok(d),
        Err(e) => Err(e@),
    }
}

/// Converts a `toml::Value` into a `TomlDoc` variant by variant: strings,
/// integers and booleans as they are, floats by `f64::to_bits`, dates by
/// their `Display` text, arrays and tables element by element in the order
/// the value iterates them.
#[verifier::external_body]
fn doc_of_value(value: &toml::Value) -> TomlDoc {
    match value {
        toml::Value::String(s) => TomlDoc::Str(s.clone()),
        toml::Value::Integer(i) => TomlDoc::Int(*i),
        toml::Value::Float(f) => TomlDoc::Float(f.to_bits()),
        toml::Value::Boolean(b) => TomlDoc::Bool(*b),
        toml::Value::Datetime(d) => TomlDoc::Datetime(d.to_string()),
        toml::Value::Array(items) => TomlDoc::Array(items.iter().map(doc_of_value).collect()),
        toml::Value::Table(t) => TomlDoc::Table(t.iter().map(|(k, v)| (k.clone(), doc_of_value(v))).collect()),
    }
}

/// Parses `text` with `str::parse::<toml::Value>` (the `toml` crate) and
/// converts the value with `doc_of_value`; a parse error comes back as its
/// message. The contract names the outcome (see `toml_document`).
#[verifier::external_body]
pub fn parse_toml(text: &str) -> (r: Result<TomlDoc, String>)
    ensures
        parse_view(r) == toml_document(text@),
{
    match text.parse::<toml::Value>() {
        Ok(v) => Ok(doc_of_value(&v)),
        Err(e) => Err(e.to_string()),
    }
}

/// The view of an optional text.
pub open spec fn text_view(file: Option<&str>) -> Option<Seq<char>> {
    match file {
        Some(t) => Some(t@),
        None => None,
    }
}

/// `m` is what a program works from: the file's document laid over
/// `defaults`, or `defaults` when there is no file or it does not parse.
pub open spec fn loaded_doc(defaults: TomlDoc, file: Option<Seq<char>>, m: TomlDoc) -> bool {
    match file {
        Some(t) => match toml_document(t) {
            Ok(d) => merged(defaults, d, m),
            Err(_) => m == defaults,
        },
        None => m == defaults,
    }
}

/// The parse error of the file, if it has one.
pub open spec fn file_error(file: Option<Seq<char>>) -> Option<Seq<char>> {
    match file {
        Some(t) => match toml_document(t) {
            Ok(_) => None,
            Err(e) => Some(e),
        },
        None => None,
    }
}

/// The view of an optional message.
pub open spec fn message_view(m: Option<String>) -> Option<Seq<char>> {
    match m {
        Some(s) => Some(s@),
        None => None,
    }
}

/// The file (when there is one) laid over `defaults`; when it does not
/// parse, the defaults and the parse error.
pub fn layered_or_defaults(defaults: TomlDoc, file: Option<&str>) -> (r: (TomlDoc, Option<String>))
    ensures
        loaded_doc(defaults, text_view(file), r.0),
        message_view(r.1) == file_error(text_view(file)),
{
    match file {
        None => (defaults, None),
        Some(t) => match parse_toml(t) {
            Ok(d) => (merge_docs(defaults, d), None),
            Err(e) => (defaults, Some(e)),
        },
    }
}

/// The file laid over `defaults` (the defaults when there is no file), or
/// the file's parse error.
pub fn layered_or_error(defaults: TomlDoc, file: Option<&str>) -> (r: Result<TomlDoc, String>)
    ensures
        file_error(text_view(file)) matches Some(e) ==> (r matches Err(m) && m@ == e),
        file_error(text_view(file)) is None ==> (r matches Ok(m) && loaded_doc(defaults, text_view(file), m)),
{
    match file {
        None => Ok(defaults),
        Some(t) => match parse_toml(t) {
            Ok(d) => Ok(merge_docs(defaults, d)),
            Err(e) => Err(e),
        },
    }
}

/// The file's own document (not laid over anything), or `fallback` and the
/// parse error when it does not parse; `fallback` when there is no file.
pub fn document_or(fallback: TomlDoc, file: Option<&str>) -> (r: (TomlDoc, Option<String>))
    ensures
        r.0 == match text_view(file) {
            Some(t) => match toml_document(t) {
                Ok(d) => d,
                Err(_) => fallback,
            },
            None => fallback,
        },
        message_view(r.1) == file_error(text_view(file)),
{
    match file {
        None => (fallback, None),
        Some(t) => match parse_toml(t) {
            Ok(d) => (d, None),
            Err(e) => (fallback, Some(e)),
        },
    }
}

} // verus!
