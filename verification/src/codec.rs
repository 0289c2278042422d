//! The codec boundary: parsing a configuration text into a value tree and
//! pretty-printing a value tree back, through the `toml` crate.
//!
//! The codec is an external collaborator: the grammar and the printer are
//! trusted at this boundary, stated over named results, and everything the
//! library proves about trees rests on the contracts below.

use vstd::prelude::*;

use crate::value::ValueTree;
use crate::value::ValueView;
use crate::value::wf_view;

verus! {

#[verifier::external_type_specification]
#[verifier::external_body]
pub struct ExTomlValue(toml::Value);

/// The value tree a codec document value denotes, in the library's terms;
/// a float is read as its bit pattern, a datetime as its canonical text.
pub uninterp spec fn toml_model(v: toml::Value) -> ValueView;

/// What the codec's grammar assigns to a text: the parsed tree, or nothing
/// when the text is not a well-formed document.
pub uninterp spec fn toml_parsed(text: Seq<char>) -> Option<ValueView>;

/// The canonical pretty-printed text of a value tree.
pub uninterp spec fn toml_text_of(v: ValueView) -> Seq<char>;

/// Relies on `toml::Table`'s `FromStr`, the document parser: parsing is a
/// deterministic function of the text alone and succeeds exactly on
/// well-formed documents.
#[verifier::external_body]
fn parse_document(text: &str) -> (r: Option<toml::Value>)
    ensures
        r is Some <==> toml_parsed(text@) is Some,
        r matches Some(doc) ==> toml_model(doc) == toml_parsed(text@)->Some_0,
{
    let table: toml::Table = text.parse().ok()?;
    Some(toml::Value::Table(table))
}

/// Relies on `toml::Value` being a finite tagged tree whose tables are maps
/// with unique keys; reads it into the library's tree, one arm per variant,
/// moving each payload (a float to its bits, a datetime to its text).
#[verifier::external_body]
fn from_toml(doc: &toml::Value) -> (r: ValueTree)
    ensures
        r@ == toml_model(*doc),
        wf_view(r@),
{
    match doc {
        toml::Value::String(s) => ValueTree::Text(s.clone()),
        toml::Value::Integer(i) => ValueTree::Integer(*i),
        toml::Value::Float(f) => ValueTree::FloatBits(f.to_bits()),
        toml::Value::Boolean(b) => ValueTree::Boolean(*b),
        toml::Value::Datetime(dt) => ValueTree::Datetime(dt.to_string()),
        toml::Value::Array(items) => ValueTree::Array(items.iter().map(from_toml).collect()),
        toml::Value::Table(map) => ValueTree::Table(
            map.iter().map(|(k, x)| (k.clone(), from_toml(x))).collect(),
        ),
    }
}

/// The conversion half of [`pretty_text`], trusted as part of it: writes
/// the library's tree into a `toml::Value`, one arm each, moving each
/// payload (`bytemuck::cast` rebuilds a float from its bit pattern; a
/// datetime's text travels as a string; the codec's map orders a table's
/// keys its own way).
#[verifier::external_body]
fn to_toml(v: &ValueTree) -> toml::Value {
    match v {
        ValueTree::Text(s) => toml::Value::String(s.clone()),
        ValueTree::Integer(i) => toml::Value::Integer(*i),
        ValueTree::FloatBits(b) => toml::Value::Float(bytemuck::cast(*b)),
        ValueTree::Boolean(b) => toml::Value::Boolean(*b),
        ValueTree::Datetime(s) => toml::Value::String(s.clone()),
        ValueTree::Array(items) => toml::Value::Array(items.iter().map(to_toml).collect()),
        ValueTree::Table(entries) => toml::Value::Table(
            entries.iter().map(|(k, x)| (k.clone(), to_toml(x))).collect(),
        ),
    }
}

/// Relies on `toml::to_string_pretty` over the conversion of [`to_toml`]:
/// the pretty text is a deterministic function of the tree alone, and a
/// table always serializes (the document serializer refuses only non-table
/// roots, and the conversion hands it only strings, integers, floats,
/// booleans, arrays and tables).
#[verifier::external_body]
fn pretty_text(v: &ValueTree) -> (r: Option<String>)
    ensures
        r matches Some(text) ==> text@ == toml_text_of(v@),
        v@ is Table ==> r is Some,
{
    toml::to_string_pretty(&to_toml(v)).ok()
}

/// Parses a configuration text: the parsed, well-formed value tree when the
/// text is a well-formed document, nothing otherwise.
pub fn parse_value(text: &str) -> (r: Option<ValueTree>)
    ensures
        r is Some <==> toml_parsed(text@) is Some,
        r matches Some(v) ==> v@ == toml_parsed(text@)->Some_0 && wf_view(v@),
{
    match parse_document(text) {
        Some(doc) => Some(from_toml(&doc)),
        None => None,
    }
}

/// Pretty-prints a value tree: its canonical text. Success is owed to
/// every table; only a non-table root is refused.
pub fn serialize_value(v: &ValueTree) -> (r: Option<String>)
    ensures
        r matches Some(text) ==> text@ == toml_text_of(v@),
        v@ is Table ==> r is Some,
{
    pretty_text(v)
}

} // verus!
