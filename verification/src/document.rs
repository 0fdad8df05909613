//! The manifest document model: a nested key/value tree of tables, arrays
//! and scalars. The toml crate parses the text; the tree it hands back is
//! converted value for value into [`DocValue`], and everything read out of
//! the tree is verified library logic.

use vstd::prelude::*;
use crate::errors::BuildError;

verus! {

/// One value of a parsed manifest document.
#[derive(Debug)]
pub enum DocValue {
    Str(String),
    Int(i64),
    Bool(bool),
    Arr(Vec<DocValue>),
    Table(Vec<(String, DocValue)>),
    Other,
}

/// Whether `s` parses as a well-formed manifest document; a function of the
/// text alone.
pub uninterp spec fn parses_as_document(s: Seq<char>) -> bool;

/// The toml crate's value tree, opaque here; it is only carried between the
/// parse and the conversion into [`DocValue`].
#[verifier::external_type_specification]
#[verifier::external_body]
pub struct ExTomlValue(toml::Value);

/// Relies on the toml crate's `str::parse::<toml::Table>`: a deterministic
/// parse of the document text (entries iterated in the crate's fixed sorted
/// key order), converted value for value into the document model; it succeeds
/// exactly on well-formed document text, and rejected text is reported as
/// invalid data. Everything read out of the returned tree is verified logic.
#[verifier::external_body]
pub fn parse_document(text: &str) -> (r: Result<Vec<(String, DocValue)>, BuildError>)
    ensures
        r is Ok <==> parses_as_document(text@),
        r is Err ==> r->Err_0 is InvalidData,
{
    match text.parse::<toml::Table>() {
        Ok(t) => Ok(t.into_iter().map(|(k, v)| (k, convert_value(v))).collect()),
        Err(e) => Err(BuildError::InvalidData(e.to_string())),
    }
}

/// Converts one toml value into the document model, one arm per variant,
/// moving the fields; floats and datetimes have no reading here and become
/// `Other`. Reached only through [`parse_document`].
#[verifier::external_body]
fn convert_value(v: toml::Value) -> DocValue {
    match v {
        toml::Value::String(s) => DocValue::Str(s),
        toml::Value::Integer(i) => DocValue::Int(i),
        toml::Value::Boolean(b) => DocValue::Bool(b),
        toml::Value::Array(a) => DocValue::Arr(a.into_iter().map(convert_value).collect()),
        toml::Value::Table(t) => DocValue::Table(
            t.into_iter().map(|(k, v)| (k, convert_value(v))).collect(),
        ),
        _ => DocValue::Other,
    }
}

} // verus!
