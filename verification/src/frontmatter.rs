//! TOML frontmatter: parsing, lookups and serialisation through the
//! `toml` crate.
use vstd::prelude::*;

verus! {

#[verifier::external_type_specification]
#[verifier::external_body]
pub struct ExTomlDeError(toml::de::Error);

/// Whether the `toml` crate accepts the text as a TOML table.
pub uninterp spec fn toml_accepts(body: Seq<char>) -> bool;

/// `toml::from_str::<toml::Table>`.
///
/// Trusted: the result is `Ok` exactly when the `toml` crate accepts the
/// text as a table (named, not restated); the table's contents are not
/// described.
#[verifier::external_body]
pub(crate) fn toml_parse_table(body: &str) -> (r: Result<toml::Table, toml::de::Error>)
    ensures
        r.is_ok() == toml_accepts(body@),
{
    toml::from_str::<toml::Table>(body)
}

/// `toml::de::Error::span`: the byte range of the error in the input, as
/// `(start, end)`.
///
/// Trusted: nothing is claimed of the range.
#[verifier::external_body]
pub(crate) fn toml_error_span(e: &toml::de::Error) -> (r: Option<(usize, usize)>) {
    e.span().map(|r| (r.start, r.end))
}

/// The error's message (`Display`).
///
/// Trusted: nothing is claimed of the text.
#[verifier::external_body]
pub(crate) fn toml_error_message(e: &toml::de::Error) -> (r: String) {
    e.to_string()
}

/// `toml::Table::get`: the value stored under `key`.
///
/// Trusted: nothing is claimed of the value (the table is opaque here).
#[verifier::external_body]
pub(crate) fn toml_get<'a>(t: &'a toml::Table, key: &str) -> (r: Option<&'a toml::Value>) {
    t.get(key)
}

/// `toml::Value::as_bool`.
///
/// Trusted: nothing is claimed of the answer (the value is opaque here).
#[verifier::external_body]
pub(crate) fn toml_as_bool(v: &toml::Value) -> (r: Option<bool>) {
    v.as_bool()
}

/// `toml::to_string` of a table.
///
/// Trusted: nothing is claimed of the text.
#[verifier::external_body]
pub(crate) fn toml_table_to_string(t: &toml::Table) -> (r: Result<String, String>) {
    toml::to_string(t).map_err(|e| e.to_string())
}

} // verus!
