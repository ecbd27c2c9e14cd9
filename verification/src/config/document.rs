//! TOML documents, as far as the configuration rules read them, and the call
//! into the `toml` crate that produces them.
use vstd::prelude::*;

verus! {

/// A TOML value as the configuration rules see it: strings, integers, booleans,
/// arrays and tables in full; floats and datetimes only by their kind.
#[derive(Debug)]
pub enum TomlValue {
    String(String),
    Integer(i64),
    Float,
    Boolean(bool),
    Datetime,
    Array(Vec<TomlValue>),
    Table(Vec<(String, TomlValue)>),
}

#[verifier::external_type_specification]
#[verifier::external_body]
pub struct ExTomlValue(toml::Value);

/// The document that the `toml` crate reads from `text` (its root value in the
/// library's own form), or the text of the error it reports.
pub uninterp spec fn toml_document(text: Seq<char>) -> Result<TomlValue, Seq<char>>;

/// Trusted: `<toml::Value as FromStr>::from_str`, which is `toml::from_str`
/// reading a whole document. The contract claims only that the outcome (the
/// value carried over by [`lift_value`], or the `Display` text of the
/// `toml::de::Error`) is a function of `text` alone; what that function is, the
/// TOML grammar, is left unsaid.
#[verifier::external_body]
pub(crate) fn parse_document(text: &str) -> (r: Result<TomlValue, String>)
    ensures
        match r {
            Ok(v) => toml_document(text@) == Ok::<TomlValue, Seq<char>>(v),
            Err(e) => toml_document(text@) == Err::<TomlValue, Seq<char>>(e@),
        },
{
    match text.parse::<toml::Value>() {
        Ok(value) => Ok(lift_value(value)),
        Err(error) => Err(error.to_string()),
    }
}

/// Carries a `toml::Value` over into a [`TomlValue`], variant by variant; table
/// entries keep the order in which `toml::map::Map` yields them.
#[verifier::external_body]
fn lift_value(value: toml::Value) -> TomlValue {
    match value {
        toml::Value::String(s) => TomlValue::String(s),
        toml::Value::Integer(i) => TomlValue::Integer(i),
        toml::Value::Float(_) => TomlValue::Float,
        toml::Value::Boolean(b) => TomlValue::Boolean(b),
        toml::Value::Datetime(_) => TomlValue::Datetime,
        toml::Value::Array(items) => TomlValue::Array(items.into_iter().map(lift_value).collect()),
        toml::Value::Table(table) => TomlValue::Table(table.into_iter().map(|(k, v)| (k, lift_value(v))).collect()),
    }
}

/// The word used for a value's kind in configuration messages.
pub open spec fn kind_name(value: TomlValue) -> Seq<char> {
    match value {
        TomlValue::String(_) => "string"@,
        TomlValue::Integer(_) => "integer"@,
        TomlValue::Float => "float"@,
        TomlValue::Boolean(_) => "boolean"@,
        TomlValue::Datetime => "datetime"@,
        TomlValue::Array(_) => "array"@,
        TomlValue::Table(_) => "table"@,
    }
}

/// The kind of `value`, as named in configuration messages.
pub fn value_kind(value: &TomlValue) -> (r: &'static str)
    ensures
        r@ == kind_name(*value),
{
    match value {
        TomlValue::String(_) => "string",
        TomlValue::Integer(_) => "integer",
        TomlValue::Float => "float",
        TomlValue::Boolean(_) => "boolean",
        TomlValue::Datetime => "datetime",
        TomlValue::Array(_) => "array",
        TomlValue::Table(_) => "table",
    }
}

} // verus!
