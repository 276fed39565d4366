//! TOML documents, as the `toml` crate reads them, seen as plain values.
use serde::Deserialize;
use vstd::prelude::*;


verus! {

#[verifier::external_type_specification]
#[verifier::external_body]
pub struct ExTomlValue(toml::Value);

/// A TOML value as plain values; a float by the bit pattern of its `f64`.
pub enum TomlTree {
    Str(Seq<char>),
    Int(int),
    Float(u64),
    Bool(bool),
    Datetime(Seq<char>),
    Array(Seq<TomlTree>),
    Table(Seq<(Seq<char>, TomlTree)>),
}

/// What reading a document gives: its top-level entries in document order, or the
/// parser's message with the byte offset at which the error starts.
pub enum TomlOutcome {
    Parsed(Seq<(Seq<char>, TomlTree)>),
    Failed(Seq<char>, Option<usize>),
}

/// Names what `toml` makes of a document.
pub uninterp spec fn toml_document(src: Seq<char>) -> TomlOutcome;

/// Names the contents of a `toml::Value`.
pub uninterp spec fn toml_value(v: toml::Value) -> TomlTree;

/// Entries holding `toml::Value`s, seen through `toml_value`.
pub open spec fn entry_trees(es: Seq<(String, toml::Value)>) -> Seq<(Seq<char>, TomlTree)> {
    es.map_values(|e: (String, toml::Value)| (e.0@, toml_value(e.1)))
}

/// Why a document could not be read.
pub struct TomlSyntaxError {
    pub message: String,
    pub offset: Option<usize>,
}

/// Parses `src` with `<toml::Table as FromStr>::from_str` (the crate built with
/// `preserve_order`, so entries come in document order) and hands out the top-level
/// entries; on failure, `toml::de::Error::message` and the start of
/// `toml::de::Error::span`. The contract claims that the outcome is a function of
/// the text alone.
#[verifier::external_body]
pub(crate) fn read_document(src: &str) -> (r: Result<Vec<(String, toml::Value)>, TomlSyntaxError>)
    ensures
        match r {
            Ok(es) => toml_document(src@) == TomlOutcome::Parsed(entry_trees(es@)),
            Err(e) => toml_document(src@) == TomlOutcome::Failed(e.message@, e.offset),
        },
{
    match src.parse::<toml::Table>() {
        Ok(t) => Ok(t.into_iter().collect()),
        Err(e) => Err(
            TomlSyntaxError { message: e.message().to_string(), offset: e.span().map(|s| s.start) },
        ),
    }
}

/// Names how toml's document deserializer reads a value with these contents as a
/// `String`: the string, or serde's message.
pub uninterp spec fn read_as_string(t: TomlTree) -> Result<Seq<char>, Seq<char>>;

/// Names how the document deserializer reads such a value as a `bool`.
pub uninterp spec fn read_as_bool(t: TomlTree) -> Result<bool, Seq<char>>;

/// Names how the document deserializer reads such a value as a map (a `toml::Table`):
/// its entries in order, or serde's message.
pub uninterp spec fn read_as_table(t: TomlTree) -> Result<Seq<(Seq<char>, TomlTree)>, Seq<char>>;

/// Names how the document deserializer reads such a value as a sequence.
pub uninterp spec fn read_as_array(t: TomlTree) -> Result<Seq<TomlTree>, Seq<char>>;

/// Reads `v` as a `String` the way `toml::from_str` reads a value in a document:
/// `<String as serde::Deserialize>::deserialize` from `toml::de::ValueDeserializer`
/// over the value's TOML text (its `Display`). On failure it gives
/// `toml::de::Error::message`. Going through the text matters for datetimes, which
/// the document deserializer hands over as maps. The contract claims that the
/// outcome is a function of the value's contents.
#[verifier::external_body]
pub(crate) fn value_as_string(v: &toml::Value) -> (r: Result<String, String>)
    ensures
        match r {
            Ok(x) => read_as_string(toml_value(*v)) == Ok::<Seq<char>, Seq<char>>(x@),
            Err(m) => read_as_string(toml_value(*v)) == Err::<Seq<char>, Seq<char>>(m@),
        },
{
    String::deserialize(toml::de::ValueDeserializer::new(&v.to_string())).map_err(|e| e.message().to_string())
}

/// Reads `v` as a `bool` the same way (`<bool as serde::Deserialize>::deserialize`).
#[verifier::external_body]
pub(crate) fn value_as_bool(v: &toml::Value) -> (r: Result<bool, String>)
    ensures
        match r {
            Ok(x) => read_as_bool(toml_value(*v)) == Ok::<bool, Seq<char>>(x),
            Err(m) => read_as_bool(toml_value(*v)) == Err::<bool, Seq<char>>(m@),
        },
{
    bool::deserialize(toml::de::ValueDeserializer::new(&v.to_string())).map_err(|e| e.message().to_string())
}

/// Reads `v` as a map the same way (`<toml::Table as serde::Deserialize>::deserialize`,
/// which expects `a map` as indexmap's maps do), handing out its entries in order.
#[verifier::external_body]
pub(crate) fn value_as_table(v: &toml::Value) -> (r: Result<Vec<(String, toml::Value)>, String>)
    ensures
        match r {
            Ok(es) => read_as_table(toml_value(*v)) == Ok::<
                Seq<(Seq<char>, TomlTree)>,
                Seq<char>,
            >(entry_trees(es@)),
            Err(m) => read_as_table(toml_value(*v)) == Err::<Seq<(Seq<char>, TomlTree)>, Seq<char>>(
                m@,
            ),
        },
{
    toml::Table::deserialize(toml::de::ValueDeserializer::new(&v.to_string()))
        .map(|t| t.into_iter().collect())
        .map_err(|e| e.message().to_string())
}

/// Reads `v` as a sequence the same way (`<Vec<toml::Value> as serde::Deserialize>::deserialize`).
#[verifier::external_body]
pub(crate) fn value_as_array(v: &toml::Value) -> (r: Result<Vec<toml::Value>, String>)
    ensures
        match r {
            Ok(vs) => read_as_array(toml_value(*v)) == Ok::<Seq<TomlTree>, Seq<char>>(
                vs@.map_values(|x: toml::Value| toml_value(x)),
            ),
            Err(m) => read_as_array(toml_value(*v)) == Err::<Seq<TomlTree>, Seq<char>>(m@),
        },
{
    Vec::<toml::Value>::deserialize(toml::de::ValueDeserializer::new(&v.to_string())).map_err(|e| e.message().to_string())
}

} // verus!
