//! JSON values as this library sees them, and the reading and writing of
//! JSON text.

use vstd::prelude::*;
use crate::error::{outcome_view, FaultKind, ParseFault, SchemaError};

verus! {

/// The mathematical value of a JSON value.
pub enum JsonSpec {
    Null,
    Bool(bool),
    PosInt(u64),
    NegInt(i64),
    Float(Seq<char>),
    Text(Seq<char>),
    Array(Seq<JsonSpec>),
    Object(Seq<MemberSpec>),
}

/// The mathematical value of a member of a JSON object.
pub struct MemberSpec {
    pub key: Seq<char>,
    pub value: JsonSpec,
}

/// A JSON value. A number is a non-negative integer, a negative integer,
/// or anything else, which is kept as the JSON text that stands for it.
/// The members of an object are kept in document order.
#[derive(Debug, PartialEq, Eq)]
pub enum JsonValue {
    Null,
    Bool(bool),
    PosInt(u64),
    NegInt(i64),
    Float(String),
    Text(String),
    Array(Vec<JsonValue>),
    Object(Vec<Member>),
}

/// A member of a JSON object.
#[derive(Debug, PartialEq, Eq)]
pub struct Member {
    pub key: String,
    pub value: JsonValue,
}

/// The value of a JSON value.
pub open spec fn json_value(v: JsonValue) -> JsonSpec
    decreases v,
{
    match v {
        JsonValue::Null => JsonSpec::Null,
        JsonValue::Bool(b) => JsonSpec::Bool(b),
        JsonValue::PosInt(n) => JsonSpec::PosInt(n),
        JsonValue::NegInt(n) => JsonSpec::NegInt(n),
        JsonValue::Float(s) => JsonSpec::Float(s@),
        JsonValue::Text(s) => JsonSpec::Text(s@),
        JsonValue::Array(items) => JsonSpec::Array(items_value(items@)),
        JsonValue::Object(members) => JsonSpec::Object(members_value(members@)),
    }
}

/// The values of a sequence of JSON values, in order.
pub open spec fn items_value(s: Seq<JsonValue>) -> Seq<JsonSpec>
    decreases s,
{
    Seq::new(
        s.len(),
        |i: int|
            if 0 <= i < s.len() {
                json_value(s[i])
            } else {
                arbitrary()
            },
    )
}

/// The value of a member.
pub open spec fn member_value(m: Member) -> MemberSpec
    decreases m,
{
    MemberSpec { key: m.key@, value: json_value(m.value) }
}

/// The values of a sequence of members, in order.
pub open spec fn members_value(s: Seq<Member>) -> Seq<MemberSpec>
    decreases s,
{
    Seq::new(
        s.len(),
        |i: int|
            if 0 <= i < s.len() {
                member_value(s[i])
            } else {
                arbitrary()
            },
    )
}

impl View for JsonValue {
    type V = JsonSpec;

    open spec fn view(&self) -> JsonSpec {
        json_value(*self)
    }
}

impl View for Member {
    type V = MemberSpec;

    open spec fn view(&self) -> MemberSpec {
        member_value(*self)
    }
}

/// `serde_json::Value`, known by name only: it is handed from the parser
/// to the conversion below and from the conversion to the writer.
#[verifier::external_type_specification]
#[verifier::external_body]
pub struct ExOutsideValue(serde_json::Value);

/// `serde_json::Number`, known by name only: it is handed to the
/// conversion below.
#[verifier::external_type_specification]
#[verifier::external_body]
pub struct ExOutsideNumber(serde_json::Number);

/// What `serde_json::from_slice` makes of a text: the value it holds, or
/// where and why it is not JSON.
pub uninterp spec fn parsed(text: Seq<u8>) -> Result<JsonSpec, ParseFault>;

/// What `serde_json::to_vec` writes for a value, if it writes anything.
pub uninterp spec fn printed(v: JsonSpec) -> Option<Seq<u8>>;

/// The outcome of a parse, with the value taken by its view.
pub open spec fn outcome(r: Result<JsonValue, ParseFault>) -> Result<JsonSpec, ParseFault> {
    match r {
        Ok(v) => Ok(v@),
        Err(fault) => Err(fault),
    }
}

/// The outcome of a print, with the bytes taken by their view.
pub open spec fn written(r: Option<Vec<u8>>) -> Option<Seq<u8>> {
    match r {
        Some(bytes) => Some(bytes@),
        None => None,
    }
}

/// Tells the three kinds of `serde_json::Number` apart with `as_u64` and
/// `as_i64`, and keeps the integer, or for any other number the text that
/// its `Display` writes. Nothing is claimed of the result here.
#[verifier::external_body]
fn number_from_outside(n: &serde_json::Number) -> (r: JsonValue) {
    match (n.as_u64(), n.as_i64()) {
        (Some(u), _) => JsonValue::PosInt(u),
        (None, Some(i)) => JsonValue::NegInt(i),
        (None, None) => JsonValue::Float(n.to_string()),
    }
}

/// Moves a `serde_json::Value` into a `JsonValue`, variant by variant.
/// Members keep the order in which the outside map hands them out.
/// Nothing is claimed of the result here.
#[verifier::external_body]
fn from_outside(v: serde_json::Value) -> (r: JsonValue) {
    match v {
        serde_json::Value::Null => JsonValue::Null,
        serde_json::Value::Bool(b) => JsonValue::Bool(b),
        serde_json::Value::Number(n) => number_from_outside(&n),
        serde_json::Value::String(s) => JsonValue::Text(s),
        serde_json::Value::Array(a) => JsonValue::Array(a.into_iter().map(from_outside).collect()),
        serde_json::Value::Object(m) => JsonValue::Object(
            m.into_iter().map(|(key, v)| Member { key, value: from_outside(v) }).collect(),
        ),
    }
}

/// Builds the `serde_json::Value` of a `JsonValue`, variant by variant.
/// An integer goes through `Value::from`; the text of any other number is
/// read back with `serde_json::from_str`, and becomes null where that
/// fails. Members are inserted into the outside map in their order.
/// Nothing is claimed of the result here.
#[verifier::external_body]
fn to_outside(v: &JsonValue) -> (r: serde_json::Value) {
    match v {
        JsonValue::Null => serde_json::Value::Null,
        JsonValue::Bool(b) => serde_json::Value::Bool(*b),
        JsonValue::PosInt(u) => serde_json::Value::from(*u),
        JsonValue::NegInt(i) => serde_json::Value::from(*i),
        JsonValue::Float(t) => serde_json::from_str::<serde_json::Number>(t).map_or(
            serde_json::Value::Null,
            serde_json::Value::Number,
        ),
        JsonValue::Text(s) => serde_json::Value::String(s.clone()),
        JsonValue::Array(a) => serde_json::Value::Array(a.iter().map(to_outside).collect()),
        JsonValue::Object(m) => serde_json::Value::Object(
            m.iter().map(|x| (x.key.clone(), to_outside(&x.value))).collect(),
        ),
    }
}

/// Parses a text with `serde_json::from_slice`. The contract says only
/// that the outcome is what that function makes of the text: the value,
/// or the category, line and column of its error.
#[verifier::external_body]
pub(crate) fn parse_json(text: &[u8]) -> (r: Result<JsonValue, ParseFault>)
    ensures
        outcome(r) == parsed(text@),
{
    match serde_json::from_slice::<serde_json::Value>(text) {
        Ok(v) => Ok(from_outside(v)),
        Err(e) => {
            let kind = match e.classify() {
                serde_json::error::Category::Io => FaultKind::Io,
                serde_json::error::Category::Syntax => FaultKind::Syntax,
                serde_json::error::Category::Data => FaultKind::Data,
                serde_json::error::Category::Eof => FaultKind::Eof,
            };
            Err(ParseFault { kind, line: e.line(), column: e.column() })
        },
    }
}

/// Writes a value as compact JSON text with `serde_json::to_vec`. The
/// contract says only that the outcome is what that function writes for
/// the value, and `None` where it reports an error.
#[verifier::external_body]
pub(crate) fn print_json(v: &JsonValue) -> (r: Option<Vec<u8>>)
    ensures
        written(r) == printed(v@),
{
    serde_json::to_vec(&to_outside(v)).ok()
}

/// The value that a text holds, or the syntax error that the parser
/// reports for it.
pub open spec fn value_of_text(text: Seq<u8>) -> Result<JsonSpec, SchemaError> {
    match parsed(text) {
        Ok(v) => Ok(v),
        Err(fault) => Err(SchemaError::JsonSyntax(fault)),
    }
}

/// Reads a JSON value from its text. A text that is not JSON gives
/// `JsonSyntax`, with the place where the parser gave up.
pub fn read_json(text: &[u8]) -> (r: Result<JsonValue, SchemaError>)
    ensures
        outcome_view(r) == value_of_text(text@),
{
    match parse_json(text) {
        Ok(v) => Ok(v),
        Err(fault) => Err(SchemaError::JsonSyntax(fault)),
    }
}

/// Writes a JSON value as text. Where the writer gives no text the error
/// is `Encode`.
pub fn write_json(v: &JsonValue) -> (r: Result<Vec<u8>, SchemaError>)
    ensures
        match printed(v@) {
            Some(text) => r matches Ok(bytes) && bytes@ == text,
            None => r matches Err(e) && e == SchemaError::Encode,
        },
{
    match print_json(v) {
        Some(bytes) => Ok(bytes),
        None => Err(SchemaError::Encode),
    }
}

} // verus!
