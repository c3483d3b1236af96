//! Text rendering of typed attribute values.
use vstd::prelude::*;
use opentelemetry_proto::tonic::common::v1::any_value::Value;

verus! {

/// The kind of a value that has no text rendering.
#[derive(Debug, Clone, Copy, PartialEq, Eq, Structural)]
pub enum ValueKind {
    Bool,
    Int,
    Double,
    Array,
    KeyValueList,
    Bytes,
    StringIndex,
}

/// The text of a value: a string renders as itself; every other kind is
/// refused with its kind.
pub open spec fn rendered(v: Value) -> Result<Seq<char>, ValueKind> {
    match v {
        Value::StringValue(s) => Ok(s@),
        Value::BoolValue(_) => Err(ValueKind::Bool),
        Value::IntValue(_) => Err(ValueKind::Int),
        Value::DoubleValue(_) => Err(ValueKind::Double),
        Value::ArrayValue(_) => Err(ValueKind::Array),
        Value::KvlistValue(_) => Err(ValueKind::KeyValueList),
        Value::BytesValue(_) => Err(ValueKind::Bytes),
        Value::StringValueStrindex(_) => Err(ValueKind::StringIndex),
    }
}

/// A text result as a value of the model.
pub open spec fn text_result(r: Result<String, ValueKind>) -> Result<Seq<char>, ValueKind> {
    match r {
        Ok(s) => Ok(s@),
        Err(k) => Err(k),
    }
}

/// Renders one value as text.
pub fn parse_value_to_str(value: Value) -> (r: Result<String, ValueKind>)
    ensures
        text_result(r) == rendered(value),
{
    match value {
        Value::StringValue(s) => Ok(s),
        Value::BoolValue(_) => Err(ValueKind::Bool),
        Value::IntValue(_) => Err(ValueKind::Int),
        Value::DoubleValue(_) => Err(ValueKind::Double),
        Value::ArrayValue(_) => Err(ValueKind::Array),
        Value::KvlistValue(_) => Err(ValueKind::KeyValueList),
        Value::BytesValue(_) => Err(ValueKind::Bytes),
        Value::StringValueStrindex(_) => Err(ValueKind::StringIndex),
    }
}

} // verus!
