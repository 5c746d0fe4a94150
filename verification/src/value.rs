//! The driver's value model: what the value-description layer hands to
//! the codec.  A user type is lowered to this tree before serialization
//! and recovered from it after deserialization.

use vstd::prelude::*;

use crate::primitives::Primitive;

verus! {

/// A named field of an aggregate; the name is the field's UTF-8 bytes.
#[derive(Debug, PartialEq)]
pub struct Field {
    pub name: Vec<u8>,
    pub value: Value,
}

/// One key/value pair of a map.
#[derive(Debug, PartialEq)]
pub struct MapEntry {
    pub key: Value,
    pub value: Value,
}

/// A serializable value.
#[derive(Debug, PartialEq)]
pub enum Value {
    /// A scalar.
    Prim(Primitive),
    /// Unit, a unit struct, or a `None` option: encodes as the empty
    /// struct `()` (align 8, no data).
    Unit,
    /// A tuple or tuple struct: always strongly typed `( ... )`.
    Tuple(Vec<Value>),
    /// A sequence without a declared element type: encodes as `av`, each
    /// element wrapped in a variant.
    Sequence(Vec<Value>),
    /// A map: an array of dict entries whose values are wrapped in
    /// variants.  Each key must serialize as a string, or the entry's
    /// signature will not match `{sv}`.
    MapEntries(Vec<MapEntry>),
    /// A dictionary of variants with string keys; entries whose value is
    /// unit are dropped.
    Dict(Vec<Field>),
    /// A named aggregate; the serializer policy decides its style.
    Struct { name: String, fields: Vec<Field> },
    /// An explicit variant wrapper: the value carries its own signature.
    Variant(Box<Value>),
}

} // verus!
