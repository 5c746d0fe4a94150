//! Per-aggregate choice between strongly-typed struct serialization and
//! dictionary-of-variants serialization.

use vstd::prelude::*;

verus! {

/// How a named aggregate serializes.
#[derive(Clone, Copy, Debug, PartialEq, Eq, Structural)]
pub enum StructSerializationStyle {
    /// As a struct `( ... )` in field order.
    StronglyTyped,
    /// As a property map `a{sv}` keyed by field name, each value wrapped
    /// in a variant; unit-valued fields are elided.
    Dict,
}

/// Decides, for each named aggregate, which style it serializes in.
/// Implement this to make the choice on a name-by-name basis.
pub trait SerializerPolicy {
    /// The style this policy chooses for a name.
    spec fn spec_style(&self, name: Seq<char>) -> StructSerializationStyle;

    fn query_struct_name(&self, name: &str) -> (r: StructSerializationStyle)
        ensures
            r == self.spec_style(name@),
    ;
}

/// Serializes every named aggregate as a property map, matching the
/// `a{sv}` idiom.
#[derive(Clone, Debug)]
pub struct DefaultSerializerPolicy;

impl SerializerPolicy for DefaultSerializerPolicy {
    open spec fn spec_style(&self, name: Seq<char>) -> StructSerializationStyle {
        StructSerializationStyle::Dict
    }

    fn query_struct_name(&self, name: &str) -> (r: StructSerializationStyle) {
        StructSerializationStyle::Dict
    }
}

/// Serializes every named aggregate as a struct.
#[derive(Clone, Debug)]
pub struct StronglyTypedSerializerPolicy;

impl SerializerPolicy for StronglyTypedSerializerPolicy {
    open spec fn spec_style(&self, name: Seq<char>) -> StructSerializationStyle {
        StructSerializationStyle::StronglyTyped
    }

    fn query_struct_name(&self, name: &str) -> (r: StructSerializationStyle) {
        StructSerializationStyle::StronglyTyped
    }
}

} // verus!
