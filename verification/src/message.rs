//! The message type produced by serialization and consumed by
//! deserialization.

use vstd::prelude::*;

verus! {

/// A DBus message body: the data bytes paired with their type signature.
///
/// When the top level is serialized struct style, the recorded signature is
/// bracketed with `(` and `)`; transports strip those outer brackets before
/// sending.
#[derive(Clone, Debug, PartialEq)]
pub struct Message {
    pub data: Vec<u8>,
    pub signature: Vec<u8>,
}

} // verus!
