//! A verified codec for the DBus wire format.
//!
//! Values are serialized into DBus message bodies -- a byte buffer paired
//! with a type signature -- and deserialized back.  The heart of the
//! serializer is a deferred-emission byte assembler that records alignment
//! intents and array-length placeholders and resolves them on finalization,
//! because DBus array lengths must appear before the bytes they count.

pub mod align;
pub mod de;
pub mod error;
pub mod laws;
pub mod message;
pub mod primitives;
pub mod ser;
pub mod value;
