//! Catalog of scalar DBus types: signature code, natural alignment,
//! encoded size, and little-endian byte encoding.
//!
//! Strings, signatures and object paths are modeled by their byte content;
//! a double is modeled by its bit pattern, so the encoding is exact.

use vstd::prelude::*;

use crate::error::Error;

use vstd::bytes::{
    spec_u16_to_le_bytes, spec_u32_to_le_bytes, spec_u64_to_le_bytes, u16_to_le_bytes,
    u32_to_le_bytes, u64_to_le_bytes,
};

verus! {

/// Signature codes of the DBus wire format, as ASCII bytes.
pub const CODE_U8: u8 = 121;  // 'y'
pub const CODE_BOOL: u8 = 98;  // 'b'
pub const CODE_I16: u8 = 110;  // 'n'
pub const CODE_U16: u8 = 113;  // 'q'
pub const CODE_I32: u8 = 105;  // 'i'
pub const CODE_U32: u8 = 117;  // 'u'
pub const CODE_I64: u8 = 120;  // 'x'
pub const CODE_U64: u8 = 116;  // 't'
pub const CODE_F64: u8 = 100;  // 'd'
pub const CODE_STR: u8 = 115;  // 's'
pub const CODE_SIG: u8 = 103;  // 'g'
pub const CODE_PATH: u8 = 111;  // 'o'
pub const CODE_ARRAY: u8 = 97;  // 'a'
pub const CODE_STRUCT_OPEN: u8 = 40;  // '('
pub const CODE_STRUCT_CLOSE: u8 = 41;  // ')'
pub const CODE_DICT_OPEN: u8 = 123;  // '{'
pub const CODE_DICT_CLOSE: u8 = 125;  // '}'
pub const CODE_VARIANT: u8 = 118;  // 'v'
pub const CODE_FD: u8 = 104;  // 'h'
pub const CODE_SQUARE_OPEN: u8 = 91;  // '['
pub const CODE_SQUARE_CLOSE: u8 = 93;  // ']'
pub const NUL: u8 = 0;

/// A DBus signature value (`g`): the signature's bytes.
#[derive(Debug, Clone, PartialEq)]
pub struct Signature(pub Vec<u8>);

/// A DBus object path (`o`): the path's bytes; the core validates only
/// length and NUL framing, not path syntax.
#[derive(Debug, Clone, PartialEq)]
pub struct ObjectPath(pub Vec<u8>);

/// One scalar DBus value.  A `d` double is carried as its IEEE-754 bit
/// pattern; a string as its UTF-8 bytes.
#[derive(Debug, Clone, PartialEq)]
pub enum Primitive {
    U8(u8),
    Bool(bool),
    I16(i16),
    U16(u16),
    I32(i32),
    U32(u32),
    I64(i64),
    U64(u64),
    F64Bits(u64),
    Str(Vec<u8>),
    Sig(Signature),
    Path(ObjectPath),
}

/// Natural alignment of the type introduced by a signature byte.
pub fn sig_alignment(item_sig: u8) -> (r: Result<usize, Error>)
    ensures
        r == spec_sig_alignment(item_sig),
{
    if item_sig == CODE_U8 {
        Ok(1)
    } else if item_sig == CODE_BOOL {
        Ok(4)
    } else if item_sig == CODE_I16 {
        Ok(2)
    } else if item_sig == CODE_U16 {
        Ok(2)
    } else if item_sig == CODE_I32 {
        Ok(4)
    } else if item_sig == CODE_U32 {
        Ok(4)
    } else if item_sig == CODE_I64 {
        Ok(8)
    } else if item_sig == CODE_U64 {
        Ok(8)
    } else if item_sig == CODE_F64 {
        Ok(8)
    } else if item_sig == CODE_STR {
        Ok(4)
    } else if item_sig == CODE_PATH {
        Ok(4)
    } else if item_sig == CODE_SIG {
        Ok(1)
    } else if item_sig == CODE_ARRAY {
        Ok(4)
    } else if item_sig == CODE_STRUCT_OPEN {
        Ok(8)
    } else if item_sig == CODE_VARIANT {
        Ok(1)
    } else if item_sig == CODE_DICT_OPEN {
        Ok(8)
    } else if item_sig == CODE_FD {
        Ok(4)
    } else {
        Err(Error::UnrecognizedSignatureCharacter(item_sig))
    }
}

/// Spec table behind `sig_alignment`.
pub open spec fn spec_sig_alignment(item_sig: u8) -> Result<usize, Error> {
    if item_sig == CODE_U8 || item_sig == CODE_SIG || item_sig == CODE_VARIANT {
        Ok(1usize)
    } else if item_sig == CODE_I16 || item_sig == CODE_U16 {
        Ok(2usize)
    } else if item_sig == CODE_BOOL || item_sig == CODE_I32 || item_sig == CODE_U32 || item_sig
        == CODE_STR || item_sig == CODE_PATH || item_sig == CODE_ARRAY || item_sig == CODE_FD {
        Ok(4usize)
    } else if item_sig == CODE_I64 || item_sig == CODE_U64 || item_sig == CODE_F64 || item_sig
        == CODE_STRUCT_OPEN || item_sig == CODE_DICT_OPEN {
        Ok(8usize)
    } else {
        Err(Error::UnrecognizedSignatureCharacter(item_sig))
    }
}

/// Natural alignment of an array's element, read from the first byte of
/// its element signature; 1 when the signature is empty or not a
/// signature code (nothing stricter can be promised then).
pub open spec fn elem_align_of(item_sig: Seq<u8>) -> int {
    if item_sig.len() == 0 {
        1
    } else {
        match spec_sig_alignment(item_sig[0]) {
            Ok(a) => a as int,
            Err(_) => 1,
        }
    }
}

/// Wire encoding of a string-like value: u32 length (excluding the NUL),
/// the bytes, then a NUL.
pub open spec fn str_enc(b: Seq<u8>) -> Seq<u8> {
    spec_u32_to_le_bytes(b.len() as u32) + b + seq![NUL]
}

impl Primitive {
    /// The signature code of this value's type.
    pub open spec fn sig_code(self) -> u8 {
        match self {
            Primitive::U8(_) => CODE_U8,
            Primitive::Bool(_) => CODE_BOOL,
            Primitive::I16(_) => CODE_I16,
            Primitive::U16(_) => CODE_U16,
            Primitive::I32(_) => CODE_I32,
            Primitive::U32(_) => CODE_U32,
            Primitive::I64(_) => CODE_I64,
            Primitive::U64(_) => CODE_U64,
            Primitive::F64Bits(_) => CODE_F64,
            Primitive::Str(_) => CODE_STR,
            Primitive::Sig(_) => CODE_SIG,
            Primitive::Path(_) => CODE_PATH,
        }
    }

    /// Natural alignment of this value's type inside a message body.
    pub open spec fn spec_alignment(self) -> int {
        match self {
            Primitive::U8(_) => 1,
            Primitive::Bool(_) => 4,
            Primitive::I16(_) => 2,
            Primitive::U16(_) => 2,
            Primitive::I32(_) => 4,
            Primitive::U32(_) => 4,
            Primitive::I64(_) => 8,
            Primitive::U64(_) => 8,
            Primitive::F64Bits(_) => 8,
            Primitive::Str(_) => 4,
            Primitive::Sig(_) => 1,
            Primitive::Path(_) => 4,
        }
    }

    /// Encoded size in bytes (excluding any preceding padding).
    pub open spec fn spec_size(self) -> int {
        match self {
            Primitive::U8(_) => 1,
            Primitive::Bool(_) => 4,
            Primitive::I16(_) => 2,
            Primitive::U16(_) => 2,
            Primitive::I32(_) => 4,
            Primitive::U32(_) => 4,
            Primitive::I64(_) => 8,
            Primitive::U64(_) => 8,
            Primitive::F64Bits(_) => 8,
            Primitive::Str(b) => b@.len() as int + 5,
            Primitive::Sig(s) => s.0@.len() as int + 2,
            Primitive::Path(p) => p.0@.len() as int + 5,
        }
    }

    /// The encoded bytes, little-endian.  Strings and object paths carry a
    /// u32 length (excluding the NUL), the bytes, and a NUL; a signature
    /// carries a u8 length instead.
    pub open spec fn enc(self) -> Seq<u8> {
        match self {
            Primitive::U8(v) => seq![v],
            Primitive::Bool(v) => spec_u32_to_le_bytes(
                if v {
                    1u32
                } else {
                    0u32
                },
            ),
            Primitive::I16(v) => spec_u16_to_le_bytes(v as u16),
            Primitive::U16(v) => spec_u16_to_le_bytes(v),
            Primitive::I32(v) => spec_u32_to_le_bytes(v as u32),
            Primitive::U32(v) => spec_u32_to_le_bytes(v),
            Primitive::I64(v) => spec_u64_to_le_bytes(v as u64),
            Primitive::U64(v) => spec_u64_to_le_bytes(v),
            Primitive::F64Bits(v) => spec_u64_to_le_bytes(v),
            Primitive::Str(b) => str_enc(b@),
            Primitive::Sig(s) => seq![s.0@.len() as u8] + s.0@ + seq![NUL],
            Primitive::Path(p) => str_enc(p.0@),
        }
    }


    /// A value whose variable-length payload fits its length prefix.
    pub open spec fn wf(self) -> bool {
        match self {
            Primitive::Str(b) => b@.len() <= u32::MAX,
            Primitive::Sig(s) => s.0@.len() <= u8::MAX,
            Primitive::Path(p) => p.0@.len() <= u32::MAX,
            _ => true,
        }
    }

    pub fn signature(&self) -> (r: u8)
        ensures
            r == self.sig_code(),
    {
        match self {
            Primitive::U8(_) => CODE_U8,
            Primitive::Bool(_) => CODE_BOOL,
            Primitive::I16(_) => CODE_I16,
            Primitive::U16(_) => CODE_U16,
            Primitive::I32(_) => CODE_I32,
            Primitive::U32(_) => CODE_U32,
            Primitive::I64(_) => CODE_I64,
            Primitive::U64(_) => CODE_U64,
            Primitive::F64Bits(_) => CODE_F64,
            Primitive::Str(_) => CODE_STR,
            Primitive::Sig(_) => CODE_SIG,
            Primitive::Path(_) => CODE_PATH,
        }
    }

    pub fn alignment(&self) -> (r: usize)
        ensures
            r as int == self.spec_alignment(),
            crate::ser::message_builder::alignment_ok(r as int),
    {
        match self {
            Primitive::U8(_) => 1,
            Primitive::Bool(_) => 4,
            Primitive::I16(_) => 2,
            Primitive::U16(_) => 2,
            Primitive::I32(_) => 4,
            Primitive::U32(_) => 4,
            Primitive::I64(_) => 8,
            Primitive::U64(_) => 8,
            Primitive::F64Bits(_) => 8,
            Primitive::Str(_) => 4,
            Primitive::Sig(_) => 1,
            Primitive::Path(_) => 4,
        }
    }

    pub fn size(&self) -> (r: usize)
        requires
            self.spec_size() <= usize::MAX,
        ensures
            r as int == self.spec_size(),
    {
        match self {
            Primitive::U8(_) => 1,
            Primitive::Bool(_) => 4,
            Primitive::I16(_) => 2,
            Primitive::U16(_) => 2,
            Primitive::I32(_) => 4,
            Primitive::U32(_) => 4,
            Primitive::I64(_) => 8,
            Primitive::U64(_) => 8,
            Primitive::F64Bits(_) => 8,
            Primitive::Str(b) => b.len() + 5,
            Primitive::Sig(s) => s.0.len() + 2,
            Primitive::Path(p) => p.0.len() + 5,
        }
    }

    /// The encoded bytes of this value.
    pub fn serialize(&self) -> (r: Vec<u8>)
        ensures
            r@ == self.enc(),
            r@.len() == self.spec_size() || !self.wf(),
    {
        match self {
            Primitive::U8(v) => {
                let mut out: Vec<u8> = Vec::new();
                out.push(*v);
                proof {
                    assert(out@ =~= self.enc());
                }
                out
            },
            Primitive::Bool(v) => {
                let out = u32_to_le_bytes(
                    if *v {
                        1
                    } else {
                        0
                    },
                );
                proof {
                    vstd::bytes::lemma_auto_spec_u32_to_from_le_bytes();
                }
                out
            },
            Primitive::I16(v) => {
                let out = u16_to_le_bytes(#[verifier::truncate] (*v as u16));
                proof {
                    vstd::bytes::lemma_auto_spec_u16_to_from_le_bytes();
                }
                out
            },
            Primitive::U16(v) => {
                let out = u16_to_le_bytes(*v);
                proof {
                    vstd::bytes::lemma_auto_spec_u16_to_from_le_bytes();
                }
                out
            },
            Primitive::I32(v) => {
                let out = u32_to_le_bytes(#[verifier::truncate] (*v as u32));
                proof {
                    vstd::bytes::lemma_auto_spec_u32_to_from_le_bytes();
                }
                out
            },
            Primitive::U32(v) => {
                let out = u32_to_le_bytes(*v);
                proof {
                    vstd::bytes::lemma_auto_spec_u32_to_from_le_bytes();
                }
                out
            },
            Primitive::I64(v) => {
                let out = u64_to_le_bytes(#[verifier::truncate] (*v as u64));
                proof {
                    vstd::bytes::lemma_auto_spec_u64_to_from_le_bytes();
                }
                out
            },
            Primitive::U64(v) => {
                let out = u64_to_le_bytes(*v);
                proof {
                    vstd::bytes::lemma_auto_spec_u64_to_from_le_bytes();
                }
                out
            },
            Primitive::F64Bits(v) => {
                let out = u64_to_le_bytes(*v);
                proof {
                    vstd::bytes::lemma_auto_spec_u64_to_from_le_bytes();
                }
                out
            },
            Primitive::Str(b) => {
                let mut out = u32_to_le_bytes(#[verifier::truncate] (b.len() as u32));
                proof {
                    vstd::bytes::lemma_auto_spec_u32_to_from_le_bytes();
                }
                out.extend_from_slice(b.as_slice());
                out.push(0);
                proof {
                    assert(out@ =~= self.enc());
                }
                out
            },
            Primitive::Sig(s) => {
                let mut out: Vec<u8> = Vec::new();
                out.push(#[verifier::truncate] (s.0.len() as u8));
                out.extend_from_slice(s.0.as_slice());
                out.push(0);
                proof {
                    assert(out@ =~= self.enc());
                }
                out
            },
            Primitive::Path(p) => {
                let mut out = u32_to_le_bytes(#[verifier::truncate] (p.0.len() as u32));
                proof {
                    vstd::bytes::lemma_auto_spec_u32_to_from_le_bytes();
                }
                out.extend_from_slice(p.0.as_slice());
                out.push(0);
                proof {
                    assert(out@ =~= self.enc());
                }
                out
            },
        }
    }
}

} // verus!
