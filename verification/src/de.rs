//! Deserialization: a signature cursor plus a data cursor answer
//! element-by-element requests, synthesizing child decoders for nested
//! composites, variants, arrays and dict entries.

pub mod internal;

use vstd::prelude::*;

use crate::align::align_up;
use crate::error::Error;
use crate::message::Message;
use crate::primitives::{
    sig_alignment, Primitive, CODE_ARRAY, NUL, CODE_BOOL, CODE_DICT_CLOSE, CODE_DICT_OPEN, CODE_F64, CODE_FD,
    CODE_I16, CODE_I32, CODE_I64, CODE_PATH, CODE_SIG, CODE_STR, CODE_STRUCT_CLOSE,
    CODE_STRUCT_OPEN, CODE_U16, CODE_U32, CODE_U64, CODE_U8, CODE_VARIANT,
};
use crate::value::{MapEntry, Value};
use internal::{sig_scan, DataBuffer, Deserializer};
use vstd::bytes::{
    spec_u16_from_le_bytes, spec_u32_from_le_bytes, spec_u64_from_le_bytes, u16_from_le_bytes,
    u32_from_le_bytes, u64_from_le_bytes,
};

verus! {

/// Checks that `b` is valid UTF-8.
///
/// Relies on `core::str::from_utf8`, which returns `Ok` exactly when its
/// input is valid UTF-8; `valid_utf8` is vstd's formalization of the same
/// predicate (vstd specifies `str::from_utf8_unchecked` with it).
#[verifier::external_body]
fn utf8_check(b: &[u8]) -> (r: bool)
    ensures
        r == vstd::utf8::valid_utf8(b@),
{
    core::str::from_utf8(b).is_ok()
}

/// The outcome of reading one fixed-size scalar from data position `dix`
/// under signature position `six`: where its bytes start and where the
/// signature cursor ends up, or the error, exactly as the cursor
/// operations produce it.
pub open spec fn fixed_outcome(
    data: Seq<u8>,
    dix: int,
    sig: Seq<u8>,
    six: int,
    code: u8,
    a: int,
    n: int,
) -> Result<(int, int), Error> {
    if six >= sig.len() {
        Err(Error::SignatureExhausted)
    } else if sig[six] != code {
        Err(Error::SignatureError(code, sig[six]))
    } else {
        let pos = align_up(dix, a);
        if pos > data.len() {
            Err(Error::IndexOutOfBounds(pos as usize))
        } else if pos + n > data.len() {
            Err(Error::IndexOutOfBounds((pos + n) as usize))
        } else {
            Ok((pos, six + 1))
        }
    }
}

/// Expect the signature byte `code`, align the data cursor to `alignment`
/// and read `size` bytes.
pub fn read_align_signature_value(
    de: &mut Deserializer,
    buf: &mut DataBuffer,
    code: u8,
    alignment: usize,
    size: usize,
) -> (r: Result<Vec<u8>, Error>)
    requires
        old(de).sig_ix <= old(de).sig@.len(),
        1 <= alignment,
        old(buf).data_ix + alignment <= usize::MAX,
        old(buf).data@.len() + size + 8 <= usize::MAX,
        old(buf).data_ix <= old(buf).data@.len(),
    ensures
        final(de).sig@ == old(de).sig@,
        final(buf).data@ == old(buf).data@,
        old(buf).data_ix <= final(buf).data_ix,
        old(de).sig_ix <= final(de).sig_ix <= final(de).sig@.len(),
        match fixed_outcome(old(buf).data@, old(buf).data_ix as int, old(de).sig@, old(de).sig_ix as int, code, alignment as int, size as int) {
            Ok(pos_six) => r matches Ok(b) && {
                &&& b@ == old(buf).data@.subrange(pos_six.0, pos_six.0 + size)
                &&& final(buf).data_ix == pos_six.0 + size
                &&& final(de).sig_ix == pos_six.1
                &&& final(buf).data_ix <= final(buf).data@.len()
            },
            Err(e) => r matches Err(e2) && e2 == e,
        },
{
    match de.expect_signature_byte(code) {
        Ok(_) => {
        },
        Err(e) => {
            return Err(e);
        },
    }
    match buf.align_reader(alignment) {
        Ok(_) => {
        },
        Err(e) => {
            return Err(e);
        },
    }
    buf.read(size)
}

/// Decode a `y` byte.
pub fn decode_u8(de: &mut Deserializer, buf: &mut DataBuffer) -> (r: Result<u8, Error>)
    requires
        old(de).sig_ix <= old(de).sig@.len(),
        old(buf).data_ix <= old(buf).data@.len(),
        old(buf).data@.len() + 16 <= usize::MAX,
    ensures
        final(de).sig@ == old(de).sig@,
        final(buf).data@ == old(buf).data@,
        old(buf).data_ix <= final(buf).data_ix,
        old(de).sig_ix <= final(de).sig_ix <= final(de).sig@.len(),
        match fixed_outcome(old(buf).data@, old(buf).data_ix as int, old(de).sig@, old(de).sig_ix as int, CODE_U8, 1, 1) {
            Ok(pos_six) => r matches Ok(v) && v == old(buf).data@[pos_six.0]
                && final(buf).data_ix == pos_six.0 + 1 && final(de).sig_ix == pos_six.1
                && final(buf).data_ix <= final(buf).data@.len(),
            Err(e) => r matches Err(e2) && e2 == e,
        },
{
    let b = read_align_signature_value(de, buf, CODE_U8, 1, 1)?;
    Ok(b[0])
}

/// Decode a `b` boolean; its encoded u32 must be 0 or 1.
pub fn decode_bool(de: &mut Deserializer, buf: &mut DataBuffer) -> (r: Result<bool, Error>)
    requires
        old(de).sig_ix <= old(de).sig@.len(),
        old(buf).data_ix <= old(buf).data@.len(),
        old(buf).data@.len() + 16 <= usize::MAX,
    ensures
        final(de).sig@ == old(de).sig@,
        final(buf).data@ == old(buf).data@,
        old(buf).data_ix <= final(buf).data_ix,
        old(de).sig_ix <= final(de).sig_ix <= final(de).sig@.len(),
        match fixed_outcome(old(buf).data@, old(buf).data_ix as int, old(de).sig@, old(de).sig_ix as int, CODE_BOOL, 4, 4) {
            Ok(pos_six) => {
                let v = spec_u32_from_le_bytes(
                    old(buf).data@.subrange(pos_six.0, pos_six.0 + 4),
                );
                &&& final(buf).data_ix == pos_six.0 + 4
                &&& final(de).sig_ix == pos_six.1
                &&& (v > 1 ==> (r matches Err(e) && e == Error::InvalidBoolValue(v)))
                &&& (v <= 1 ==> (r matches Ok(b) && b == (v == 1)))
            },
            Err(e) => r matches Err(e2) && e2 == e,
        },
{
    let b = read_align_signature_value(de, buf, CODE_BOOL, 4, 4)?;
    let i = u32_from_le_bytes(b.as_slice());
    if i > 1 {
        return Err(Error::InvalidBoolValue(i));
    }
    Ok(i == 1)
}

/// Decode an `n` i16.
pub fn decode_i16(de: &mut Deserializer, buf: &mut DataBuffer) -> (r: Result<i16, Error>)
    requires
        old(de).sig_ix <= old(de).sig@.len(),
        old(buf).data_ix <= old(buf).data@.len(),
        old(buf).data@.len() + 16 <= usize::MAX,
    ensures
        final(de).sig@ == old(de).sig@,
        final(buf).data@ == old(buf).data@,
        old(buf).data_ix <= final(buf).data_ix,
        old(de).sig_ix <= final(de).sig_ix <= final(de).sig@.len(),
        match fixed_outcome(old(buf).data@, old(buf).data_ix as int, old(de).sig@, old(de).sig_ix as int, CODE_I16, 2, 2) {
            Ok(pos_six) => r matches Ok(v) && v == spec_u16_from_le_bytes(
                old(buf).data@.subrange(pos_six.0, pos_six.0 + 2),
            ) as i16 && final(buf).data_ix == pos_six.0 + 2 && final(de).sig_ix == pos_six.1,
            Err(e) => r matches Err(e2) && e2 == e,
        },
{
    let b = read_align_signature_value(de, buf, CODE_I16, 2, 2)?;
    let i = u16_from_le_bytes(b.as_slice());
    Ok(#[verifier::truncate] (i as i16))
}

/// Decode a `q` u16.
pub fn decode_u16(de: &mut Deserializer, buf: &mut DataBuffer) -> (r: Result<u16, Error>)
    requires
        old(de).sig_ix <= old(de).sig@.len(),
        old(buf).data_ix <= old(buf).data@.len(),
        old(buf).data@.len() + 16 <= usize::MAX,
    ensures
        final(de).sig@ == old(de).sig@,
        final(buf).data@ == old(buf).data@,
        old(buf).data_ix <= final(buf).data_ix,
        old(de).sig_ix <= final(de).sig_ix <= final(de).sig@.len(),
        match fixed_outcome(old(buf).data@, old(buf).data_ix as int, old(de).sig@, old(de).sig_ix as int, CODE_U16, 2, 2) {
            Ok(pos_six) => r matches Ok(v) && v == spec_u16_from_le_bytes(
                old(buf).data@.subrange(pos_six.0, pos_six.0 + 2),
            ) && final(buf).data_ix == pos_six.0 + 2 && final(de).sig_ix == pos_six.1,
            Err(e) => r matches Err(e2) && e2 == e,
        },
{
    let b = read_align_signature_value(de, buf, CODE_U16, 2, 2)?;
    Ok(u16_from_le_bytes(b.as_slice()))
}

/// Decode an `i` i32.
pub fn decode_i32(de: &mut Deserializer, buf: &mut DataBuffer) -> (r: Result<i32, Error>)
    requires
        old(de).sig_ix <= old(de).sig@.len(),
        old(buf).data_ix <= old(buf).data@.len(),
        old(buf).data@.len() + 16 <= usize::MAX,
    ensures
        final(de).sig@ == old(de).sig@,
        final(buf).data@ == old(buf).data@,
        old(buf).data_ix <= final(buf).data_ix,
        old(de).sig_ix <= final(de).sig_ix <= final(de).sig@.len(),
        match fixed_outcome(old(buf).data@, old(buf).data_ix as int, old(de).sig@, old(de).sig_ix as int, CODE_I32, 4, 4) {
            Ok(pos_six) => r matches Ok(v) && v == spec_u32_from_le_bytes(
                old(buf).data@.subrange(pos_six.0, pos_six.0 + 4),
            ) as i32 && final(buf).data_ix == pos_six.0 + 4 && final(de).sig_ix == pos_six.1,
            Err(e) => r matches Err(e2) && e2 == e,
        },
{
    let b = read_align_signature_value(de, buf, CODE_I32, 4, 4)?;
    let i = u32_from_le_bytes(b.as_slice());
    Ok(#[verifier::truncate] (i as i32))
}

/// Decode a `u` u32.
pub fn decode_u32(de: &mut Deserializer, buf: &mut DataBuffer) -> (r: Result<u32, Error>)
    requires
        old(de).sig_ix <= old(de).sig@.len(),
        old(buf).data_ix <= old(buf).data@.len(),
        old(buf).data@.len() + 16 <= usize::MAX,
    ensures
        final(de).sig@ == old(de).sig@,
        final(buf).data@ == old(buf).data@,
        old(buf).data_ix <= final(buf).data_ix,
        old(de).sig_ix <= final(de).sig_ix <= final(de).sig@.len(),
        match fixed_outcome(old(buf).data@, old(buf).data_ix as int, old(de).sig@, old(de).sig_ix as int, CODE_U32, 4, 4) {
            Ok(pos_six) => r matches Ok(v) && v == spec_u32_from_le_bytes(
                old(buf).data@.subrange(pos_six.0, pos_six.0 + 4),
            ) && final(buf).data_ix == pos_six.0 + 4 && final(de).sig_ix == pos_six.1,
            Err(e) => r matches Err(e2) && e2 == e,
        },
{
    let b = read_align_signature_value(de, buf, CODE_U32, 4, 4)?;
    Ok(u32_from_le_bytes(b.as_slice()))
}

/// Decode an `x` i64.
pub fn decode_i64(de: &mut Deserializer, buf: &mut DataBuffer) -> (r: Result<i64, Error>)
    requires
        old(de).sig_ix <= old(de).sig@.len(),
        old(buf).data_ix <= old(buf).data@.len(),
        old(buf).data@.len() + 16 <= usize::MAX,
    ensures
        final(de).sig@ == old(de).sig@,
        final(buf).data@ == old(buf).data@,
        old(buf).data_ix <= final(buf).data_ix,
        old(de).sig_ix <= final(de).sig_ix <= final(de).sig@.len(),
        match fixed_outcome(old(buf).data@, old(buf).data_ix as int, old(de).sig@, old(de).sig_ix as int, CODE_I64, 8, 8) {
            Ok(pos_six) => r matches Ok(v) && v == spec_u64_from_le_bytes(
                old(buf).data@.subrange(pos_six.0, pos_six.0 + 8),
            ) as i64 && final(buf).data_ix == pos_six.0 + 8 && final(de).sig_ix == pos_six.1,
            Err(e) => r matches Err(e2) && e2 == e,
        },
{
    let b = read_align_signature_value(de, buf, CODE_I64, 8, 8)?;
    let i = u64_from_le_bytes(b.as_slice());
    Ok(#[verifier::truncate] (i as i64))
}

/// Decode a `t` u64.
pub fn decode_u64(de: &mut Deserializer, buf: &mut DataBuffer) -> (r: Result<u64, Error>)
    requires
        old(de).sig_ix <= old(de).sig@.len(),
        old(buf).data_ix <= old(buf).data@.len(),
        old(buf).data@.len() + 16 <= usize::MAX,
    ensures
        final(de).sig@ == old(de).sig@,
        final(buf).data@ == old(buf).data@,
        old(buf).data_ix <= final(buf).data_ix,
        old(de).sig_ix <= final(de).sig_ix <= final(de).sig@.len(),
        match fixed_outcome(old(buf).data@, old(buf).data_ix as int, old(de).sig@, old(de).sig_ix as int, CODE_U64, 8, 8) {
            Ok(pos_six) => r matches Ok(v) && v == spec_u64_from_le_bytes(
                old(buf).data@.subrange(pos_six.0, pos_six.0 + 8),
            ) && final(buf).data_ix == pos_six.0 + 8 && final(de).sig_ix == pos_six.1,
            Err(e) => r matches Err(e2) && e2 == e,
        },
{
    let b = read_align_signature_value(de, buf, CODE_U64, 8, 8)?;
    Ok(u64_from_le_bytes(b.as_slice()))
}

/// Decode a `d` double as its IEEE-754 bit pattern.
pub fn decode_f64_bits(de: &mut Deserializer, buf: &mut DataBuffer) -> (r: Result<u64, Error>)
    requires
        old(de).sig_ix <= old(de).sig@.len(),
        old(buf).data_ix <= old(buf).data@.len(),
        old(buf).data@.len() + 16 <= usize::MAX,
    ensures
        final(de).sig@ == old(de).sig@,
        final(buf).data@ == old(buf).data@,
        old(buf).data_ix <= final(buf).data_ix,
        old(de).sig_ix <= final(de).sig_ix <= final(de).sig@.len(),
        match fixed_outcome(old(buf).data@, old(buf).data_ix as int, old(de).sig@, old(de).sig_ix as int, CODE_F64, 8, 8) {
            Ok(pos_six) => r matches Ok(v) && v == spec_u64_from_le_bytes(
                old(buf).data@.subrange(pos_six.0, pos_six.0 + 8),
            ) && final(buf).data_ix == pos_six.0 + 8 && final(de).sig_ix == pos_six.1,
            Err(e) => r matches Err(e2) && e2 == e,
        },
{
    let b = read_align_signature_value(de, buf, CODE_F64, 8, 8)?;
    Ok(u64_from_le_bytes(b.as_slice()))
}

/// The outcome of reading one string frame from data position `dix`
/// under signature position `six`: the payload bytes, the data position
/// after the NUL, and the signature position after the `s` -- or the
/// error.  The declared length must fit the remaining buffer, and the
/// byte after the payload must be NUL.
pub open spec fn string_frame_outcome(data: Seq<u8>, dix: int, sig: Seq<u8>, six: int) -> Result<
    (Seq<u8>, int, int),
    Error,
> {
    match fixed_outcome(data, dix, sig, six, CODE_STR, 4, 4) {
        Ok(pos_six) => {
            let n = spec_u32_from_le_bytes(data.subrange(pos_six.0, pos_six.0 + 4)) as int;
            let end = pos_six.0 + 4 + n + 1;
            if end > data.len() {
                Err(Error::IndexOutOfBounds(end as usize))
            } else if data[end - 1] != crate::primitives::NUL {
                Err(Error::StringConversion)
            } else {
                Ok((data.subrange(pos_six.0 + 4, pos_six.0 + 4 + n), end, pos_six.1))
            }
        },
        Err(e) => Err(e),
    }
}

/// Decode the frame of an `s` string: u32 length (which must fit the
/// remaining buffer), that many payload bytes, and a NUL.  The payload is
/// returned as raw bytes, not yet checked for UTF-8.
pub fn decode_bytes_basic(de: &mut Deserializer, buf: &mut DataBuffer) -> (r: Result<
    Vec<u8>,
    Error,
>)
    requires
        old(de).sig_ix <= old(de).sig@.len(),
        old(buf).data_ix <= old(buf).data@.len(),
        old(buf).data@.len() + 16 <= usize::MAX,
    ensures
        final(de).sig@ == old(de).sig@,
        final(buf).data@ == old(buf).data@,
        old(buf).data_ix <= final(buf).data_ix,
        old(de).sig_ix <= final(de).sig_ix <= final(de).sig@.len(),
        match string_frame_outcome(
            old(buf).data@,
            old(buf).data_ix as int,
            old(de).sig@,
            old(de).sig_ix as int,
        ) {
            Ok(out) => r matches Ok(b) && {
                &&& b@ == out.0
                &&& final(buf).data_ix == out.1
                &&& final(de).sig_ix == out.2
                &&& final(buf).data_ix <= final(buf).data@.len()
            },
            Err(e) => r matches Err(e2) && e2 == e,
        },
{
    let b = read_align_signature_value(de, buf, CODE_STR, 4, 4)?;
    let n = u32_from_le_bytes(b.as_slice());
    let remaining = buf.data.len() - buf.data_ix;
    if n as u64 + 1 > remaining as u64 {
        let ghost end_int: int = buf.data_ix as int + n as int + 1;
        let overrun = #[verifier::truncate] (((buf.data_ix as u128) + (n as u128) + 1) as usize);
        proof {
            assert(overrun == end_int as usize);
        }
        return Err(Error::IndexOutOfBounds(overrun));
    }
    let with_nul = buf.read(n as usize + 1)?;
    if with_nul[n as usize] != NUL {
        return Err(Error::StringConversion);
    }
    let payload = vstd::slice::slice_subrange(with_nul.as_slice(), 0, n as usize);
    proof {
        assert(payload@ =~= old(buf).data@.subrange(
            final(buf).data_ix - n - 1,
            final(buf).data_ix - 1,
        ));
    }
    Ok(vstd::slice::slice_to_vec(payload))
}

/// Whether a u32 is a valid Unicode scalar value (not a surrogate, not
/// past the last code point).
pub fn check_scalar(v: u32) -> (r: bool)
    ensures
        r == vstd::utf8::is_scalar(v),
{
    v < 0xD800 || (0xE000 <= v && v <= 0x10FFFF)
}

/// Decode a `u` u32 destined for a character: the value must be a valid
/// Unicode scalar, returned as the validated code point.
pub fn decode_char_scalar(de: &mut Deserializer, buf: &mut DataBuffer) -> (r: Result<u32, Error>)
    requires
        old(de).sig_ix <= old(de).sig@.len(),
        old(buf).data_ix <= old(buf).data@.len(),
        old(buf).data@.len() + 16 <= usize::MAX,
    ensures
        final(de).sig@ == old(de).sig@,
        final(buf).data@ == old(buf).data@,
        old(buf).data_ix <= final(buf).data_ix,
        old(de).sig_ix <= final(de).sig_ix <= final(de).sig@.len(),
        match fixed_outcome(old(buf).data@, old(buf).data_ix as int, old(de).sig@, old(de).sig_ix as int, CODE_U32, 4, 4) {
            Ok(pos_six) => {
                let v = spec_u32_from_le_bytes(
                    old(buf).data@.subrange(pos_six.0, pos_six.0 + 4),
                );
                &&& final(buf).data_ix == pos_six.0 + 4
                &&& final(de).sig_ix == pos_six.1
                &&& (vstd::utf8::is_scalar(v) ==> (r matches Ok(u) && u == v))
                &&& (!vstd::utf8::is_scalar(v) ==> (r matches Err(e) && e
                    == Error::CharTryFromError))
            },
            Err(e) => r matches Err(e2) && e2 == e,
        },
{
    let v = decode_u32(de, buf)?;
    if !check_scalar(v) {
        return Err(Error::CharTryFromError);
    }
    Ok(v)
}

/// Decode an `s` string: its frame, with the payload required to be valid
/// UTF-8.
pub fn decode_str_bytes(de: &mut Deserializer, buf: &mut DataBuffer) -> (r: Result<
    Vec<u8>,
    Error,
>)
    requires
        old(de).sig_ix <= old(de).sig@.len(),
        old(buf).data_ix <= old(buf).data@.len(),
        old(buf).data@.len() + 16 <= usize::MAX,
    ensures
        final(de).sig@ == old(de).sig@,
        final(buf).data@ == old(buf).data@,
        old(buf).data_ix <= final(buf).data_ix,
        old(de).sig_ix <= final(de).sig_ix <= final(de).sig@.len(),
        match string_frame_outcome(
            old(buf).data@,
            old(buf).data_ix as int,
            old(de).sig@,
            old(de).sig_ix as int,
        ) {
            Ok(out) => {
                &&& final(buf).data_ix == out.1
                &&& final(de).sig_ix == out.2
                &&& final(buf).data_ix <= final(buf).data@.len()
                &&& (vstd::utf8::valid_utf8(out.0) ==> (r matches Ok(b) && b@ == out.0))
                &&& (!vstd::utf8::valid_utf8(out.0) ==> (r matches Err(e) && e
                    == Error::StringConversion))
            },
            Err(e) => r matches Err(e2) && e2 == e,
        },
{
    let payload = decode_bytes_basic(de, buf)?;
    if !utf8_check(payload.as_slice()) {
        return Err(Error::StringConversion);
    }
    Ok(payload)
}

/// Enter a possible variant: when the signature byte is `v`, the value
/// carries its own signature as a u8 length, that many bytes, and a NUL;
/// decoding continues under that embedded signature.  Otherwise the
/// decoder itself continues unchanged.
pub fn possible_variant(de: &mut Deserializer, buf: &mut DataBuffer) -> (r: Result<
    Deserializer,
    Error,
>)
    requires
        old(de).sig_ix <= old(de).sig@.len(),
        old(de).sig@.len() + 8 <= usize::MAX,
        old(buf).data_ix <= old(buf).data@.len(),
        old(buf).data@.len() + 512 <= usize::MAX,
    ensures
        final(de).sig@ == old(de).sig@,
        final(buf).data@ == old(buf).data@,
        old(buf).data_ix <= final(buf).data_ix,
        old(de).sig_ix <= final(de).sig_ix <= final(de).sig@.len(),
        r matches Err(e) ==> (e is IndexOutOfBounds || e is StringConversion),
        !(old(de).sig_ix < old(de).sig@.len() && old(de).sig@[old(de).sig_ix as int]
            == CODE_VARIANT) ==> (r matches Ok(d) && d.sig@ == old(de).sig@
            && d.sig_ix == old(de).sig_ix && final(de).sig_ix == old(de).sig_ix
            && *final(buf) == *old(buf)),
        (old(de).sig_ix < old(de).sig@.len() && old(de).sig@[old(de).sig_ix as int]
            == CODE_VARIANT) ==> {
            let n = old(buf).data@[old(buf).data_ix as int] as int;
            &&& final(de).sig_ix == old(de).sig_ix + 1
            &&& (old(buf).data_ix + 1 + n + 1 <= old(buf).data@.len()
                && old(buf).data_ix < old(buf).data@.len()
                && old(buf).data@[old(buf).data_ix + 1 + n] == NUL ==> (r matches Ok(d)
                && d.sig@ == old(buf).data@.subrange(
                old(buf).data_ix + 1,
                old(buf).data_ix + 1 + n,
            ) && d.sig_ix == 0 && final(buf).data_ix == old(buf).data_ix + 1 + n + 1
                && final(buf).data_ix <= final(buf).data@.len()))
            &&& (old(buf).data_ix + 1 + n + 1 <= old(buf).data@.len()
                && old(buf).data_ix < old(buf).data@.len()
                && old(buf).data@[old(buf).data_ix + 1 + n] != NUL ==> (r matches Err(e) && e
                == Error::StringConversion))
            &&& (old(buf).data_ix >= old(buf).data@.len() ==> (r matches Err(e) && e
                == Error::IndexOutOfBounds((old(buf).data_ix + 1) as usize)))
            &&& (old(buf).data_ix < old(buf).data@.len() && old(buf).data_ix + 1 + n + 1 > old(
                buf,
            ).data@.len() ==> (r matches Err(e) && e == Error::IndexOutOfBounds(
                (old(buf).data_ix + 1 + n + 1) as usize,
            )))
        },
{
    let mut probe: Vec<u8> = Vec::new();
    probe.push(CODE_VARIANT);
    if de.probe_signature_bytes(probe.as_slice()) {
        proof {
            assert(probe@ =~= seq![CODE_VARIANT]);
            assert(old(de).sig@.subrange(old(de).sig_ix as int, old(de).sig_ix + 1)[0]
                == old(de).sig@[old(de).sig_ix as int]);
        }
        let len_byte = match buf.read(1) {
            Ok(b) => b,
            Err(e) => {
                return Err(e);
            },
        };
        proof {
            assert(len_byte@[0] == old(buf).data@.subrange(
                old(buf).data_ix as int,
                old(buf).data_ix + 1,
            )[0]);
            assert(len_byte@[0] == old(buf).data@[old(buf).data_ix as int]);
        }
        let sig_len = len_byte[0] as usize;
        let with_nul = buf.read(sig_len + 1)?;
        if with_nul[sig_len] != NUL {
            return Err(Error::StringConversion);
        }
        let sig = vstd::slice::slice_subrange(with_nul.as_slice(), 0, sig_len);
        proof {
            assert(sig@ =~= old(buf).data@.subrange(
                old(buf).data_ix + 1,
                old(buf).data_ix + 1 + sig_len,
            ));
        }
        Ok(Deserializer::from_sig(vstd::slice::slice_to_vec(sig)))
    } else {
        proof {
            assert(probe@ =~= seq![CODE_VARIANT]);
            if old(de).sig_ix + 1 <= old(de).sig@.len() && old(de).sig@[old(de).sig_ix as int]
                == CODE_VARIANT {
                assert(old(de).sig@.subrange(old(de).sig_ix as int, old(de).sig_ix as int + 1)
                    =~= probe@);
            }
        }
        Ok(Deserializer { sig: vstd::slice::slice_to_vec(de.sig.as_slice()), sig_ix: de.sig_ix })
    }
}

/// The fixed-size scalar codes.
pub open spec fn is_fixed_scalar(c: u8) -> bool {
    ||| c == CODE_U8
    ||| c == CODE_BOOL
    ||| c == CODE_I16
    ||| c == CODE_U16
    ||| c == CODE_I32
    ||| c == CODE_U32
    ||| c == CODE_I64
    ||| c == CODE_U64
    ||| c == CODE_F64
}

/// Encoded size of a fixed-size scalar.
pub open spec fn fixed_scalar_size(c: u8) -> int {
    if c == CODE_U8 {
        1
    } else if c == CODE_I16 || c == CODE_U16 {
        2
    } else if c == CODE_BOOL || c == CODE_I32 || c == CODE_U32 {
        4
    } else {
        8
    }
}

/// Natural alignment of a fixed-size scalar.
pub open spec fn fixed_scalar_align(c: u8) -> int {
    if c == CODE_U8 {
        1
    } else if c == CODE_I16 || c == CODE_U16 {
        2
    } else if c == CODE_BOOL || c == CODE_I32 || c == CODE_U32 {
        4
    } else {
        8
    }
}

/// The scalar a fixed-size code decodes to from its little-endian bytes
/// (booleans are screened separately).
pub open spec fn fixed_scalar_value(c: u8, bytes: Seq<u8>) -> Primitive {
    if c == CODE_U8 {
        Primitive::U8(bytes[0])
    } else if c == CODE_I16 {
        Primitive::I16(spec_u16_from_le_bytes(bytes) as i16)
    } else if c == CODE_U16 {
        Primitive::U16(spec_u16_from_le_bytes(bytes))
    } else if c == CODE_BOOL {
        Primitive::Bool(spec_u32_from_le_bytes(bytes) == 1)
    } else if c == CODE_I32 {
        Primitive::I32(spec_u32_from_le_bytes(bytes) as i32)
    } else if c == CODE_U32 {
        Primitive::U32(spec_u32_from_le_bytes(bytes))
    } else if c == CODE_I64 {
        Primitive::I64(spec_u64_from_le_bytes(bytes) as i64)
    } else if c == CODE_U64 {
        Primitive::U64(spec_u64_from_le_bytes(bytes))
    } else {
        Primitive::F64Bits(spec_u64_from_le_bytes(bytes))
    }
}




/// Spec-level image of a decoded value.  `Vec` and `String` cannot be
/// built in specifications, so decoded results are stated against this
/// `Seq`-based model; `value_models` relates the two.  A variant's
/// payload is a one-element sequence (a recursive enum field must sit
/// behind an indirection).
pub enum ValueModel {
    U8(u8),
    Bool(bool),
    I16(i16),
    U16(u16),
    I32(i32),
    U32(u32),
    I64(i64),
    U64(u64),
    F64Bits(u64),
    Str(Seq<u8>),
    Tuple(Seq<ValueModel>),
    Sequence(Seq<ValueModel>),
    MapEntries(Seq<(ValueModel, ValueModel)>),
    Variant(Seq<ValueModel>),
}

/// The decoded value `v` is exactly what the model `m` describes.
pub open spec fn value_models(v: Value, m: ValueModel) -> bool
    decreases v,
{
    match v {
        Value::Prim(p) => match p {
            Primitive::U8(x) => m == ValueModel::U8(x),
            Primitive::Bool(x) => m == ValueModel::Bool(x),
            Primitive::I16(x) => m == ValueModel::I16(x),
            Primitive::U16(x) => m == ValueModel::U16(x),
            Primitive::I32(x) => m == ValueModel::I32(x),
            Primitive::U32(x) => m == ValueModel::U32(x),
            Primitive::I64(x) => m == ValueModel::I64(x),
            Primitive::U64(x) => m == ValueModel::U64(x),
            Primitive::F64Bits(x) => m == ValueModel::F64Bits(x),
            Primitive::Str(b) => m matches ValueModel::Str(sb) && sb == b@,
            _ => false,
        },
        Value::Tuple(vs) => m matches ValueModel::Tuple(ms) && vs@.len() == ms.len() && (forall|
            i: int,
        |
            0 <= i < vs@.len() ==> value_models(vs@[i], #[trigger] ms[i])),
        Value::Sequence(vs) => m matches ValueModel::Sequence(ms) && vs@.len() == ms.len() && (
        forall|i: int| 0 <= i < vs@.len() ==> value_models(vs@[i], #[trigger] ms[i])),
        Value::MapEntries(es) => m matches ValueModel::MapEntries(ms) && es@.len() == ms.len()
            && (forall|i: int|
            0 <= i < es@.len() ==> value_models(es@[i].key, (#[trigger] ms[i]).0) && value_models(
                es@[i].value,
                ms[i].1,
            )),
        Value::Variant(b) => m matches ValueModel::Variant(ms) && ms.len() == 1 && value_models(
            *b,
            ms[0],
        ),
        _ => false,
    }
}

/// Outcome of decoding one complete value: the model with the cursor
/// positions after it, an error, or a stuck marker for an array element
/// that consumed no data (reported as a deserialization error).
pub enum DecOutcome {
    Good { m: ValueModel, dix: int, six: int },
    Bad { e: Error },
    Stuck,
}

/// Outcome of an array-element or struct-member run.
pub enum RunOutcome {
    Good { ms: Seq<ValueModel>, dix: int, six: int },
    Bad { e: Error },
    Stuck,
}

/// Outcome of a dict-entry run.
pub enum EntriesOutcome {
    Good { ms: Seq<(ValueModel, ValueModel)>, dix: int },
    Bad { e: Error },
    Stuck,
}

/// Prefix already-decoded models onto a run outcome.
pub open spec fn prepend_run(pre: Seq<ValueModel>, o: RunOutcome) -> RunOutcome {
    match o {
        RunOutcome::Good { ms, dix, six } => RunOutcome::Good { ms: pre + ms, dix, six },
        other => other,
    }
}

/// Prefix already-decoded entries onto an entry-run outcome.
pub open spec fn prepend_entries(
    pre: Seq<(ValueModel, ValueModel)>,
    o: EntriesOutcome,
) -> EntriesOutcome {
    match o {
        EntriesOutcome::Good { ms, dix } => EntriesOutcome::Good { ms: pre + ms, dix },
        other => other,
    }
}

/// An element run's outcome lifted to a sequence value at signature
/// position `six`.
pub open spec fn wrap_seq_outcome(o: RunOutcome, six: int) -> DecOutcome {
    match o {
        RunOutcome::Good { ms, dix, six: _ } => DecOutcome::Good {
            m: ValueModel::Sequence(ms),
            dix,
            six,
        },
        RunOutcome::Bad { e } => DecOutcome::Bad { e },
        RunOutcome::Stuck => DecOutcome::Stuck,
    }
}

/// An entry run's outcome lifted to a map value at signature position
/// `six`.
pub open spec fn wrap_entries_outcome(o: EntriesOutcome, six: int) -> DecOutcome {
    match o {
        EntriesOutcome::Good { ms, dix } => DecOutcome::Good {
            m: ValueModel::MapEntries(ms),
            dix,
            six,
        },
        EntriesOutcome::Bad { e } => DecOutcome::Bad { e },
        EntriesOutcome::Stuck => DecOutcome::Stuck,
    }
}

/// A member run's outcome lifted to a tuple value.
pub open spec fn wrap_members_outcome(o: RunOutcome) -> DecOutcome {
    match o {
        RunOutcome::Good { ms, dix, six } => DecOutcome::Good {
            m: ValueModel::Tuple(ms),
            dix,
            six,
        },
        RunOutcome::Bad { e } => DecOutcome::Bad { e },
        RunOutcome::Stuck => DecOutcome::Stuck,
    }
}

/// What decoding one complete value from data position `dix` under
/// signature position `six` yields: the dual of `enc_value`, mirroring
/// the cursor operations exactly (including every error and its value).
pub open spec fn dec_value(data: Seq<u8>, dix: int, sig: Seq<u8>, six: int) -> DecOutcome
    decreases data.len() - dix, sig.len() - six + 2, 0int,
{
    if six >= sig.len() || six < 0 || dix < 0 {
        DecOutcome::Bad { e: Error::SignatureExhausted }
    } else {
        let c = sig[six];
        if is_fixed_scalar(c) {
            match fixed_outcome(data, dix, sig, six, c, fixed_scalar_align(c),
                fixed_scalar_size(c)) {
                Ok(pos_six) => {
                    let bytes = data.subrange(pos_six.0, pos_six.0 + fixed_scalar_size(c));
                    if c == CODE_BOOL && spec_u32_from_le_bytes(bytes) > 1 {
                        DecOutcome::Bad {
                            e: Error::InvalidBoolValue(spec_u32_from_le_bytes(bytes)),
                        }
                    } else {
                        DecOutcome::Good {
                            m: fixed_scalar_model(c, bytes),
                            dix: pos_six.0 + fixed_scalar_size(c),
                            six: pos_six.1,
                        }
                    }
                },
                Err(e) => DecOutcome::Bad { e },
            }
        } else if c == CODE_STR {
            match string_frame_outcome(data, dix, sig, six) {
                Ok(out) => if vstd::utf8::valid_utf8(out.0) {
                    DecOutcome::Good { m: ValueModel::Str(out.0), dix: out.1, six: out.2 }
                } else {
                    DecOutcome::Bad { e: Error::StringConversion }
                },
                Err(e) => DecOutcome::Bad { e },
            }
        } else if c == CODE_PATH || c == CODE_SIG || c == CODE_FD {
            DecOutcome::Bad { e: Error::UnsupportedSignatureCharacter(c) }
        } else if c == CODE_VARIANT {
            if dix + 1 > data.len() {
                DecOutcome::Bad { e: Error::IndexOutOfBounds((dix + 1) as usize) }
            } else {
                let n = data[dix] as int;
                if dix + 1 + n + 1 > data.len() {
                    DecOutcome::Bad { e: Error::IndexOutOfBounds((dix + 1 + n + 1) as usize) }
                } else if data[dix + 1 + n] != NUL {
                    DecOutcome::Bad { e: Error::StringConversion }
                } else {
                    let esig = data.subrange(dix + 1, dix + 1 + n);
                    match dec_value(data, dix + 1 + n + 1, esig, 0) {
                        DecOutcome::Good { m, dix: d2, six: _ } => DecOutcome::Good {
                            m: ValueModel::Variant(seq![m]),
                            dix: d2,
                            six: six + 1,
                        },
                        other => other,
                    }
                }
            }
        } else if c == CODE_ARRAY {
            let pos = align_up(dix, 4);
            if pos > data.len() {
                DecOutcome::Bad { e: Error::IndexOutOfBounds(pos as usize) }
            } else if pos + 4 > data.len() {
                DecOutcome::Bad { e: Error::IndexOutOfBounds((pos + 4) as usize) }
            } else {
                let array_len = spec_u32_from_le_bytes(data.subrange(pos, pos + 4)) as int;
                match sig_scan(sig, six + 1, 0) {
                    None => DecOutcome::Bad {
                        e: Error::MismatchedSignatureBracketing((six + 1) as usize),
                    },
                    Some(e_end) => if !(six + 1 < e_end <= sig.len()) {
                        DecOutcome::Bad {
                            e: Error::MismatchedSignatureBracketing((six + 1) as usize),
                        }
                    } else {
                        let item_sig = sig.subrange(six + 1, e_end);
                        match crate::primitives::spec_sig_alignment(item_sig[0]) {
                            Err(e) => DecOutcome::Bad { e },
                            Ok(ea) => {
                                let pos2 = align_up(pos + 4, ea as int);
                                if pos2 > data.len() {
                                    DecOutcome::Bad {
                                        e: Error::IndexOutOfBounds(pos2 as usize),
                                    }
                                } else {
                                    let end = pos2 + array_len;
                                    if item_sig[0] == CODE_DICT_OPEN {
                                        wrap_entries_outcome(
                                            dec_dict_entries(data, pos2, item_sig, end),
                                            e_end,
                                        )
                                    } else {
                                        wrap_seq_outcome(
                                            dec_seq_elems(data, pos2, item_sig, end),
                                            e_end,
                                        )
                                    }
                                }
                            },
                        }
                    },
                }
            }
        } else if c == CODE_STRUCT_OPEN {
            let pos = align_up(dix, 8);
            if pos > data.len() {
                DecOutcome::Bad { e: Error::IndexOutOfBounds(pos as usize) }
            } else {
                wrap_members_outcome(dec_members(data, pos, sig, six + 1))
            }
        } else if c == CODE_DICT_OPEN {
            DecOutcome::Bad { e: Error::SignatureError(CODE_ARRAY, c) }
        } else {
            DecOutcome::Bad { e: Error::UnrecognizedSignatureCharacter(c) }
        }
    }
}

/// The scalar model a fixed-size code yields from its bytes.
pub open spec fn fixed_scalar_model(c: u8, bytes: Seq<u8>) -> ValueModel {
    if c == CODE_U8 {
        ValueModel::U8(bytes[0])
    } else if c == CODE_I16 {
        ValueModel::I16(spec_u16_from_le_bytes(bytes) as i16)
    } else if c == CODE_U16 {
        ValueModel::U16(spec_u16_from_le_bytes(bytes))
    } else if c == CODE_BOOL {
        ValueModel::Bool(spec_u32_from_le_bytes(bytes) == 1)
    } else if c == CODE_I32 {
        ValueModel::I32(spec_u32_from_le_bytes(bytes) as i32)
    } else if c == CODE_U32 {
        ValueModel::U32(spec_u32_from_le_bytes(bytes))
    } else if c == CODE_I64 {
        ValueModel::I64(spec_u64_from_le_bytes(bytes) as i64)
    } else if c == CODE_U64 {
        ValueModel::U64(spec_u64_from_le_bytes(bytes))
    } else {
        ValueModel::F64Bits(spec_u64_from_le_bytes(bytes))
    }
}

/// Array elements decoded one after another under the element signature
/// until the cursor reaches `end` exactly; an element ending past `end`
/// is an overrun, one that consumes nothing is stuck.
pub open spec fn dec_seq_elems(data: Seq<u8>, dix: int, item_sig: Seq<u8>, end: int) -> RunOutcome
    decreases data.len() - dix, item_sig.len() + 3, 1int,
{
    if dix < 0 || !(dix < end) {
        RunOutcome::Good { ms: Seq::empty(), dix, six: 0 }
    } else {
        match dec_value(data, dix, item_sig, 0) {
            DecOutcome::Good { m, dix: d2, six: _ } => {
                if d2 > end {
                    RunOutcome::Bad { e: Error::ArrayElementOverrun(d2 as usize, end as usize) }
                } else if d2 <= dix || d2 > data.len() {
                    RunOutcome::Stuck
                } else {
                    prepend_run(seq![m], dec_seq_elems(data, d2, item_sig, end))
                }
            },
            DecOutcome::Bad { e } => RunOutcome::Bad { e },
            DecOutcome::Stuck => RunOutcome::Stuck,
        }
    }
}

/// Dict entries decoded one after another: 8-align, `{`, one key under
/// the key sub-signature, one value under the value sub-signature, `}`.
pub open spec fn dec_dict_entries(
    data: Seq<u8>,
    dix: int,
    item_sig: Seq<u8>,
    end: int,
) -> EntriesOutcome
    decreases data.len() - dix, item_sig.len() + 3, 1int,
{
    if dix < 0 || !(dix < end) {
        EntriesOutcome::Good { ms: Seq::empty(), dix }
    } else {
        let pos = align_up(dix, 8);
        if pos > data.len() {
            EntriesOutcome::Bad { e: Error::IndexOutOfBounds(pos as usize) }
        } else if !(item_sig.len() >= 1 && item_sig[0] == CODE_DICT_OPEN) {
            EntriesOutcome::Bad { e: Error::SignatureExhausted }
        } else {
            match sig_scan(item_sig, 1, 0) {
                None => EntriesOutcome::Bad {
                    e: Error::MismatchedSignatureBracketing(1usize),
                },
                Some(ke) => if !(1 < ke <= item_sig.len()) {
                    EntriesOutcome::Bad { e: Error::MismatchedSignatureBracketing(1usize) }
                } else {
                    let key_sig = item_sig.subrange(1, ke);
                    match dec_value(data, pos, key_sig, 0) {
                        DecOutcome::Good { m: km, dix: d2, six: _ } => if !(dix <= d2
                            <= data.len()) {
                            EntriesOutcome::Stuck
                        } else {
                            match sig_scan(item_sig, ke, 0) {
                                None => EntriesOutcome::Bad {
                                    e: Error::MismatchedSignatureBracketing(ke as usize),
                                },
                                Some(ve) => if !(ke < ve <= item_sig.len()) {
                                    EntriesOutcome::Bad {
                                        e: Error::MismatchedSignatureBracketing(ke as usize),
                                    }
                                } else {
                                    let val_sig = item_sig.subrange(ke, ve);
                                    match dec_value(data, d2, val_sig, 0) {
                                        DecOutcome::Good { m: vm, dix: d3, six: _ } => {
                                            if ve >= item_sig.len() {
                                                EntriesOutcome::Bad {
                                                    e: Error::SignatureExhausted,
                                                }
                                            } else if item_sig[ve] != CODE_DICT_CLOSE {
                                                EntriesOutcome::Bad {
                                                    e: Error::SignatureError(
                                                        CODE_DICT_CLOSE,
                                                        item_sig[ve],
                                                    ),
                                                }
                                            } else if d3 > end {
                                                EntriesOutcome::Bad {
                                                    e: Error::ArrayElementOverrun(
                                                        d3 as usize,
                                                        end as usize,
                                                    ),
                                                }
                                            } else if d3 <= dix || d3 > data.len() {
                                                EntriesOutcome::Stuck
                                            } else {
                                                prepend_entries(
                                                    seq![(km, vm)],
                                                    dec_dict_entries(data, d3, item_sig, end),
                                                )
                                            }
                                        },
                                        DecOutcome::Bad { e } => EntriesOutcome::Bad { e },
                                        DecOutcome::Stuck => EntriesOutcome::Stuck,
                                    }
                                },
                            }
                        },
                        DecOutcome::Bad { e } => EntriesOutcome::Bad { e },
                        DecOutcome::Stuck => EntriesOutcome::Stuck,
                    }
                },
            }
        }
    }
}

/// Struct members decoded one after another until `)` closes the struct.
pub open spec fn dec_members(data: Seq<u8>, dix: int, sig: Seq<u8>, six: int) -> RunOutcome
    decreases data.len() - dix, sig.len() - six + 2, 1int,
{
    if dix < 0 || six < 0 {
        RunOutcome::Bad { e: Error::SignatureExhausted }
    } else if six < sig.len() && sig[six] == CODE_STRUCT_CLOSE {
        RunOutcome::Good { ms: Seq::empty(), dix, six: six + 1 }
    } else {
        match sig_scan(sig, six, 0) {
            None => RunOutcome::Bad {
                e: Error::MismatchedSignatureBracketing(six as usize),
            },
            Some(e_end) => if !(six < e_end <= sig.len()) {
                RunOutcome::Bad { e: Error::MismatchedSignatureBracketing(six as usize) }
            } else {
                let child_sig = sig.subrange(six, e_end);
                match dec_value(data, dix, child_sig, 0) {
                    DecOutcome::Good { m, dix: d2, six: _ } => if d2 < dix || d2 > data.len() {
                        RunOutcome::Stuck
                    } else {
                        prepend_run(seq![m], dec_members(data, d2, sig, e_end))
                    },
                    DecOutcome::Bad { e } => RunOutcome::Bad { e },
                    DecOutcome::Stuck => RunOutcome::Stuck,
                }
            },
        }
    }
}

/// The bytes the decoder dispatches on: every code it either decodes or
/// explicitly refuses.  Anything else is unrecognized.
pub open spec fn is_signature_code(c: u8) -> bool {
    ||| is_fixed_scalar(c)
    ||| c == CODE_STR
    ||| c == CODE_PATH
    ||| c == CODE_SIG
    ||| c == CODE_FD
    ||| c == CODE_VARIANT
    ||| c == CODE_ARRAY
    ||| c == CODE_STRUCT_OPEN
    ||| c == CODE_DICT_OPEN
}



/// Decode one complete value as directed by the signature.
///
/// Scalars are read at their natural alignment; `(`..`)` decodes as a
/// tuple; `a` as a sequence, or as map entries when the element is a dict
/// entry `{KV}`; `v` under its embedded signature, wrapped explicitly.
/// The codes `o`, `g` and `h` are parsed but refused.  The data cursor
/// only moves forward, and on success it never passes the end of the
/// buffer and at least one signature byte has been consumed.
#[verifier::loop_isolation(false)]
#[verifier::rlimit(100)]
#[verifier::spinoff_prover]
pub fn decode_value(de: &mut Deserializer, buf: &mut DataBuffer) -> (r: Result<Value, Error>)
    requires
        old(de).sig_ix <= old(de).sig@.len(),
        old(de).sig@.len() + 8 <= usize::MAX,
        old(buf).data_ix <= old(buf).data@.len(),
        old(buf).data@.len() + 512 <= usize::MAX,
    ensures
        final(buf).data@ == old(buf).data@,
        final(de).sig@ == old(de).sig@,
        old(buf).data_ix <= final(buf).data_ix,
        old(de).sig_ix <= final(de).sig_ix <= final(de).sig@.len(),
        r is Ok ==> final(buf).data_ix <= final(buf).data@.len(),
        r is Ok ==> old(de).sig_ix < final(de).sig_ix,
        r matches Err(e) ==> !(e is LeftoverData),
        match dec_value(
            old(buf).data@,
            old(buf).data_ix as int,
            old(de).sig@,
            old(de).sig_ix as int,
        ) {
            DecOutcome::Good { m, dix: gd, six: gs } => r matches Ok(v) && value_models(v, m)
                && final(buf).data_ix == gd && final(de).sig_ix == gs,
            DecOutcome::Bad { e } => r matches Err(e2) && e2 == e,
            DecOutcome::Stuck => r matches Err(e2) && e2 is Deserializing,
        },
    decreases buf.data@.len() - buf.data_ix, de.sig@.len() - de.sig_ix + 1, 1int,
{
    if de.sig_ix >= de.sig.len() {
        return Err(Error::SignatureExhausted);
    }
    let c = de.sig[de.sig_ix];
    if c == CODE_U8 {
        match decode_u8(de, buf) {
            Ok(v) => Ok(Value::Prim(Primitive::U8(v))),
            Err(e) => Err(e),
        }
    } else if c == CODE_BOOL {
        match decode_bool(de, buf) {
            Ok(v) => Ok(Value::Prim(Primitive::Bool(v))),
            Err(e) => Err(e),
        }
    } else if c == CODE_I16 {
        match decode_i16(de, buf) {
            Ok(v) => Ok(Value::Prim(Primitive::I16(v))),
            Err(e) => Err(e),
        }
    } else if c == CODE_U16 {
        match decode_u16(de, buf) {
            Ok(v) => Ok(Value::Prim(Primitive::U16(v))),
            Err(e) => Err(e),
        }
    } else if c == CODE_I32 {
        match decode_i32(de, buf) {
            Ok(v) => Ok(Value::Prim(Primitive::I32(v))),
            Err(e) => Err(e),
        }
    } else if c == CODE_U32 {
        match decode_u32(de, buf) {
            Ok(v) => Ok(Value::Prim(Primitive::U32(v))),
            Err(e) => Err(e),
        }
    } else if c == CODE_I64 {
        match decode_i64(de, buf) {
            Ok(v) => Ok(Value::Prim(Primitive::I64(v))),
            Err(e) => Err(e),
        }
    } else if c == CODE_U64 {
        match decode_u64(de, buf) {
            Ok(v) => Ok(Value::Prim(Primitive::U64(v))),
            Err(e) => Err(e),
        }
    } else if c == CODE_F64 {
        match decode_f64_bits(de, buf) {
            Ok(v) => Ok(Value::Prim(Primitive::F64Bits(v))),
            Err(e) => Err(e),
        }
    } else if c == CODE_STR {
        match decode_str_bytes(de, buf) {
            Ok(b) => Ok(Value::Prim(Primitive::Str(b))),
            Err(e) => Err(e),
        }
    } else if c == CODE_PATH || c == CODE_SIG || c == CODE_FD {
        Err(Error::UnsupportedSignatureCharacter(c))
    } else if c == CODE_VARIANT {
        let mut inner = match possible_variant(de, buf) {
            Ok(d) => d,
            Err(e) => {
                return Err(e);
            },
        };
        proof {
            assert(inner.sig@.len() <= 255);
        }
        match decode_value(&mut inner, buf) {
            Ok(v) => Ok(Value::Variant(Box::new(v))),
            Err(e) => Err(e),
        }
    } else if c == CODE_ARRAY {
        decode_array(de, buf)
    } else if c == CODE_STRUCT_OPEN {
        decode_struct(de, buf)
    } else if c == CODE_DICT_OPEN {
        Err(Error::SignatureError(CODE_ARRAY, c))
    } else {
        Err(Error::UnrecognizedSignatureCharacter(c))
    }
}

/// What `from_message` must return for a message whose signature starts
/// with a fixed-size scalar: the scalar's decode outcome, except that a
/// successful decode with bytes left over is a leftover-data error.
pub open spec fn scalar_message_ensures(data: Seq<u8>, sig: Seq<u8>, r: Result<
    Value,
    Error,
>) -> bool {
    let c = sig[0];
    match fixed_outcome(data, 0, sig, 0, c, fixed_scalar_align(c), fixed_scalar_size(c)) {
        Ok(pos_six) => {
            let end = pos_six.0 + fixed_scalar_size(c);
            let bytes = data.subrange(pos_six.0, end);
            if c == CODE_BOOL && spec_u32_from_le_bytes(bytes) > 1 {
                r matches Err(e) && e == Error::InvalidBoolValue(spec_u32_from_le_bytes(bytes))
            } else if end < data.len() {
                r matches Err(e) && e == Error::LeftoverData((data.len() - end) as usize)
            } else {
                r matches Ok(v) && v == Value::Prim(fixed_scalar_value(c, bytes))
            }
        },
        Err(e) => r matches Err(e2) && e2 == e,
    }
}

/// What `from_message` must return for a message whose signature starts
/// with `s`: the string's decode outcome, except that a successful
/// decode with bytes left over is a leftover-data error.
pub open spec fn string_message_ensures(data: Seq<u8>, sig: Seq<u8>, r: Result<
    Value,
    Error,
>) -> bool {
    match string_frame_outcome(data, 0, sig, 0) {
        Ok(out) => {
            if !vstd::utf8::valid_utf8(out.0) {
                r matches Err(e) && e == Error::StringConversion
            } else if out.1 < data.len() {
                r matches Err(e) && e == Error::LeftoverData((data.len() - out.1) as usize)
            } else {
                r matches Ok(v) && (v matches Value::Prim(p) && (p matches Primitive::Str(b)
                    && b@ == out.0))
            }
        },
        Err(e) => r matches Err(e2) && e2 == e,
    }
}

/// What `from_message` must return for a message whose signature is the
/// empty struct `()`: an empty tuple when the body is empty, and a
/// leftover-data error otherwise.
pub open spec fn unit_message_ensures(data: Seq<u8>, r: Result<Value, Error>) -> bool {
    if data.len() > 0 {
        r matches Err(e) && e == Error::LeftoverData(data.len() as usize)
    } else {
        r matches Ok(v) && (v matches Value::Tuple(items) && items@.len() == 0)
    }
}

/// What `from_message` must return for a message whose signature is `v`
/// and whose variant header carries a single fixed-size scalar signature:
/// the variant-wrapped scalar, except that a successful decode with bytes
/// left over is a leftover-data error.
pub open spec fn variant_scalar_message_ensures(data: Seq<u8>, r: Result<Value, Error>) -> bool {
    let m = data[0] as int;
    let esig = data.subrange(1, 1 + m);
    let vdix = 1 + m + 1;
    let c = esig[0];
    match fixed_outcome(data, vdix, esig, 0, c, fixed_scalar_align(c), fixed_scalar_size(c)) {
        Ok(pos_six) => {
            let end = pos_six.0 + fixed_scalar_size(c);
            let bytes = data.subrange(pos_six.0, end);
            if c == CODE_BOOL && spec_u32_from_le_bytes(bytes) > 1 {
                r matches Err(e) && e == Error::InvalidBoolValue(spec_u32_from_le_bytes(bytes))
            } else if end < data.len() {
                r matches Err(e) && e == Error::LeftoverData((data.len() - end) as usize)
            } else {
                r matches Ok(v) && (v matches Value::Variant(b) && *b == Value::Prim(
                    fixed_scalar_value(c, bytes),
                ))
            }
        },
        Err(e) => r matches Err(e2) && e2 == e,
    }
}


/// Decode an array as directed by the signature: length, element
/// alignment, then elements under the element sub-signature until the
/// cursor stands exactly at the array end.
#[verifier::loop_isolation(false)]
#[verifier::rlimit(100)]
#[verifier::spinoff_prover]
fn decode_array(de: &mut Deserializer, buf: &mut DataBuffer) -> (r: Result<Value, Error>)
    requires
        old(de).sig_ix < old(de).sig@.len(),
        old(de).sig@[old(de).sig_ix as int] == CODE_ARRAY,
        old(de).sig@.len() + 8 <= usize::MAX,
        old(buf).data_ix <= old(buf).data@.len(),
        old(buf).data@.len() + 512 <= usize::MAX,
    ensures
        final(buf).data@ == old(buf).data@,
        final(de).sig@ == old(de).sig@,
        old(buf).data_ix <= final(buf).data_ix,
        old(de).sig_ix <= final(de).sig_ix <= final(de).sig@.len(),
        r is Ok ==> final(buf).data_ix <= final(buf).data@.len(),
        r is Ok ==> old(de).sig_ix < final(de).sig_ix,
        r matches Err(e) ==> !(e is LeftoverData),
        match dec_value(
            old(buf).data@,
            old(buf).data_ix as int,
            old(de).sig@,
            old(de).sig_ix as int,
        ) {
            DecOutcome::Good { m, dix: gd, six: gs } => r matches Ok(v) && value_models(v, m)
                && final(buf).data_ix == gd && final(de).sig_ix == gs,
            DecOutcome::Bad { e } => r matches Err(e2) && e2 == e,
            DecOutcome::Stuck => r matches Err(e2) && e2 is Deserializing,
        },
    decreases buf.data@.len() - buf.data_ix, de.sig@.len() - de.sig_ix + 1, 0int,
{
    let ghost c = old(de).sig@[old(de).sig_ix as int];
    {
        let ghost gdata = old(buf).data@;
        let ghost gsig = old(de).sig@;
        let ghost gdix0 = old(buf).data_ix as int;
        let ghost gsix0 = old(de).sig_ix as int;
        match de.expect_signature_byte(CODE_ARRAY) {
            Ok(_) => {
            },
            Err(e) => {
                return Err(e);
            },
        }
        match buf.align_reader(4) {
            Ok(_) => {
            },
            Err(e) => {
                return Err(e);
            },
        }
        let ghost gpos = buf.data_ix as int;
        let len_bytes = match buf.read(4) {
            Ok(b) => b,
            Err(e) => {
                return Err(e);
            },
        };
        let array_len = u32_from_le_bytes(len_bytes.as_slice());
        let item_sig = match de.grab_single_sig() {
            Ok(s) => s,
            Err(e) => {
                return Err(e);
            },
        };
        let elem_align = match sig_alignment(item_sig[0]) {
            Ok(a) => a,
            Err(e) => {
                return Err(e);
            },
        };
        match buf.align_reader(elem_align) {
            Ok(_) => {
            },
            Err(e) => {
                return Err(e);
            },
        }
        let end64: u128 = buf.data_ix as u128 + array_len as u128;
        let ghost gitem = item_sig@;
        let ghost geend = de.sig_ix as int;
        let ghost gd0 = buf.data_ix as int;
        let ghost gend: int = gd0 + array_len as int;
        proof {
            assert(gend == end64 as int);
            assert(gpos == align_up(gdix0, 4));
            assert(array_len == spec_u32_from_le_bytes(gdata.subrange(gpos, gpos + 4)));
            assert(sig_scan(gsig, gsix0 + 1, 0) == Some(geend));
            assert(gitem == gsig.subrange(gsix0 + 1, geend));
            assert(gd0 == align_up(gpos + 4, elem_align as int));
        }
        if item_sig[0] == CODE_DICT_OPEN {
            proof {
                assert(dec_value(gdata, gdix0, gsig, gsix0) == wrap_entries_outcome(
                    dec_dict_entries(gdata, gd0, gitem, gend),
                    geend,
                ));
            }
            let mut entries: Vec<MapEntry> = Vec::new();
            let ghost mut gms: Seq<(ValueModel, ValueModel)> = Seq::empty();
            proof {
                match dec_dict_entries(gdata, gd0, gitem, gend) {
                    EntriesOutcome::Good { ms, dix } => {
                        assert(Seq::<(ValueModel, ValueModel)>::empty() + ms =~= ms);
                    },
                    _ => {
                    },
                }
            }
            while (buf.data_ix as u128) < end64
                invariant
                    old(buf).data_ix + 4 <= buf.data_ix,
                    buf.data@ == old(buf).data@,
                    buf.data_ix <= buf.data@.len(),
                    de.sig@ == old(de).sig@,
                    old(de).sig_ix < de.sig_ix <= de.sig@.len(),
                    de.sig_ix as int == geend,
                    item_sig@.len() + 8 <= usize::MAX,
                    gms.len() == entries@.len(),
                    forall|k: int|
                        0 <= k < entries@.len() ==> value_models(
                            entries@[k].key,
                            (#[trigger] gms[k]).0,
                        ) && value_models(entries@[k].value, gms[k].1),
                    dec_dict_entries(gdata, gd0, gitem, gend) == prepend_entries(
                        gms,
                        dec_dict_entries(gdata, buf.data_ix as int, gitem, gend),
                    ),
                decreases end64 - buf.data_ix,
            {
                let ghost gcur = buf.data_ix as int;
                let ghost gstep = dec_dict_entries(gdata, gcur, gitem, gend);
                let before_ix = buf.data_ix;
                match buf.align_reader(8) {
                    Ok(_) => {
                    },
                    Err(e) => {
                        return Err(e);
                    },
                }
                let ghost gp8 = buf.data_ix as int;
                let mut kv = Deserializer::from_sig(
                    vstd::slice::slice_to_vec(item_sig.as_slice()),
                );
                match kv.expect_signature_byte(CODE_DICT_OPEN) {
                    Ok(_) => {
                    },
                    Err(e) => {
                        return Err(e);
                    },
                }
                let mut key_de = match subsidiary(&mut kv) {
                    Ok(d) => d,
                    Err(e) => {
                        return Err(e);
                    },
                };
                let ghost gke = kv.sig_ix as int;
                let key = match decode_value(&mut key_de, buf) {
                    Ok(v) => v,
                    Err(e) => {
                        return Err(e);
                    },
                };
                let ghost gkey_end = buf.data_ix as int;
                let mut val_de = match subsidiary(&mut kv) {
                    Ok(d) => d,
                    Err(e) => {
                        return Err(e);
                    },
                };
                let ghost gve = kv.sig_ix as int;
                let value = match decode_value(&mut val_de, buf) {
                    Ok(v) => v,
                    Err(e) => {
                        return Err(e);
                    },
                };
                match kv.expect_signature_byte(CODE_DICT_CLOSE) {
                    Ok(_) => {
                    },
                    Err(e) => {
                        return Err(e);
                    },
                }
                entries.push(MapEntry { key, value });
                if buf.data_ix as u128 > end64 {
                    let end_ix = #[verifier::truncate] (end64 as usize);
                    return Err(Error::ArrayElementOverrun(buf.data_ix, end_ix));
                }
                if buf.data_ix <= before_ix {
                    return Err(
                        Error::Deserializing("array element consumed no data".to_owned()),
                    );
                }
                proof {
                    let km = dec_value(gdata, gp8, gitem.subrange(1, gke), 0)->Good_m;
                    let vm = dec_value(gdata, gkey_end, gitem.subrange(gke, gve), 0)->Good_m;
                    let rest = dec_dict_entries(gdata, buf.data_ix as int, gitem, gend);
                    assert(gstep == prepend_entries(seq![(km, vm)], rest));
                    match rest {
                        EntriesOutcome::Good { ms, dix } => {
                            assert((gms + (seq![(km, vm)] + ms)) =~= (gms.push((km, vm))
                                + ms));
                        },
                        _ => {
                        },
                    }
                    gms = gms.push((km, vm));
                }
            }
            proof {
                assert(dec_dict_entries(gdata, buf.data_ix as int, gitem, gend)
                    == (EntriesOutcome::Good { ms: Seq::empty(), dix: buf.data_ix as int }));
                assert(gms + Seq::<(ValueModel, ValueModel)>::empty() =~= gms);
            }
            Ok(Value::MapEntries(entries))
        } else {
            proof {
                assert(dec_value(gdata, gdix0, gsig, gsix0) == wrap_seq_outcome(
                    dec_seq_elems(gdata, gd0, gitem, gend),
                    geend,
                ));
            }
            let mut items: Vec<Value> = Vec::new();
            let ghost mut gms: Seq<ValueModel> = Seq::empty();
            proof {
                match dec_seq_elems(gdata, gd0, gitem, gend) {
                    RunOutcome::Good { ms, dix, six } => {
                        assert(Seq::<ValueModel>::empty() + ms =~= ms);
                    },
                    _ => {
                    },
                }
            }
            while (buf.data_ix as u128) < end64
                invariant
                    old(buf).data_ix + 4 <= buf.data_ix,
                    buf.data@ == old(buf).data@,
                    buf.data_ix <= buf.data@.len(),
                    de.sig@ == old(de).sig@,
                    old(de).sig_ix < de.sig_ix <= de.sig@.len(),
                    de.sig_ix as int == geend,
                    item_sig@.len() + 8 <= usize::MAX,
                    gms.len() == items@.len(),
                    forall|k: int|
                        0 <= k < items@.len() ==> value_models(items@[k], #[trigger] gms[k]),
                    dec_seq_elems(gdata, gd0, gitem, gend) == prepend_run(
                        gms,
                        dec_seq_elems(gdata, buf.data_ix as int, gitem, gend),
                    ),
                decreases end64 - buf.data_ix,
            {
                let ghost gcur = buf.data_ix as int;
                let ghost gstep = dec_seq_elems(gdata, gcur, gitem, gend);
                let before_ix = buf.data_ix;
                let mut item_de = Deserializer::from_sig(
                    vstd::slice::slice_to_vec(item_sig.as_slice()),
                );
                let v = match decode_value(&mut item_de, buf) {
                    Ok(v) => v,
                    Err(e) => {
                        return Err(e);
                    },
                };
                items.push(v);
                if buf.data_ix as u128 > end64 {
                    let end_ix = #[verifier::truncate] (end64 as usize);
                    return Err(Error::ArrayElementOverrun(buf.data_ix, end_ix));
                }
                if buf.data_ix <= before_ix {
                    return Err(
                        Error::Deserializing("array element consumed no data".to_owned()),
                    );
                }
                proof {
                    let m0 = dec_value(gdata, gcur, gitem, 0)->Good_m;
                    let rest = dec_seq_elems(gdata, buf.data_ix as int, gitem, gend);
                    assert(gstep == prepend_run(seq![m0], rest));
                    match rest {
                        RunOutcome::Good { ms, dix, six } => {
                            assert((gms + (seq![m0] + ms)) =~= (gms.push(m0) + ms));
                        },
                        _ => {
                        },
                    }
                    gms = gms.push(m0);
                }
            }
            proof {
                assert(dec_seq_elems(gdata, buf.data_ix as int, gitem, gend)
                    == (RunOutcome::Good {
                    ms: Seq::empty(),
                    dix: buf.data_ix as int,
                    six: 0,
                }));
                assert(gms + Seq::<ValueModel>::empty() =~= gms);
            }
            Ok(Value::Sequence(items))
        }
    }
}

/// Decode a struct as directed by the signature: 8-align, then members
/// under their sub-signatures until `)` closes the struct.
#[verifier::loop_isolation(false)]
#[verifier::rlimit(100)]
#[verifier::spinoff_prover]
fn decode_struct(de: &mut Deserializer, buf: &mut DataBuffer) -> (r: Result<Value, Error>)
    requires
        old(de).sig_ix < old(de).sig@.len(),
        old(de).sig@[old(de).sig_ix as int] == CODE_STRUCT_OPEN,
        old(de).sig@.len() + 8 <= usize::MAX,
        old(buf).data_ix <= old(buf).data@.len(),
        old(buf).data@.len() + 512 <= usize::MAX,
    ensures
        final(buf).data@ == old(buf).data@,
        final(de).sig@ == old(de).sig@,
        old(buf).data_ix <= final(buf).data_ix,
        old(de).sig_ix <= final(de).sig_ix <= final(de).sig@.len(),
        r is Ok ==> final(buf).data_ix <= final(buf).data@.len(),
        r is Ok ==> old(de).sig_ix < final(de).sig_ix,
        r matches Err(e) ==> !(e is LeftoverData),
        match dec_value(
            old(buf).data@,
            old(buf).data_ix as int,
            old(de).sig@,
            old(de).sig_ix as int,
        ) {
            DecOutcome::Good { m, dix: gd, six: gs } => r matches Ok(v) && value_models(v, m)
                && final(buf).data_ix == gd && final(de).sig_ix == gs,
            DecOutcome::Bad { e } => r matches Err(e2) && e2 == e,
            DecOutcome::Stuck => r matches Err(e2) && e2 is Deserializing,
        },
    decreases buf.data@.len() - buf.data_ix, de.sig@.len() - de.sig_ix + 1, 0int,
{
    let ghost c = old(de).sig@[old(de).sig_ix as int];
    {
        let ghost gdata = old(buf).data@;
        let ghost gsig = old(de).sig@;
        let ghost gdix0 = old(buf).data_ix as int;
        let ghost gsix0 = old(de).sig_ix as int;
        match de.expect_signature_byte(CODE_STRUCT_OPEN) {
            Ok(_) => {
            },
            Err(e) => {
                return Err(e);
            },
        }
        match buf.align_reader(8) {
            Ok(_) => {
            },
            Err(e) => {
                return Err(e);
            },
        }
        let ghost gp8 = buf.data_ix as int;
        proof {
            assert(dec_value(gdata, gdix0, gsig, gsix0) == wrap_members_outcome(
                dec_members(gdata, gp8, gsig, gsix0 + 1),
            ));
        }
        let mut close: Vec<u8> = Vec::new();
        close.push(CODE_STRUCT_CLOSE);
        proof {
            assert(close@ =~= seq![CODE_STRUCT_CLOSE]);
        }
        let mut items: Vec<Value> = Vec::new();
        let ghost mut gms: Seq<ValueModel> = Seq::empty();
        let ghost six1 = de.sig_ix as int;
        let mut done = de.probe_signature_bytes(close.as_slice());
        proof {
            if six1 < gsig.len() && gsig[six1] == CODE_STRUCT_CLOSE {
                assert(gsig.subrange(six1, six1 + 1) =~= close@);
            }
            if done {
                assert(gsig.subrange(six1, six1 + 1)[0] == gsig[six1]);
                assert(gsig[six1] == CODE_STRUCT_CLOSE);
                assert(dec_members(gdata, gp8, gsig, gsix0 + 1) == (RunOutcome::Good {
                    ms: Seq::empty(),
                    dix: gp8,
                    six: gsix0 + 2,
                }));
            }
            match dec_members(gdata, gp8, gsig, gsix0 + 1) {
                RunOutcome::Good { ms, dix, six } => {
                    assert(Seq::<ValueModel>::empty() + ms =~= ms);
                },
                _ => {
                },
            }
        }
        if !done {
            while !done
                invariant
                    old(buf).data_ix <= buf.data_ix,
                    buf.data@ == old(buf).data@,
                    buf.data_ix <= buf.data@.len(),
                    de.sig@ == old(de).sig@,
                    old(de).sig_ix < de.sig_ix <= de.sig@.len(),
                    gms.len() == items@.len(),
                    forall|k: int|
                        0 <= k < items@.len() ==> value_models(items@[k], #[trigger] gms[k]),
                    !done ==> (de.sig_ix as int >= gsig.len() || gsig[de.sig_ix as int]
                        != CODE_STRUCT_CLOSE),
                    ({
                        if done {
                            dec_members(gdata, gp8, gsig, gsix0 + 1) == prepend_run(
                                gms,
                                RunOutcome::Good {
                                    ms: Seq::empty(),
                                    dix: buf.data_ix as int,
                                    six: de.sig_ix as int,
                                },
                            )
                        } else {
                            dec_members(gdata, gp8, gsig, gsix0 + 1) == prepend_run(
                                gms,
                                dec_members(gdata, buf.data_ix as int, gsig, de.sig_ix as int),
                            )
                        }
                    }),
                decreases de.sig@.len() - de.sig_ix,
            {
                let ghost gcur = buf.data_ix as int;
                let ghost gscur = de.sig_ix as int;
                let ghost gstep = dec_members(gdata, gcur, gsig, gscur);
                let mut child = match subsidiary(de) {
                    Ok(d) => d,
                    Err(e) => {
                        return Err(e);
                    },
                };
                proof {
                    assert(child.sig@.len() + 8 <= usize::MAX);
                    assert(child.sig@.len() < de.sig@.len() - old(de).sig_ix);
                    if gscur < gsig.len() && gsig[gscur] == CODE_STRUCT_CLOSE {
                        assert(gsig.subrange(gscur, gscur + 1) =~= close@);
                        assert(false);
                    }
                }
                let v = match decode_value(&mut child, buf) {
                    Ok(v) => v,
                    Err(e) => {
                        return Err(e);
                    },
                };
                items.push(v);
                let ghost geend2 = de.sig_ix as int;
                proof {
                    let m0 = dec_value(gdata, gcur, gsig.subrange(gscur, geend2), 0)->Good_m;
                    let rest = dec_members(gdata, buf.data_ix as int, gsig, geend2);
                    assert(gstep == prepend_run(seq![m0], rest));
                    match rest {
                        RunOutcome::Good { ms, dix, six } => {
                            assert((gms + (seq![m0] + ms)) =~= (gms.push(m0) + ms));
                        },
                        _ => {
                        },
                    }
                    gms = gms.push(m0);
                }
                let ghost gsix_probe = de.sig_ix as int;
                done = de.probe_signature_bytes(close.as_slice());
                proof {
                    if gsix_probe < gsig.len() && gsig[gsix_probe] == CODE_STRUCT_CLOSE {
                        assert(gsig.subrange(gsix_probe, gsix_probe + 1) =~= close@);
                    }
                    if done {
                        assert(gsig.subrange(gsix_probe, gsix_probe + 1)[0]
                            == gsig[gsix_probe]);
                        assert(gsig[gsix_probe] == CODE_STRUCT_CLOSE);
                        assert(dec_members(gdata, buf.data_ix as int, gsig, gsix_probe)
                            == (RunOutcome::Good {
                            ms: Seq::empty(),
                            dix: buf.data_ix as int,
                            six: de.sig_ix as int,
                        }));
                    }
                }
            }
        }
        proof {
            assert(gms + Seq::<ValueModel>::empty() =~= gms);
        }
        Ok(Value::Tuple(items))
    }
}

/// A value that models a fixed-size scalar's decode result is exactly
/// that scalar.
proof fn lemma_models_fixed_scalar(v: Value, c: u8, bytes: Seq<u8>)
    requires
        is_fixed_scalar(c),
        value_models(v, fixed_scalar_model(c, bytes)),
    ensures
        v == Value::Prim(fixed_scalar_value(c, bytes)),
{
    match v {
        Value::Prim(p) => {
        },
        _ => {
        },
    }
}

/// Decode a message's body against its signature, and require the whole
/// body to have been consumed.
pub fn from_message(mesg: &Message) -> (r: Result<Value, Error>)
    requires
        mesg.signature@.len() + 8 <= usize::MAX,
        mesg.data@.len() + 512 <= usize::MAX,
    ensures
        r matches Err(e) ==> (e matches Error::LeftoverData(n) ==> 0 < n <= mesg.data@.len()),
        (mesg.signature@.len() > 0 && is_fixed_scalar(mesg.signature@[0]))
            ==> scalar_message_ensures(mesg.data@, mesg.signature@, r),
        (mesg.signature@.len() > 0 && mesg.signature@[0] == CODE_STR)
            ==> string_message_ensures(mesg.data@, mesg.signature@, r),
        (mesg.signature@.len() == 2 && mesg.signature@[0] == CODE_STRUCT_OPEN
            && mesg.signature@[1] == CODE_STRUCT_CLOSE) ==> unit_message_ensures(
            mesg.data@,
            r,
        ),
        mesg.signature@.len() == 0 ==> (r matches Err(e) && e == Error::SignatureExhausted),
        (mesg.signature@.len() > 0 && (mesg.signature@[0] == CODE_PATH || mesg.signature@[0]
            == CODE_SIG || mesg.signature@[0] == CODE_FD)) ==> (r matches Err(e) && e
            == Error::UnsupportedSignatureCharacter(mesg.signature@[0])),
        (mesg.signature@.len() > 0 && !is_signature_code(mesg.signature@[0])) ==> (r matches Err(
            e,
        ) && e == Error::UnrecognizedSignatureCharacter(mesg.signature@[0])),
        (mesg.signature@.len() > 0 && mesg.signature@[0] == CODE_DICT_OPEN) ==> (r matches Err(e)
            && e == Error::SignatureError(CODE_ARRAY, CODE_DICT_OPEN)),
        (mesg.signature@.len() > 0 && mesg.signature@[0] == CODE_STRUCT_OPEN && r is Ok) ==> (r
            matches Ok(v) && v is Tuple),
        (mesg.signature@.len() > 0 && mesg.signature@[0] == CODE_VARIANT && r is Ok) ==> (r
            matches Ok(v) && v is Variant),
        (mesg.signature@.len() > 1 && mesg.signature@[0] == CODE_ARRAY && mesg.signature@[1]
            == CODE_DICT_OPEN && r is Ok) ==> (r matches Ok(v) && v is MapEntries),
        (mesg.signature@.len() > 1 && mesg.signature@[0] == CODE_ARRAY && mesg.signature@[1]
            != CODE_DICT_OPEN && r is Ok) ==> (r matches Ok(v) && v is Sequence),
        (mesg.signature@.len() > 0 && mesg.signature@[0] == CODE_VARIANT && mesg.data@.len() > 0
            && 1 + mesg.data@[0] + 1 <= mesg.data@.len() && mesg.data@[1 + mesg.data@[0]]
            == NUL && mesg.data@[0] >= 1 && is_fixed_scalar(mesg.data@[1]))
            ==> variant_scalar_message_ensures(mesg.data@, r),
        match dec_value(mesg.data@, 0, mesg.signature@, 0) {
            DecOutcome::Good { m, dix: gd, six: _ } => if gd < mesg.data@.len() {
                r matches Err(e) && e == Error::LeftoverData((mesg.data@.len() - gd) as usize)
            } else {
                r matches Ok(v) && value_models(v, m)
            },
            DecOutcome::Bad { e } => r matches Err(e2) && e2 == e,
            DecOutcome::Stuck => r matches Err(e2) && e2 is Deserializing,
        },
{
    proof {
        crate::align::lemma_align_up_bounds(0, 8);
        let gd = mesg.data@;
        let gs = mesg.signature@;
        if gs.len() == 2 && gs[0] == CODE_STRUCT_OPEN && gs[1] == CODE_STRUCT_CLOSE {
            assert(align_up(0, 8) == 0);
            assert(dec_members(gd, 0, gs, 1) == (RunOutcome::Good {
                ms: Seq::empty(),
                dix: 0,
                six: 2,
            }));
            assert(dec_value(gd, 0, gs, 0) == (DecOutcome::Good {
                m: ValueModel::Tuple(Seq::empty()),
                dix: 0,
                six: 2,
            }));
        }
        if gs.len() > 0 && gs[0] == CODE_VARIANT && gd.len() > 0 && 1 + gd[0] + 1 <= gd.len()
            && gd[1 + gd[0]] == NUL && gd[0] >= 1 && is_fixed_scalar(gd[1]) {
            let n = gd[0] as int;
            let esig = gd.subrange(1, 1 + n);
            let vdix = 1 + n + 1;
            assert(esig[0] == gd[1]);
            let c0 = esig[0];
            let inner = dec_value(gd, vdix, esig, 0);
            match fixed_outcome(gd, vdix, esig, 0, c0, fixed_scalar_align(c0),
                fixed_scalar_size(c0)) {
                Ok(ps) => {
                    let bytes = gd.subrange(ps.0, ps.0 + fixed_scalar_size(c0));
                    if c0 == CODE_BOOL && spec_u32_from_le_bytes(bytes) > 1 {
                        assert(inner == (DecOutcome::Bad {
                            e: Error::InvalidBoolValue(spec_u32_from_le_bytes(bytes)),
                        }));
                    } else {
                        assert(inner == (DecOutcome::Good {
                            m: fixed_scalar_model(c0, bytes),
                            dix: ps.0 + fixed_scalar_size(c0),
                            six: ps.1,
                        }));
                        assert(dec_value(gd, 0, gs, 0) == (DecOutcome::Good {
                            m: ValueModel::Variant(seq![fixed_scalar_model(c0, bytes)]),
                            dix: ps.0 + fixed_scalar_size(c0),
                            six: 1,
                        }));
                    }
                },
                Err(e) => {
                    assert(inner == (DecOutcome::Bad { e }));
                },
            }
        }
    }
    let mut buf = DataBuffer::from_message(mesg);
    let mut de = Deserializer::from_message(mesg);
    let v = match decode_value(&mut de, &mut buf) {
        Ok(v) => v,
        Err(e) => {
            return Err(e);
        },
    };
    proof {
        let gd = mesg.data@;
        let gs = mesg.signature@;
        if gs.len() > 0 && gs[0] == CODE_VARIANT && gd.len() > 0 && 1 + gd[0] + 1 <= gd.len()
            && gd[1 + gd[0]] == NUL && gd[0] >= 1 && is_fixed_scalar(gd[1]) {
            let n = gd[0] as int;
            let esig = gd.subrange(1, 1 + n);
            let vdix = 1 + n + 1;
            let c0 = esig[0];
            match fixed_outcome(gd, vdix, esig, 0, c0, fixed_scalar_align(c0),
                fixed_scalar_size(c0)) {
                Ok(ps) => {
                    let bytes = gd.subrange(ps.0, ps.0 + fixed_scalar_size(c0));
                    if !(c0 == CODE_BOOL && spec_u32_from_le_bytes(bytes) > 1) {
                        assert(value_models(v, ValueModel::Variant(seq![fixed_scalar_model(
                            c0,
                            bytes,
                        )])));
                        let gv = v;
                        match gv {
                            Value::Variant(b) => {
                                assert(seq![fixed_scalar_model(c0, bytes)][0]
                                    == fixed_scalar_model(c0, bytes));
                                lemma_models_fixed_scalar(*b, c0, bytes);
                            },
                            _ => {
                            },
                        }
                    }
                },
                Err(_) => {
                },
            }
        }
    }
    match buf.complete() {
        Ok(_) => Ok(v),
        Err(e) => Err(e),
    }
}

/// A child decoder restricted to the next single complete type.
pub fn subsidiary(de: &mut Deserializer) -> (r: Result<Deserializer, Error>)
    requires
        old(de).sig_ix <= old(de).sig@.len(),
    ensures
        final(de).sig@ == old(de).sig@,
        match sig_scan(old(de).sig@, old(de).sig_ix as int, 0) {
            Some(end) => r matches Ok(d) && d.sig@ == old(de).sig@.subrange(
                old(de).sig_ix as int,
                end,
            ) && d.sig_ix == 0 && final(de).sig_ix == end && old(de).sig_ix < end <= old(
                de,
            ).sig@.len(),
            None => r matches Err(e) && e == Error::MismatchedSignatureBracketing(
                old(de).sig_ix,
            ) && final(de).sig_ix == old(de).sig_ix,
        },
{
    let item_sig = de.grab_single_sig()?;
    Ok(Deserializer::from_sig(item_sig))
}

} // verus!

