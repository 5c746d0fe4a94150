//! Laws of the codec, stated and proved against the specifications that
//! the executable functions' contracts use.

use vstd::prelude::*;

use crate::primitives::{Primitive, NUL};
use crate::ser::internal::{dict_entry_sig, prim_stream, variant_stream};
use crate::ser::message_builder::{
    complete_step, find_entry, stream_append, stream_wf, CompleteState, Component,
};
use crate::ser::serializer_policy::SerializerPolicy;
use crate::ser::serializer_policy::DefaultSerializerPolicy;
use crate::ser::message_builder::spec_complete;
use crate::ser::{
    enc_dict_items, enc_field_values, enc_value, init_enc_state, EncState,
};
use crate::value::{Field, MapEntry, Value};
use crate::primitives::{CODE_STRUCT_CLOSE, CODE_STRUCT_OPEN};
use vstd::bytes::{
    spec_u16_from_le_bytes, spec_u32_from_le_bytes, spec_u64_from_le_bytes,
};

verus! {

/// Appending byte runs one after another is the same as appending their
/// concatenation.
pub proof fn lemma_stream_append_concat(s: Seq<Component>, a: Seq<u8>, b: Seq<u8>)
    requires
        stream_wf(s),
    ensures
        stream_append(stream_append(s, a), b) == stream_append(s, a + b),
{
    let n = s.len() as int;
    match s.last() {
        Component::Slice { alignment, bytes } => {
            assert(stream_append(s, a).last() == Component::Slice {
                alignment,
                bytes: bytes + a,
            });
            assert(stream_append(stream_append(s, a), b) =~~= stream_append(s, a + b)) by {
                assert((bytes + a) + b =~= bytes + (a + b));
            }
        },
        _ => {},
    }
}

/// A variant's embedded signature is followed immediately by a NUL byte,
/// and only then does the value's payload begin: the variant wrapper's
/// effect is exactly the header run `[len] sig NUL` followed by the
/// value's own components.
pub proof fn lemma_variant_header(
    s: Seq<Component>,
    vsig: Seq<u8>,
    vstream: Seq<Component>,
    off: int,
)
    requires
        stream_wf(s),
    ensures
        variant_stream(s, vsig, vstream, off)
            == crate::ser::message_builder::stream_append_data(
            stream_append(s, seq![(vsig.len() as u8)] + vsig + seq![NUL]),
            vstream,
            off,
        ),
{
    lemma_stream_append_concat(s, seq![(vsig.len() as u8)], vsig);
    lemma_stream_append_concat(s, seq![(vsig.len() as u8)] + vsig, seq![NUL]);
}

/// A unit value (unit, a unit struct, or a `None` option) encodes as the
/// empty struct: its signature is exactly `()` and it contributes no
/// bytes, only an 8-alignment intent.
pub proof fn lemma_unit_encodes_as_empty_struct<P: SerializerPolicy>(policy: &P, st: EncState)
    ensures
        enc_value(policy, st, Value::Unit) == Ok::<EncState, (Seq<u8>, Seq<u8>)>(
            EncState {
                stream: crate::ser::message_builder::stream_align(st.stream, 8),
                sig: st.sig.push(CODE_STRUCT_OPEN).push(CODE_STRUCT_CLOSE),
                next: st.next,
            },
        ),
{
}

/// Inside a dictionary-style aggregate, a field whose value is unit is
/// elided entirely: the encoding continues as if the field were absent.
pub proof fn lemma_dict_elides_unit_field<P: SerializerPolicy>(
    policy: &P,
    c: EncState,
    fs: Seq<Field>,
    i: int,
)
    requires
        0 <= i < fs.len(),
        fs[i].value == Value::Unit,
    ensures
        enc_dict_items(policy, c, fs, i) == enc_dict_items(policy, c, fs, i + 1),
{
    let inner = enc_value(policy, init_enc_state(), Value::Unit);
    assert(inner matches Ok(st) && st.sig =~= seq![CODE_STRUCT_OPEN, CODE_STRUCT_CLOSE]);
}

/// Inside a strongly-typed struct, a unit field is retained as `()`: it
/// still contributes its empty-struct signature.
pub proof fn lemma_strong_struct_keeps_unit_field<P: SerializerPolicy>(
    policy: &P,
    st: EncState,
    fs: Seq<Field>,
    i: int,
)
    requires
        0 <= i < fs.len(),
        fs[i].value == Value::Unit,
    ensures
        enc_field_values(policy, st, fs, i) == enc_field_values(
            policy,
            EncState {
                stream: crate::ser::message_builder::stream_align(st.stream, 8),
                sig: st.sig.push(CODE_STRUCT_OPEN).push(CODE_STRUCT_CLOSE),
                next: st.next,
            },
            fs,
            i + 1,
        ),
{
    assert(enc_value(policy, st, Value::Unit) == Ok::<EncState, (Seq<u8>, Seq<u8>)>(
        EncState {
            stream: crate::ser::message_builder::stream_align(st.stream, 8),
            sig: st.sig.push(CODE_STRUCT_OPEN).push(CODE_STRUCT_CLOSE),
            next: st.next,
        },
    ));
}

/// The signature codes that form a complete type by themselves.
pub open spec fn is_basic_code(c: u8) -> bool {
    ||| c == crate::primitives::CODE_U8
    ||| c == crate::primitives::CODE_BOOL
    ||| c == crate::primitives::CODE_I16
    ||| c == crate::primitives::CODE_U16
    ||| c == crate::primitives::CODE_I32
    ||| c == crate::primitives::CODE_U32
    ||| c == crate::primitives::CODE_I64
    ||| c == crate::primitives::CODE_U64
    ||| c == crate::primitives::CODE_F64
    ||| c == crate::primitives::CODE_STR
    ||| c == crate::primitives::CODE_PATH
    ||| c == crate::primitives::CODE_SIG
    ||| c == crate::primitives::CODE_VARIANT
}

/// Where the single complete type starting at `i` ends (exclusive) under
/// the signature grammar: one basic code, or `a` followed by one complete
/// element, or `(` members `)`.  A dict entry `{K T}` is not a type by
/// itself: it may stand only as an array's element.
pub open spec fn type_end(s: Seq<u8>, i: int) -> Option<int>
    decreases s.len() - i, 0int,
{
    if i < 0 || i >= s.len() {
        None
    } else {
        let c = s[i];
        if is_basic_code(c) {
            Some(i + 1)
        } else if c == crate::primitives::CODE_ARRAY {
            elem_end(s, i + 1)
        } else if c == CODE_STRUCT_OPEN {
            members_end(s, i + 1)
        } else {
            None
        }
    }
}

/// Where an array's element ends: one complete type, or -- only here -- a
/// dict entry `{` basic-key type `}`.
pub open spec fn elem_end(s: Seq<u8>, i: int) -> Option<int>
    decreases s.len() - i, 1int,
{
    if i < 0 || i >= s.len() {
        None
    } else if s[i] == crate::primitives::CODE_DICT_OPEN {
        if i + 1 < s.len() && is_basic_code(s[i + 1]) && s[i + 1]
            != crate::primitives::CODE_VARIANT {
            match type_end(s, i + 2) {
                Some(e) => if e < s.len() && s[e] == crate::primitives::CODE_DICT_CLOSE {
                    Some(e + 1)
                } else {
                    None
                },
                None => None,
            }
        } else {
            None
        }
    } else {
        type_end(s, i)
    }
}

/// Where a run of complete types terminated by `)` ends (exclusive, the
/// `)` consumed).
pub open spec fn members_end(s: Seq<u8>, i: int) -> Option<int>
    decreases s.len() - i, 1int,
{
    if i < 0 || i >= s.len() {
        None
    } else if s[i] == CODE_STRUCT_CLOSE {
        Some(i + 1)
    } else {
        match type_end(s, i) {
            Some(e) => if i < e && e <= s.len() {
                members_end(s, e)
            } else {
                None
            },
            None => None,
        }
    }
}

pub proof fn lemma_type_end_bounds(s: Seq<u8>, i: int)
    ensures
        match type_end(s, i) {
            Some(e) => 0 <= i < e <= s.len(),
            None => true,
        },
    decreases s.len() - i, 0int,
{
    if 0 <= i < s.len() {
        let c = s[i];
        if c == crate::primitives::CODE_ARRAY {
            lemma_elem_end_bounds(s, i + 1);
        } else if c == CODE_STRUCT_OPEN {
            lemma_members_end_bounds(s, i + 1);
        }
    }
}

pub proof fn lemma_elem_end_bounds(s: Seq<u8>, i: int)
    ensures
        match elem_end(s, i) {
            Some(e) => 0 <= i < e <= s.len(),
            None => true,
        },
    decreases s.len() - i, 1int,
{
    if 0 <= i < s.len() {
        if s[i] == crate::primitives::CODE_DICT_OPEN {
            if i + 1 < s.len() {
                lemma_type_end_bounds(s, i + 2);
            }
        } else {
            lemma_type_end_bounds(s, i);
        }
    }
}

pub proof fn lemma_members_end_bounds(s: Seq<u8>, i: int)
    ensures
        match members_end(s, i) {
            Some(e) => 0 <= i < e <= s.len(),
            None => true,
        },
    decreases s.len() - i, 1int,
{
    if 0 <= i < s.len() && s[i] != CODE_STRUCT_CLOSE {
        lemma_type_end_bounds(s, i);
        match type_end(s, i) {
            Some(e) => {
                if i < e && e <= s.len() {
                    lemma_members_end_bounds(s, e);
                }
            },
            None => {},
        }
    }
}

/// Parsing one complete type never looks past its end, so a successful
/// parse survives appending more signature bytes.
pub proof fn lemma_type_end_extend(s: Seq<u8>, ext: Seq<u8>, i: int)
    requires
        type_end(s, i) is Some,
    ensures
        type_end(s + ext, i) == type_end(s, i),
    decreases s.len() - i, 0int,
{
    let t = s + ext;
    assert(t.len() == s.len() + ext.len());
    assert(forall|j: int| 0 <= j < s.len() ==> t[j] == s[j]);
    let c = s[i];
    if is_basic_code(c) {
    } else if c == crate::primitives::CODE_ARRAY {
        lemma_elem_end_extend(s, ext, i + 1);
    } else if c == CODE_STRUCT_OPEN {
        lemma_members_end_extend(s, ext, i + 1);
    }
}

/// Like `lemma_type_end_extend`, for an array element.
pub proof fn lemma_elem_end_extend(s: Seq<u8>, ext: Seq<u8>, i: int)
    requires
        elem_end(s, i) is Some,
    ensures
        elem_end(s + ext, i) == elem_end(s, i),
    decreases s.len() - i, 1int,
{
    let t = s + ext;
    assert(forall|j: int| 0 <= j < s.len() ==> t[j] == s[j]);
    if s[i] == crate::primitives::CODE_DICT_OPEN {
        if i + 1 < s.len() {
            lemma_type_end_extend(s, ext, i + 2);
            lemma_type_end_bounds(s, i + 2);
        }
    } else {
        lemma_type_end_extend(s, ext, i);
    }
}

pub proof fn lemma_members_end_extend(s: Seq<u8>, ext: Seq<u8>, i: int)
    requires
        members_end(s, i) is Some,
    ensures
        members_end(s + ext, i) == members_end(s, i),
    decreases s.len() - i, 1int,
{
    let t = s + ext;
    assert(forall|j: int| 0 <= j < s.len() ==> t[j] == s[j]);
    if s[i] == CODE_STRUCT_CLOSE {
    } else {
        lemma_type_end_extend(s, ext, i);
        lemma_type_end_bounds(s, i);
        match type_end(s, i) {
            Some(e) => {
                if i < e && e <= s.len() {
                    lemma_members_end_extend(s, ext, e);
                }
            },
            None => {},
        }
    }
}

/// Every value's encoding appends exactly one complete single-type
/// signature: brackets balance, and every `a` is followed by one complete
/// element type.
pub proof fn lemma_enc_sig_one_type<P: SerializerPolicy>(policy: &P, st: EncState, v: Value)
    ensures
        match enc_value(policy, st, v) {
            Ok(st2) => {
                &&& st.sig.len() < st2.sig.len()
                &&& st2.sig.subrange(0, st.sig.len() as int) == st.sig
                &&& type_end(st2.sig, st.sig.len() as int) == Some(st2.sig.len() as int)
            },
            Err(_) => true,
        },
    decreases v, 1int,
{
    match v {
        Value::Prim(p) => {
            let st2 = EncState {
                stream: prim_stream(st.stream, p),
                sig: st.sig.push(p.sig_code()),
                next: st.next,
            };
            assert(st2.sig.subrange(0, st.sig.len() as int) =~= st.sig);
            assert(st2.sig[st.sig.len() as int] == p.sig_code());
            assert(is_basic_code(p.sig_code()));
            assert(type_end(st2.sig, st.sig.len() as int) == Some(st.sig.len() as int + 1));
        },
        Value::Unit => {
            let sig2 = st.sig.push(CODE_STRUCT_OPEN).push(CODE_STRUCT_CLOSE);
            assert(sig2.subrange(0, st.sig.len() as int) =~= st.sig);
            assert(sig2[st.sig.len() as int] == CODE_STRUCT_OPEN);
            assert(sig2[st.sig.len() as int + 1] == CODE_STRUCT_CLOSE);
            assert(members_end(sig2, st.sig.len() as int + 1) == Some(st.sig.len() as int + 2));
            assert(type_end(sig2, st.sig.len() as int) == Some(st.sig.len() as int + 2));
        },
        Value::Tuple(vs) => {
            let st1 = EncState {
                stream: crate::ser::message_builder::stream_align(st.stream, 8),
                sig: st.sig.push(CODE_STRUCT_OPEN),
                next: st.next,
            };
            lemma_enc_items_sig(policy, st1, vs@, 0);
            match crate::ser::enc_items(policy, st1, vs@, 0) {
                Ok(stm) => {
                    let sig2 = stm.sig.push(CODE_STRUCT_CLOSE);
                    assert(sig2.subrange(0, st.sig.len() as int) =~= st.sig) by {
                        assert(stm.sig.subrange(0, st1.sig.len() as int) == st1.sig);
                        assert(forall|j: int|
                            0 <= j < st.sig.len() ==> sig2[j] == st1.sig.subrange(
                                0,
                                st.sig.len() as int,
                            )[j]);
                        assert(st1.sig.subrange(0, st.sig.len() as int) =~= st.sig);
                    }
                    assert(sig2[st.sig.len() as int] == CODE_STRUCT_OPEN) by {
                        assert(stm.sig.subrange(0, st1.sig.len() as int)[st.sig.len() as int]
                            == st1.sig[st.sig.len() as int]);
                    }
                    assert(members_end(sig2, st.sig.len() as int + 1) == Some(sig2.len() as int));
                    assert(type_end(sig2, st.sig.len() as int) == Some(sig2.len() as int));
                },
                Err(_) => {},
            }
        },
        Value::Sequence(vs) => {
            match crate::ser::enc_variant_items(policy, init_enc_state(), vs@, 0) {
                Ok(c) => {
                    let sig2 = st.sig.push(crate::primitives::CODE_ARRAY).push(
                        crate::primitives::CODE_VARIANT,
                    );
                    assert(sig2.subrange(0, st.sig.len() as int) =~= st.sig);
                    assert(sig2[st.sig.len() as int] == crate::primitives::CODE_ARRAY);
                    assert(sig2[st.sig.len() as int + 1] == crate::primitives::CODE_VARIANT);
                    assert(type_end(sig2, st.sig.len() as int + 1) == Some(
                        st.sig.len() as int + 2,
                    ));
                    assert(elem_end(sig2, st.sig.len() as int + 1) == Some(
                        st.sig.len() as int + 2,
                    ));
                    assert(type_end(sig2, st.sig.len() as int) == Some(st.sig.len() as int + 2));
                },
                Err(_) => {},
            }
        },
        Value::MapEntries(es) => {
            match crate::ser::enc_map_items(policy, init_enc_state(), es@, 0) {
                Ok(c) => {
                    lemma_dict_sig_tail(st.sig);
                },
                Err(_) => {},
            }
        },
        Value::Dict(fs) => {
            match crate::ser::enc_dict_items(policy, init_enc_state(), fs@, 0) {
                Ok(c) => {
                    lemma_dict_sig_tail(st.sig);
                },
                Err(_) => {},
            }
        },
        Value::Struct { name, fields } => {
            match policy.spec_style(name@) {
                crate::ser::serializer_policy::StructSerializationStyle::Dict => {
                    match crate::ser::enc_dict_items(policy, init_enc_state(), fields@, 0) {
                        Ok(c) => {
                            lemma_dict_sig_tail(st.sig);
                        },
                        Err(_) => {},
                    }
                },
                crate::ser::serializer_policy::StructSerializationStyle::StronglyTyped => {
                    let st1 = EncState {
                        stream: crate::ser::message_builder::stream_align(st.stream, 8),
                        sig: st.sig.push(CODE_STRUCT_OPEN),
                        next: st.next,
                    };
                    lemma_enc_field_values_sig(policy, st1, fields@, 0);
                    match enc_field_values(policy, st1, fields@, 0) {
                        Ok(stm) => {
                            let sig2 = stm.sig.push(CODE_STRUCT_CLOSE);
                            assert(sig2.subrange(0, st.sig.len() as int) =~= st.sig) by {
                                assert(stm.sig.subrange(0, st1.sig.len() as int) == st1.sig);
                                assert(st1.sig.subrange(0, st.sig.len() as int) =~= st.sig);
                            }
                            assert(sig2[st.sig.len() as int] == CODE_STRUCT_OPEN) by {
                                assert(stm.sig.subrange(0, st1.sig.len() as int)[st.sig.len()
                                    as int] == st1.sig[st.sig.len() as int]);
                            }
                            assert(members_end(sig2, st.sig.len() as int + 1) == Some(
                                sig2.len() as int,
                            ));
                            assert(type_end(sig2, st.sig.len() as int) == Some(
                                sig2.len() as int,
                            ));
                        },
                        Err(_) => {},
                    }
                },
            }
        },
        Value::Variant(b) => {
            match enc_value(policy, init_enc_state(), *b) {
                Ok(inner) => {
                    let sig2 = st.sig.push(crate::primitives::CODE_VARIANT);
                    assert(sig2.subrange(0, st.sig.len() as int) =~= st.sig);
                    assert(sig2[st.sig.len() as int] == crate::primitives::CODE_VARIANT);
                    assert(type_end(sig2, st.sig.len() as int) == Some(st.sig.len() as int + 1));
                },
                Err(_) => {},
            }
        },
    }
}

/// The `a{sv}` tail a dictionary appends parses as one complete type.
proof fn lemma_dict_sig_tail(sig0: Seq<u8>)
    ensures
        ({
            let sig2 = sig0.push(crate::primitives::CODE_ARRAY) + dict_entry_sig();
            &&& sig0.len() < sig2.len()
            &&& sig2.subrange(0, sig0.len() as int) == sig0
            &&& type_end(sig2, sig0.len() as int) == Some(sig2.len() as int)
        }),
{
    let sig2 = sig0.push(crate::primitives::CODE_ARRAY) + dict_entry_sig();
    let n = sig0.len() as int;
    assert(dict_entry_sig()[0] == crate::primitives::CODE_DICT_OPEN);
    assert(dict_entry_sig()[1] == crate::primitives::CODE_STR);
    assert(dict_entry_sig()[2] == crate::primitives::CODE_VARIANT);
    assert(dict_entry_sig()[3] == crate::primitives::CODE_DICT_CLOSE);
    assert(sig2.subrange(0, n) =~= sig0);
    assert(sig2[n] == crate::primitives::CODE_ARRAY);
    assert(sig2[n + 1] == crate::primitives::CODE_DICT_OPEN);
    assert(sig2[n + 2] == crate::primitives::CODE_STR);
    assert(sig2[n + 3] == crate::primitives::CODE_VARIANT);
    assert(sig2[n + 4] == crate::primitives::CODE_DICT_CLOSE);
    assert(sig2.len() == n + 5);
    assert(type_end(sig2, n + 3) == Some(n + 4));
    assert(elem_end(sig2, n + 1) == Some(n + 5));
    assert(type_end(sig2, n) == Some(n + 5));
}

/// Each struct item appends one complete type, so the run of items from
/// `i` on, closed by `)`, parses as members.
proof fn lemma_enc_items_sig<P: SerializerPolicy>(
    policy: &P,
    st: EncState,
    vs: Seq<Value>,
    i: int,
)
    ensures
        match crate::ser::enc_items(policy, st, vs, i) {
            Ok(stm) => {
                &&& st.sig.len() <= stm.sig.len()
                &&& stm.sig.subrange(0, st.sig.len() as int) == st.sig
                &&& members_end(stm.sig.push(CODE_STRUCT_CLOSE), st.sig.len() as int) == Some(
                    stm.sig.len() as int + 1,
                )
            },
            Err(_) => true,
        },
    decreases vs, vs.len() - i + 1,
{
    if i < 0 || i >= vs.len() {
        match crate::ser::enc_items(policy, st, vs, i) {
            Ok(stm) => {
                assert(stm == st);
                assert(stm.sig.subrange(0, st.sig.len() as int) =~= st.sig);
                let sig2 = stm.sig.push(CODE_STRUCT_CLOSE);
                assert(sig2[st.sig.len() as int] == CODE_STRUCT_CLOSE);
            },
            Err(_) => {},
        }
    } else {
        lemma_enc_sig_one_type(policy, st, vs[i]);
        match enc_value(policy, st, vs[i]) {
            Ok(stb) => {
                lemma_enc_items_sig(policy, stb, vs, i + 1);
                match crate::ser::enc_items(policy, stb, vs, i + 1) {
                    Ok(stm) => {
                        let sig2 = stm.sig.push(CODE_STRUCT_CLOSE);
                        let p = st.sig.len() as int;
                        let q = stb.sig.len() as int;
                        // The item's type parses the same inside the full run.
                        assert(stb.sig == stm.sig.subrange(0, q));
                        lemma_type_end_extend(
                            stb.sig,
                            sig2.subrange(q, sig2.len() as int),
                            p,
                        );
                        assert(stb.sig + sig2.subrange(q, sig2.len() as int) =~= sig2);
                        assert(type_end(sig2, p) == Some(q));
                        assert(stm.sig.subrange(0, p) =~= st.sig) by {
                            assert(forall|j: int|
                                0 <= j < p ==> stm.sig.subrange(0, q)[j] == stb.sig[j]);
                            assert(stb.sig.subrange(0, p) == st.sig);
                            assert(forall|j: int|
                                0 <= j < p ==> stb.sig.subrange(0, p)[j] == stb.sig[j]);
                        }
                        assert(members_end(sig2, p) == Some(stm.sig.len() as int + 1));
                    },
                    Err(_) => {},
                }
            },
            Err(_) => {},
        }
    }
}

/// The same, for the field values of a strongly-typed aggregate.
proof fn lemma_enc_field_values_sig<P: SerializerPolicy>(
    policy: &P,
    st: EncState,
    fs: Seq<Field>,
    i: int,
)
    ensures
        match enc_field_values(policy, st, fs, i) {
            Ok(stm) => {
                &&& st.sig.len() <= stm.sig.len()
                &&& stm.sig.subrange(0, st.sig.len() as int) == st.sig
                &&& members_end(stm.sig.push(CODE_STRUCT_CLOSE), st.sig.len() as int) == Some(
                    stm.sig.len() as int + 1,
                )
            },
            Err(_) => true,
        },
    decreases fs, fs.len() - i + 1,
{
    if i < 0 || i >= fs.len() {
        match enc_field_values(policy, st, fs, i) {
            Ok(stm) => {
                assert(stm == st);
                assert(stm.sig.subrange(0, st.sig.len() as int) =~= st.sig);
                let sig2 = stm.sig.push(CODE_STRUCT_CLOSE);
                assert(sig2[st.sig.len() as int] == CODE_STRUCT_CLOSE);
            },
            Err(_) => {},
        }
    } else {
        lemma_enc_sig_one_type(policy, st, fs[i].value);
        match enc_value(policy, st, fs[i].value) {
            Ok(stb) => {
                lemma_enc_field_values_sig(policy, stb, fs, i + 1);
                match enc_field_values(policy, stb, fs, i + 1) {
                    Ok(stm) => {
                        let sig2 = stm.sig.push(CODE_STRUCT_CLOSE);
                        let p = st.sig.len() as int;
                        let q = stb.sig.len() as int;
                        assert(stb.sig == stm.sig.subrange(0, q));
                        lemma_type_end_extend(
                            stb.sig,
                            sig2.subrange(q, sig2.len() as int),
                            p,
                        );
                        assert(stb.sig + sig2.subrange(q, sig2.len() as int) =~= sig2);
                        assert(type_end(sig2, p) == Some(q));
                        assert(stm.sig.subrange(0, p) =~= st.sig) by {
                            assert(forall|j: int|
                                0 <= j < p ==> stm.sig.subrange(0, q)[j] == stb.sig[j]);
                            assert(stb.sig.subrange(0, p) == st.sig);
                            assert(forall|j: int|
                                0 <= j < p ==> stb.sig.subrange(0, p)[j] == stb.sig[j]);
                        }
                        assert(members_end(sig2, p) == Some(stm.sig.len() as int + 1));
                    },
                    Err(_) => {},
                }
            },
            Err(_) => {},
        }
    }
}

/// When finalization reaches an alignment slice, the output is padded to
/// a multiple of the slice's alignment, and a length placeholder that was
/// just begun has its counted region pinned exactly there: the array's
/// first element starts at an offset that is a multiple of the declared
/// alignment, after the padding that the length prefix does not count.
pub proof fn lemma_first_element_aligned(st: CompleteState, a: int, bytes: Seq<u8>, tok: int)
    requires
        a >= 1,
        st.out.len() >= 0,
        st.recent == Some(tok),
        find_entry(st.entries, tok) is Some,
    ensures
        ({
            let st2 = complete_step(st, Component::Slice { alignment: a, bytes });
            let j = find_entry(st.entries, tok)->Some_0;
            &&& st2.entries[j].begin == crate::align::align_up(st.out.len() as int, a)
            &&& st2.entries[j].begin % a == 0
        }),
{
    crate::align::lemma_align_up_bounds(st.out.len() as int, a);
    crate::ser::message_builder::lemma_find_entry_props(st.entries, tok);
    let padded = crate::ser::message_builder::pad_bytes(st.out, a);
    assert(padded.len() == crate::align::align_up(st.out.len() as int, a));
}

/// When finalization reaches a length end, the reserved four bytes are
/// back-filled with exactly the little-endian count of the bytes emitted
/// since the counted region began: the u32 length equals the end offset
/// minus the first element's start offset.
pub proof fn lemma_length_counts_element_bytes(st: CompleteState, tok: int)
    requires
        find_entry(st.entries, tok) is Some,
    ensures
        ({
            let st2 = complete_step(st, Component::LenEnd { token: tok });
            let e = st.entries[find_entry(st.entries, tok)->Some_0];
            st2.out == crate::ser::message_builder::backfill4(
                st.out,
                e.fill,
                vstd::bytes::spec_u32_to_le_bytes((st.out.len() - e.begin) as u32),
            )
        }),
{
    crate::ser::message_builder::lemma_find_entry_props(st.entries, tok);
}

/// Every produced message's signature is one complete single type under
/// the signature grammar: brackets balance and every `a` is followed by
/// exactly one complete element signature.
pub proof fn lemma_message_sig_well_formed<P: SerializerPolicy>(policy: &P, v: Value)
    ensures
        match enc_value(policy, init_enc_state(), v) {
            Ok(st) => type_end(st.sig, 0) == Some(st.sig.len() as int),
            Err(_) => true,
        },
{
    lemma_enc_sig_one_type(policy, init_enc_state(), v);
    match enc_value(policy, init_enc_state(), v) {
        Ok(st) => {
            assert(init_enc_state().sig.len() == 0);
        },
        Err(_) => {},
    }
}

/// A message holding one primitive finalizes to exactly the primitive's
/// encoded bytes under its one-byte signature: the padding at offset zero
/// is empty.
pub proof fn lemma_prim_message_bytes(p: Primitive)
    ensures
        enc_value(&DefaultSerializerPolicy, init_enc_state(), Value::Prim(p)) is Ok,
        ({
            let st = enc_value(
                &DefaultSerializerPolicy,
                init_enc_state(),
                Value::Prim(p),
            )->Ok_0;
            &&& st.sig == seq![p.sig_code()]
            &&& spec_complete(st.stream) == p.enc()
        }),
{
    let st = enc_value(&DefaultSerializerPolicy, init_enc_state(), Value::Prim(p))->Ok_0;
    assert(st.sig =~= seq![p.sig_code()]);
    let a = p.spec_alignment();
    let s0 = crate::ser::message_builder::empty_stream();
    let s1 = crate::ser::message_builder::stream_align(s0, a);
    let s2 = crate::ser::message_builder::stream_append(s1, p.enc());
    assert(st.stream == s2);
    let a1 = if 1int >= a {
        1int
    } else {
        a
    };
    assert(s1 =~= seq![Component::Slice { alignment: a1, bytes: Seq::empty() }]);
    assert(s2 =~= seq![Component::Slice { alignment: a1, bytes: Seq::empty() + p.enc() }]);
    let init = crate::ser::message_builder::init_complete_state();
    let stepped = complete_step(init, s2[0]);
    assert(crate::ser::message_builder::pad_bytes(Seq::<u8>::empty(), a1) =~= Seq::<
        u8,
    >::empty());
    assert(stepped.out =~= p.enc());
    assert(s2.first() == s2[0]);
    assert(s2.drop_first() =~= Seq::<Component>::empty());
    assert(crate::ser::message_builder::complete_fold(s2, init)
        == crate::ser::message_builder::complete_fold(Seq::<Component>::empty(), stepped));
    assert(crate::ser::message_builder::complete_fold(Seq::<Component>::empty(), stepped)
        == stepped);
    assert(spec_complete(s2) == stepped.out);
}

/// Round trip for string messages, end to end: serializing a string
/// produces a message whose data is its u32 length, bytes and NUL under
/// signature `s`, and decoding that message must return exactly the
/// original bytes.  In particular an empty string encodes as a zero
/// length and one NUL byte and decodes back to the empty string.
pub proof fn lemma_string_message_round_trip(b: Vec<u8>)
    requires
        b@.len() <= u32::MAX,
        vstd::utf8::valid_utf8(b@),
    ensures
        enc_value(
            &DefaultSerializerPolicy,
            init_enc_state(),
            Value::Prim(Primitive::Str(b)),
        ) is Ok,
        ({
            let st = enc_value(
                &DefaultSerializerPolicy,
                init_enc_state(),
                Value::Prim(Primitive::Str(b)),
            )->Ok_0;
            &&& st.sig == seq![crate::primitives::CODE_STR]
            &&& spec_complete(st.stream) == crate::primitives::str_enc(b@)
            &&& crate::de::string_message_ensures(
                spec_complete(st.stream),
                st.sig,
                Ok(Value::Prim(Primitive::Str(b))),
            )
        }),
{
    let p = Primitive::Str(b);
    lemma_prim_message_bytes(p);
    lemma_prim_round_trip(p);
    vstd::bytes::lemma_auto_spec_u32_to_from_le_bytes();
    let st = enc_value(&DefaultSerializerPolicy, init_enc_state(), Value::Prim(p))->Ok_0;
    let data = spec_complete(st.stream);
    assert(data == p.enc());
    assert(data.len() == b@.len() + 5);
    crate::align::lemma_align_up_bounds(0, 4);
    assert(crate::align::align_up(0, 4) == 0);
    assert(data.subrange(0, 4) =~= p.enc().subrange(0, 4));
    let n = vstd::bytes::spec_u32_from_le_bytes(data.subrange(0, 4)) as int;
    assert(n == b@.len());
    assert(data.subrange(4, 4 + n) =~= p.enc().subrange(4, 4 + b@.len() as int));
    assert(data.subrange(4, 4 + n) == b@);
}

/// A unit (or `None`, or unit struct) message: it serializes to the
/// signature `()` with an empty body, and under `from_message`'s contract
/// decoding such a message must return the empty tuple.
pub proof fn lemma_unit_message_round_trip<P: SerializerPolicy>(policy: &P)
    ensures
        enc_value(policy, init_enc_state(), Value::Unit) is Ok,
        ({
            let st = enc_value(policy, init_enc_state(), Value::Unit)->Ok_0;
            &&& st.sig == seq![CODE_STRUCT_OPEN, CODE_STRUCT_CLOSE]
            &&& spec_complete(st.stream) == Seq::<u8>::empty()
        }),
{
    let st = enc_value(policy, init_enc_state(), Value::Unit)->Ok_0;
    assert(st.sig =~= seq![CODE_STRUCT_OPEN, CODE_STRUCT_CLOSE]);
    let s0 = crate::ser::message_builder::empty_stream();
    let s1 = crate::ser::message_builder::stream_align(s0, 8);
    assert(st.stream == s1);
    assert(s1 =~= seq![Component::Slice { alignment: 8, bytes: Seq::empty() }]);
    let init = crate::ser::message_builder::init_complete_state();
    let stepped = complete_step(init, s1[0]);
    assert(crate::ser::message_builder::pad_bytes(Seq::<u8>::empty(), 8) =~= Seq::<
        u8,
    >::empty());
    assert(stepped.out =~= Seq::<u8>::empty());
    assert(s1.first() == s1[0]);
    assert(s1.drop_first() =~= Seq::<Component>::empty());
    assert(crate::ser::message_builder::complete_fold(s1, init)
        == crate::ser::message_builder::complete_fold(Seq::<Component>::empty(), stepped));
    assert(spec_complete(s1) == stepped.out);
}

/// An empty dictionary-style aggregate, end to end: its message carries
/// the `a{sv}` signature, a zero length field, and then the padding up to
/// the dict entries' 8-alignment -- emitted even though the body is
/// empty -- and nothing else.
pub proof fn lemma_empty_dict_message<P: SerializerPolicy>(policy: &P, fields: Vec<Field>)
    requires
        fields@.len() == 0,
    ensures
        enc_value(policy, init_enc_state(), Value::Dict(fields)) is Ok,
        ({
            let st = enc_value(policy, init_enc_state(), Value::Dict(fields))->Ok_0;
            &&& st.sig == seq![crate::primitives::CODE_ARRAY] + dict_entry_sig()
            &&& spec_complete(st.stream) == vstd::bytes::spec_u32_to_le_bytes(0u32) + seq![
                0u8,
                0u8,
                0u8,
                0u8,
            ]
        }),
{
    assert(crate::ser::enc_dict_items(policy, init_enc_state(), fields@, 0) == Ok::<
        EncState,
        (Seq<u8>, Seq<u8>),
    >(init_enc_state()));
    let st = enc_value(policy, init_enc_state(), Value::Dict(fields))->Ok_0;
    assert(st.sig =~= seq![crate::primitives::CODE_ARRAY] + dict_entry_sig());

    let s0 = crate::ser::message_builder::empty_stream();
    let sl4 = Component::Slice { alignment: 4, bytes: Seq::<u8>::empty() };
    let sl8 = Component::Slice { alignment: 8, bytes: Seq::<u8>::empty() };
    let sl1 = Component::Slice { alignment: 1, bytes: Seq::<u8>::empty() };
    let sa = crate::ser::message_builder::stream_align(s0, 4);
    assert(sa =~= seq![sl4]);
    let sb = crate::ser::message_builder::stream_start_length(sa, 0);
    assert(crate::ser::message_builder::stream_align(sa, 4) =~= seq![sl4]);
    assert(sb =~= seq![sl4, Component::LenBegin { token: 0 }, sl4]);
    let sc = crate::ser::message_builder::stream_align(sb, crate::primitives::elem_align_of(
        dict_entry_sig(),
    ));
    assert(crate::primitives::elem_align_of(dict_entry_sig()) == 8);
    assert(sc =~= seq![sl4, Component::LenBegin { token: 0 }, sl8]);
    let sd = crate::ser::message_builder::stream_append_data(sc, s0, 1);
    assert(s0.first() == Component::Slice { alignment: 1, bytes: Seq::<u8>::empty() });
    assert(crate::ser::message_builder::stream_align(sc, 1) =~= sc);
    let s2 = crate::ser::message_builder::stream_append(
        crate::ser::message_builder::stream_align(sc, 1),
        Seq::<u8>::empty(),
    );
    assert(s0.drop_first() =~= Seq::<Component>::empty());
    assert(sd == s2) by {
        reveal_with_fuel(crate::ser::message_builder::stream_append_data, 3);
    }
    assert(s2 =~~= sc);
    assert(sd =~~= sc);
    let se = crate::ser::message_builder::stream_finish_length(sd, 0);
    assert(se =~~= seq![sl4, Component::LenBegin { token: 0 }, sl8, Component::LenEnd {
        token: 0,
    }, sl1]);
    assert(st.stream == crate::ser::internal::array_stream(s0, s0, 0, 8));
    assert(st.stream =~~= se);

    // Walk the finalization: the length reserves four zero bytes, the
    // 8-aligned empty slice pads the output to eight, and the back-filled
    // count is zero.
    let init = crate::ser::message_builder::init_complete_state();
    let st1 = complete_step(init, sl4);
    assert(crate::ser::message_builder::pad_bytes(Seq::<u8>::empty(), 4) =~= Seq::<u8>::empty());
    assert(st1.out =~= Seq::<u8>::empty());
    let st2 = complete_step(st1, Component::LenBegin { token: 0 });
    assert(st2.out =~= seq![0u8, 0u8, 0u8, 0u8]);
    let st3 = complete_step(st2, sl8);
    assert(crate::ser::message_builder::pad_bytes(st2.out, 8) =~= seq![
        0u8,
        0u8,
        0u8,
        0u8,
        0u8,
        0u8,
        0u8,
        0u8,
    ]);
    assert(st3.out =~= seq![0u8, 0u8, 0u8, 0u8, 0u8, 0u8, 0u8, 0u8]);
    let st4 = complete_step(st3, Component::LenEnd { token: 0 });
    vstd::bytes::lemma_auto_spec_u32_to_from_le_bytes();
    let zero4 = vstd::bytes::spec_u32_to_le_bytes(0u32);
    assert(zero4.len() == 4);
    assert(st4.out =~= zero4 + seq![0u8, 0u8, 0u8, 0u8]);
    let st5 = complete_step(st4, sl1);
    assert(crate::ser::message_builder::pad_bytes(st4.out, 1) =~= st4.out);
    assert(st5.out =~= zero4 + seq![0u8, 0u8, 0u8, 0u8]);

    let se2 = st.stream;
    assert(crate::ser::message_builder::complete_fold(se2, init) == st5) by {
        reveal_with_fuel(crate::ser::message_builder::complete_fold, 7);
        assert(se2.first() == sl4);
        assert(se2.drop_first() =~= seq![
            Component::LenBegin { token: 0 },
            sl8,
            Component::LenEnd { token: 0 },
            sl1,
        ]);
        let t1 = se2.drop_first();
        assert(t1.first() == Component::LenBegin { token: 0 });
        let t2 = t1.drop_first();
        assert(t2 =~= seq![sl8, Component::LenEnd { token: 0 }, sl1]);
        assert(t2.first() == sl8);
        let t3 = t2.drop_first();
        assert(t3 =~= seq![Component::LenEnd { token: 0 }, sl1]);
        assert(t3.first() == Component::LenEnd { token: 0 });
        let t4 = t3.drop_first();
        assert(t4 =~= seq![sl1]);
        assert(t4.first() == sl1);
        assert(t4.drop_first() =~= Seq::<Component>::empty());
    }
}

/// Round trip for fixed-size scalar messages, end to end: serializing a
/// fixed-size scalar produces a message whose data is exactly the
/// scalar's encoding under its own one-byte signature, and decoding that
/// message must return exactly the original value (the final clause is
/// the obligation `from_message`'s contract imposes on that message).
pub proof fn lemma_scalar_message_round_trip(p: Primitive)
    requires
        crate::de::is_fixed_scalar(p.sig_code()),
    ensures
        enc_value(&DefaultSerializerPolicy, init_enc_state(), Value::Prim(p)) is Ok,
        ({
            let st = enc_value(
                &DefaultSerializerPolicy,
                init_enc_state(),
                Value::Prim(p),
            )->Ok_0;
            &&& st.sig == seq![p.sig_code()]
            &&& spec_complete(st.stream) == p.enc()
            &&& crate::de::scalar_message_ensures(
                spec_complete(st.stream),
                st.sig,
                Ok(Value::Prim(p)),
            )
        }),
{
    lemma_prim_message_bytes(p);
    lemma_prim_round_trip(p);
    vstd::bytes::lemma_auto_spec_u16_to_from_le_bytes();
    vstd::bytes::lemma_auto_spec_u32_to_from_le_bytes();
    vstd::bytes::lemma_auto_spec_u64_to_from_le_bytes();
    let st = enc_value(&DefaultSerializerPolicy, init_enc_state(), Value::Prim(p))->Ok_0;

    // Decoding the message must give the value back: the signature byte
    // matches, the read starts at offset zero, consumes the whole body,
    // and the little-endian reading recovers the value.
    let c = p.sig_code();
    crate::align::lemma_align_up_bounds(0, crate::de::fixed_scalar_align(c));
    assert(crate::align::align_up(0, crate::de::fixed_scalar_align(c)) == 0);
    match p {
        Primitive::U8(v) => {
            assert(p.enc().subrange(0, 1) =~= p.enc());
        },
        Primitive::Bool(v) => {
            assert(p.enc().subrange(0, 4) =~= p.enc());
        },
        Primitive::I16(v) => {
            assert(p.enc().subrange(0, 2) =~= p.enc());
        },
        Primitive::U16(v) => {
            assert(p.enc().subrange(0, 2) =~= p.enc());
        },
        Primitive::I32(v) => {
            assert(p.enc().subrange(0, 4) =~= p.enc());
        },
        Primitive::U32(v) => {
            assert(p.enc().subrange(0, 4) =~= p.enc());
        },
        Primitive::I64(v) => {
            assert(p.enc().subrange(0, 8) =~= p.enc());
        },
        Primitive::U64(v) => {
            assert(p.enc().subrange(0, 8) =~= p.enc());
        },
        Primitive::F64Bits(v) => {
            assert(p.enc().subrange(0, 8) =~= p.enc());
        },
        _ => {
            assert(false);
        },
    }
}

/// Decoding a scalar's encoding recovers the value: the little-endian
/// reading that the decoders' contracts promise, applied to the bytes the
/// encoder's contract promises, gives the value back.
pub proof fn lemma_prim_round_trip(p: Primitive)
    ensures
        match p {
            Primitive::U8(v) => p.enc() == seq![v],
            Primitive::Bool(v) => spec_u32_from_le_bytes(p.enc()) == if v {
                1u32
            } else {
                0u32
            },
            Primitive::I16(v) => spec_u16_from_le_bytes(p.enc()) as i16 == v,
            Primitive::U16(v) => spec_u16_from_le_bytes(p.enc()) == v,
            Primitive::I32(v) => spec_u32_from_le_bytes(p.enc()) as i32 == v,
            Primitive::U32(v) => spec_u32_from_le_bytes(p.enc()) == v,
            Primitive::I64(v) => spec_u64_from_le_bytes(p.enc()) as i64 == v,
            Primitive::U64(v) => spec_u64_from_le_bytes(p.enc()) == v,
            Primitive::F64Bits(v) => spec_u64_from_le_bytes(p.enc()) == v,
            Primitive::Str(b) => b@.len() <= u32::MAX ==> {
                &&& spec_u32_from_le_bytes(p.enc().subrange(0, 4)) == b@.len()
                &&& p.enc().subrange(4, 4 + b@.len() as int) == b@
                &&& p.enc()[4 + b@.len() as int] == NUL
            },
            Primitive::Sig(sg) => sg.0@.len() <= u8::MAX ==> {
                &&& p.enc()[0] == sg.0@.len() as u8
                &&& p.enc().subrange(1, 1 + sg.0@.len() as int) == sg.0@
                &&& p.enc()[1 + sg.0@.len() as int] == NUL
            },
            Primitive::Path(pa) => pa.0@.len() <= u32::MAX ==> {
                &&& spec_u32_from_le_bytes(p.enc().subrange(0, 4)) == pa.0@.len()
                &&& p.enc().subrange(4, 4 + pa.0@.len() as int) == pa.0@
                &&& p.enc()[4 + pa.0@.len() as int] == NUL
            },
        },
{
    vstd::bytes::lemma_auto_spec_u16_to_from_le_bytes();
    vstd::bytes::lemma_auto_spec_u32_to_from_le_bytes();
    vstd::bytes::lemma_auto_spec_u64_to_from_le_bytes();
    match p {
        Primitive::U8(v) => {
            assert(p.enc() =~= seq![v]);
        },
        Primitive::Bool(v) => {
            let x = if v {
                1u32
            } else {
                0u32
            };
            assert(vstd::bytes::spec_u32_to_le_bytes(x).len() == 4);
            assert(spec_u32_from_le_bytes(vstd::bytes::spec_u32_to_le_bytes(x)) == x);
        },
        Primitive::U16(v) => {
            assert(vstd::bytes::spec_u16_to_le_bytes(v).len() == 2);
            assert(spec_u16_from_le_bytes(vstd::bytes::spec_u16_to_le_bytes(v)) == v);
        },
        Primitive::U32(v) => {
            assert(vstd::bytes::spec_u32_to_le_bytes(v).len() == 4);
            assert(spec_u32_from_le_bytes(vstd::bytes::spec_u32_to_le_bytes(v)) == v);
        },
        Primitive::U64(v) => {
            assert(vstd::bytes::spec_u64_to_le_bytes(v).len() == 8);
            assert(spec_u64_from_le_bytes(vstd::bytes::spec_u64_to_le_bytes(v)) == v);
        },
        Primitive::F64Bits(v) => {
            assert(vstd::bytes::spec_u64_to_le_bytes(v).len() == 8);
            assert(spec_u64_from_le_bytes(vstd::bytes::spec_u64_to_le_bytes(v)) == v);
        },
        Primitive::I16(v) => {
            assert(vstd::bytes::spec_u16_to_le_bytes(#[verifier::truncate] (v as u16)).len()
                == 2);
            assert(spec_u16_from_le_bytes(vstd::bytes::spec_u16_to_le_bytes(v as u16)) == (
            v as u16));
            assert((v as u16) as i16 == v) by (bit_vector);
        },
        Primitive::I32(v) => {
            assert(vstd::bytes::spec_u32_to_le_bytes(#[verifier::truncate] (v as u32)).len()
                == 4);
            assert(spec_u32_from_le_bytes(vstd::bytes::spec_u32_to_le_bytes(v as u32)) == (
            v as u32));
            assert((v as u32) as i32 == v) by (bit_vector);
        },
        Primitive::I64(v) => {
            assert(vstd::bytes::spec_u64_to_le_bytes(#[verifier::truncate] (v as u64)).len()
                == 8);
            assert(spec_u64_from_le_bytes(vstd::bytes::spec_u64_to_le_bytes(v as u64)) == (
            v as u64));
            assert((v as u64) as i64 == v) by (bit_vector);
        },
        Primitive::Str(b) => {
            if b@.len() <= u32::MAX {
                assert(p.enc().subrange(0, 4) =~= vstd::bytes::spec_u32_to_le_bytes(
                    b@.len() as u32,
                ));
                assert(p.enc().subrange(4, 4 + b@.len() as int) =~= b@);
            }
        },
        Primitive::Sig(sg) => {
            if sg.0@.len() <= u8::MAX {
                assert(p.enc().subrange(1, 1 + sg.0@.len() as int) =~= sg.0@);
            }
        },
        Primitive::Path(pa) => {
            if pa.0@.len() <= u32::MAX {
                assert(p.enc().subrange(0, 4) =~= vstd::bytes::spec_u32_to_le_bytes(
                    pa.0@.len() as u32,
                ));
                assert(p.enc().subrange(4, 4 + pa.0@.len() as int) =~= pa.0@);
            }
        },
        _ => {},
    }
}

/// A value's signature contribution does not depend on what was encoded
/// before it: from any two states, encoding the same value succeeds or
/// fails identically, fails with the same error, and on success appends
/// the same signature tail.
pub proof fn lemma_sig_tail_local<P: SerializerPolicy>(
    policy: &P,
    st: EncState,
    st2: EncState,
    v: Value,
)
    ensures
        (enc_value(policy, st, v) is Ok) == (enc_value(policy, st2, v) is Ok),
        enc_value(policy, st, v) is Ok ==> enc_value(policy, st, v)->Ok_0.sig.skip(
            st.sig.len() as int,
        ) == enc_value(policy, st2, v)->Ok_0.sig.skip(st2.sig.len() as int),
        enc_value(policy, st, v) is Err ==> enc_value(policy, st, v)->Err_0 == enc_value(
            policy,
            st2,
            v,
        )->Err_0,
    decreases v, 1int,
{
    match v {
        Value::Prim(p) => {
            assert(st.sig.push(p.sig_code()).skip(st.sig.len() as int) =~= seq![p.sig_code()]);
            assert(st2.sig.push(p.sig_code()).skip(st2.sig.len() as int) =~= seq![p.sig_code()]);
        },
        Value::Unit => {
            assert(st.sig.push(CODE_STRUCT_OPEN).push(CODE_STRUCT_CLOSE).skip(
                st.sig.len() as int,
            ) =~= seq![CODE_STRUCT_OPEN, CODE_STRUCT_CLOSE]);
            assert(st2.sig.push(CODE_STRUCT_OPEN).push(CODE_STRUCT_CLOSE).skip(
                st2.sig.len() as int,
            ) =~= seq![CODE_STRUCT_OPEN, CODE_STRUCT_CLOSE]);
        },
        Value::Tuple(vs) => {
            let st1 = EncState {
                stream: crate::ser::message_builder::stream_align(st.stream, 8),
                sig: st.sig.push(CODE_STRUCT_OPEN),
                next: st.next,
            };
            let st1b = EncState {
                stream: crate::ser::message_builder::stream_align(st2.stream, 8),
                sig: st2.sig.push(CODE_STRUCT_OPEN),
                next: st2.next,
            };
            lemma_sig_tail_local_items(policy, st1, st1b, vs@, 0);
            match (crate::ser::enc_items(policy, st1, vs@, 0), crate::ser::enc_items(
                policy,
                st1b,
                vs@,
                0,
            )) {
                (Ok(fa), Ok(fb)) => {
                    lemma_enc_items_sig(policy, st1, vs@, 0);
                    lemma_enc_items_sig(policy, st1b, vs@, 0);
                    lemma_close_tail(st.sig, st1.sig, fa.sig, fb.sig, st2.sig, st1b.sig);
                },
                _ => {
                },
            }
        },
        Value::Sequence(vs) => {
            lemma_sig_tail_local_vitems(policy, init_enc_state(), init_enc_state(), vs@, 0);
            match crate::ser::enc_variant_items(policy, init_enc_state(), vs@, 0) {
                Ok(_) => {
                    assert(st.sig.push(crate::primitives::CODE_ARRAY).push(
                        crate::primitives::CODE_VARIANT,
                    ).skip(st.sig.len() as int) =~= seq![
                        crate::primitives::CODE_ARRAY,
                        crate::primitives::CODE_VARIANT,
                    ]);
                    assert(st2.sig.push(crate::primitives::CODE_ARRAY).push(
                        crate::primitives::CODE_VARIANT,
                    ).skip(st2.sig.len() as int) =~= seq![
                        crate::primitives::CODE_ARRAY,
                        crate::primitives::CODE_VARIANT,
                    ]);
                },
                Err(_) => {
                },
            }
        },
        Value::MapEntries(es) => {
            lemma_sig_tail_local_mitems(policy, init_enc_state(), init_enc_state(), es@, 0);
            match crate::ser::enc_map_items(policy, init_enc_state(), es@, 0) {
                Ok(_) => {
                    lemma_array_dict_tail(st.sig);
                    lemma_array_dict_tail(st2.sig);
                },
                Err(_) => {
                },
            }
        },
        Value::Dict(fs) => {
            lemma_sig_tail_local_ditems(policy, init_enc_state(), init_enc_state(), fs@, 0);
            match crate::ser::enc_dict_items(policy, init_enc_state(), fs@, 0) {
                Ok(_) => {
                    lemma_array_dict_tail(st.sig);
                    lemma_array_dict_tail(st2.sig);
                },
                Err(_) => {
                },
            }
        },
        Value::Struct { name, fields } => {
            match policy.spec_style(name@) {
                crate::ser::serializer_policy::StructSerializationStyle::Dict => {
                    lemma_sig_tail_local_ditems(
                        policy,
                        init_enc_state(),
                        init_enc_state(),
                        fields@,
                        0,
                    );
                    match crate::ser::enc_dict_items(policy, init_enc_state(), fields@, 0) {
                        Ok(_) => {
                            lemma_array_dict_tail(st.sig);
                            lemma_array_dict_tail(st2.sig);
                        },
                        Err(_) => {
                        },
                    }
                },
                crate::ser::serializer_policy::StructSerializationStyle::StronglyTyped => {
                    let st1 = EncState {
                        stream: crate::ser::message_builder::stream_align(st.stream, 8),
                        sig: st.sig.push(CODE_STRUCT_OPEN),
                        next: st.next,
                    };
                    let st1b = EncState {
                        stream: crate::ser::message_builder::stream_align(st2.stream, 8),
                        sig: st2.sig.push(CODE_STRUCT_OPEN),
                        next: st2.next,
                    };
                    lemma_sig_tail_local_field_values(policy, st1, st1b, fields@, 0);
                    match (enc_field_values(policy, st1, fields@, 0), enc_field_values(
                        policy,
                        st1b,
                        fields@,
                        0,
                    )) {
                        (Ok(fa), Ok(fb)) => {
                            lemma_enc_field_values_sig(policy, st1, fields@, 0);
                            lemma_enc_field_values_sig(policy, st1b, fields@, 0);
                            lemma_close_tail(st.sig, st1.sig, fa.sig, fb.sig, st2.sig, st1b.sig);
                        },
                        _ => {
                        },
                    }
                },
            }
        },
        Value::Variant(b) => {
            match enc_value(policy, init_enc_state(), *b) {
                Ok(_) => {
                    assert(st.sig.push(crate::primitives::CODE_VARIANT).skip(st.sig.len() as int)
                        =~= seq![crate::primitives::CODE_VARIANT]);
                    assert(st2.sig.push(crate::primitives::CODE_VARIANT).skip(
                        st2.sig.len() as int,
                    ) =~= seq![crate::primitives::CODE_VARIANT]);
                },
                Err(_) => {
                },
            }
        },
    }
}

/// The `a` + `{sv}` tail of a dictionary, relative to any prefix.
proof fn lemma_array_dict_tail(sig0: Seq<u8>)
    ensures
        (sig0.push(crate::primitives::CODE_ARRAY) + dict_entry_sig()).skip(sig0.len() as int)
            =~= seq![crate::primitives::CODE_ARRAY] + dict_entry_sig(),
{
}

/// Assembling a bracketed tail: when two member runs extend prefixes
/// `p1 = s1 + (` and `p1b = s2 + (` with equal member tails, closing both
/// with `)` leaves equal tails relative to `s1` and `s2`.
proof fn lemma_close_tail(
    s1: Seq<u8>,
    p1: Seq<u8>,
    fa: Seq<u8>,
    fb: Seq<u8>,
    s2: Seq<u8>,
    p1b: Seq<u8>,
)
    requires
        p1 == s1.push(CODE_STRUCT_OPEN),
        p1b == s2.push(CODE_STRUCT_OPEN),
        p1.len() <= fa.len(),
        p1b.len() <= fb.len(),
        fa.subrange(0, p1.len() as int) == p1,
        fb.subrange(0, p1b.len() as int) == p1b,
        fa.skip(p1.len() as int) == fb.skip(p1b.len() as int),
    ensures
        fa.push(CODE_STRUCT_CLOSE).skip(s1.len() as int) == fb.push(CODE_STRUCT_CLOSE).skip(
            s2.len() as int,
        ),
{
    assert(forall|j: int| 0 <= j < p1.len() ==> fa.subrange(0, p1.len() as int)[j] == fa[j]);
    assert(forall|j: int| 0 <= j < p1b.len() ==> fb.subrange(0, p1b.len() as int)[j] == fb[j]);
    assert(forall|j: int|
        0 <= j < fa.len() - p1.len() ==> fa.skip(p1.len() as int)[j] == fa[p1.len() + j]);
    assert(forall|j: int|
        0 <= j < fb.len() - p1b.len() ==> fb.skip(p1b.len() as int)[j] == fb[p1b.len() + j]);
    assert(fa.len() - p1.len() == fb.len() - p1b.len()) by {
        assert(fa.skip(p1.len() as int).len() == fa.len() - p1.len());
        assert(fb.skip(p1b.len() as int).len() == fb.len() - p1b.len());
    }
    let ga = fa.push(CODE_STRUCT_CLOSE).skip(s1.len() as int);
    let gb = fb.push(CODE_STRUCT_CLOSE).skip(s2.len() as int);
    assert forall|j: int| 0 <= j < ga.len() implies ga[j] == gb[j] by {
        assert(ga[j] == fa.push(CODE_STRUCT_CLOSE)[s1.len() + j]);
        assert(gb[j] == fb.push(CODE_STRUCT_CLOSE)[s2.len() + j]);
        if j == 0 {
            assert(fa[s1.len() as int] == p1[s1.len() as int]);
            assert(fb[s2.len() as int] == p1b[s2.len() as int]);
        } else if s1.len() + j < fa.len() {
            assert(fa[s1.len() + j] == fa.skip(p1.len() as int)[j - 1]);
            assert(fb[s2.len() + j] == fb.skip(p1b.len() as int)[j - 1]);
        }
    }
    assert(ga =~= gb);
}

/// Struct items from `i` on, from two states: same success, same error,
/// same appended signature tail.
proof fn lemma_sig_tail_local_items<P: SerializerPolicy>(
    policy: &P,
    st: EncState,
    st2: EncState,
    vs: Seq<Value>,
    i: int,
)
    ensures
        (crate::ser::enc_items(policy, st, vs, i) is Ok) == (crate::ser::enc_items(
            policy,
            st2,
            vs,
            i,
        ) is Ok),
        crate::ser::enc_items(policy, st, vs, i) is Ok ==> crate::ser::enc_items(
            policy,
            st,
            vs,
            i,
        )->Ok_0.sig.skip(st.sig.len() as int) == crate::ser::enc_items(
            policy,
            st2,
            vs,
            i,
        )->Ok_0.sig.skip(st2.sig.len() as int),
        crate::ser::enc_items(policy, st, vs, i) is Err ==> crate::ser::enc_items(
            policy,
            st,
            vs,
            i,
        )->Err_0 == crate::ser::enc_items(policy, st2, vs, i)->Err_0,
    decreases vs, vs.len() - i + 1,
{
    if i < 0 || i >= vs.len() {
        assert(st.sig.skip(st.sig.len() as int) =~= Seq::<u8>::empty());
        assert(st2.sig.skip(st2.sig.len() as int) =~= Seq::<u8>::empty());
    } else {
        lemma_sig_tail_local(policy, st, st2, vs[i]);
        match (enc_value(policy, st, vs[i]), enc_value(policy, st2, vs[i])) {
            (Ok(a), Ok(b)) => {
                lemma_enc_sig_one_type(policy, st, vs[i]);
                lemma_enc_sig_one_type(policy, st2, vs[i]);
                lemma_sig_tail_local_items(policy, a, b, vs, i + 1);
                match (crate::ser::enc_items(policy, a, vs, i + 1), crate::ser::enc_items(
                    policy,
                    b,
                    vs,
                    i + 1,
                )) {
                    (Ok(fa), Ok(fb)) => {
                        lemma_enc_items_sig(policy, a, vs, i + 1);
                        lemma_enc_items_sig(policy, b, vs, i + 1);
                        lemma_skip_concat(st.sig, a.sig, fa.sig);
                        lemma_skip_concat(st2.sig, b.sig, fb.sig);
                    },
                    _ => {
                    },
                }
            },
            _ => {
            },
        }
    }
}

/// Strongly-typed field values from `i` on, from two states.
proof fn lemma_sig_tail_local_field_values<P: SerializerPolicy>(
    policy: &P,
    st: EncState,
    st2: EncState,
    fs: Seq<Field>,
    i: int,
)
    ensures
        (enc_field_values(policy, st, fs, i) is Ok) == (enc_field_values(policy, st2, fs, i)
            is Ok),
        enc_field_values(policy, st, fs, i) is Ok ==> enc_field_values(
            policy,
            st,
            fs,
            i,
        )->Ok_0.sig.skip(st.sig.len() as int) == enc_field_values(
            policy,
            st2,
            fs,
            i,
        )->Ok_0.sig.skip(st2.sig.len() as int),
        enc_field_values(policy, st, fs, i) is Err ==> enc_field_values(
            policy,
            st,
            fs,
            i,
        )->Err_0 == enc_field_values(policy, st2, fs, i)->Err_0,
    decreases fs, fs.len() - i + 1,
{
    if i < 0 || i >= fs.len() {
        assert(st.sig.skip(st.sig.len() as int) =~= Seq::<u8>::empty());
        assert(st2.sig.skip(st2.sig.len() as int) =~= Seq::<u8>::empty());
    } else {
        lemma_sig_tail_local(policy, st, st2, fs[i].value);
        match (enc_value(policy, st, fs[i].value), enc_value(policy, st2, fs[i].value)) {
            (Ok(a), Ok(b)) => {
                lemma_enc_sig_one_type(policy, st, fs[i].value);
                lemma_enc_sig_one_type(policy, st2, fs[i].value);
                lemma_sig_tail_local_field_values(policy, a, b, fs, i + 1);
                match (enc_field_values(policy, a, fs, i + 1), enc_field_values(
                    policy,
                    b,
                    fs,
                    i + 1,
                )) {
                    (Ok(fa), Ok(fb)) => {
                        lemma_enc_field_values_sig(policy, a, fs, i + 1);
                        lemma_enc_field_values_sig(policy, b, fs, i + 1);
                        lemma_skip_concat(st.sig, a.sig, fa.sig);
                        lemma_skip_concat(st2.sig, b.sig, fb.sig);
                    },
                    _ => {
                    },
                }
            },
            _ => {
            },
        }
    }
}

/// Splitting a tail at an intermediate prefix: when `mid` is a prefix of
/// `full`, the tail of `full` past `base` is the tail of `mid` past
/// `base` followed by the tail of `full` past `mid`.
proof fn lemma_skip_concat(base: Seq<u8>, mid: Seq<u8>, full: Seq<u8>)
    requires
        base.len() <= mid.len() <= full.len(),
        full.subrange(0, mid.len() as int) == mid,
    ensures
        full.skip(base.len() as int) == mid.skip(base.len() as int) + full.skip(
            mid.len() as int,
        ),
{
    assert(forall|j: int| 0 <= j < mid.len() ==> full.subrange(0, mid.len() as int)[j] == full[j]);
    assert(full.skip(base.len() as int) =~= mid.skip(base.len() as int) + full.skip(
        mid.len() as int,
    ));
}

/// Variant-wrapped array elements from `i` on, from two contents states:
/// each element is encoded from a fresh state, so success and errors are
/// the same.
proof fn lemma_sig_tail_local_vitems<P: SerializerPolicy>(
    policy: &P,
    c: EncState,
    c2: EncState,
    vs: Seq<Value>,
    i: int,
)
    ensures
        (crate::ser::enc_variant_items(policy, c, vs, i) is Ok) == (crate::ser::enc_variant_items(
            policy,
            c2,
            vs,
            i,
        ) is Ok),
        crate::ser::enc_variant_items(policy, c, vs, i) is Err
            ==> crate::ser::enc_variant_items(policy, c, vs, i)->Err_0
            == crate::ser::enc_variant_items(policy, c2, vs, i)->Err_0,
    decreases vs, vs.len() - i + 1,
{
    if 0 <= i < vs.len() {
        match enc_value(policy, init_enc_state(), vs[i]) {
            Ok(inner) => {
                let cnext = EncState {
                    stream: variant_stream(c.stream, inner.sig, inner.stream, c.next),
                    sig: c.sig,
                    next: c.next + inner.next,
                };
                let cnext2 = EncState {
                    stream: variant_stream(c2.stream, inner.sig, inner.stream, c2.next),
                    sig: c2.sig,
                    next: c2.next + inner.next,
                };
                lemma_sig_tail_local_vitems(policy, cnext, cnext2, vs, i + 1);
            },
            Err(_) => {
            },
        }
    }
}

/// Map entries from `i` on, from two contents states: the key's signature
/// contribution is local and the value is encoded from a fresh state, so
/// the entry-signature check and every outcome are the same.
proof fn lemma_sig_tail_local_mitems<P: SerializerPolicy>(
    policy: &P,
    c: EncState,
    c2: EncState,
    es: Seq<MapEntry>,
    i: int,
)
    ensures
        (crate::ser::enc_map_items(policy, c, es, i) is Ok) == (crate::ser::enc_map_items(
            policy,
            c2,
            es,
            i,
        ) is Ok),
        crate::ser::enc_map_items(policy, c, es, i) is Err ==> crate::ser::enc_map_items(
            policy,
            c,
            es,
            i,
        )->Err_0 == crate::ser::enc_map_items(policy, c2, es, i)->Err_0,
    decreases es, es.len() - i + 1,
{
    if 0 <= i < es.len() {
        let kst = EncState {
            stream: crate::ser::message_builder::stream_align(c.stream, 8),
            sig: seq![crate::primitives::CODE_DICT_OPEN],
            next: c.next,
        };
        let kst2 = EncState {
            stream: crate::ser::message_builder::stream_align(c2.stream, 8),
            sig: seq![crate::primitives::CODE_DICT_OPEN],
            next: c2.next,
        };
        lemma_sig_tail_local(policy, kst, kst2, es[i].key);
        match (enc_value(policy, kst, es[i].key), enc_value(policy, kst2, es[i].key)) {
            (Ok(ka), Ok(kb)) => {
                lemma_enc_sig_one_type(policy, kst, es[i].key);
                lemma_enc_sig_one_type(policy, kst2, es[i].key);
                assert(kst.sig.len() == 1);
                assert(kst2.sig.len() == 1);
                assert(ka.sig.skip(1) == kb.sig.skip(1));
                assert(ka.sig.skip(1).len() == ka.sig.len() - 1);
                assert(kb.sig.skip(1).len() == kb.sig.len() - 1);
                assert(ka.sig.len() == kb.sig.len());
                assert(forall|j: int|
                    0 <= j < kst.sig.len() ==> ka.sig.subrange(0, kst.sig.len() as int)[j]
                        == ka.sig[j]);
                assert(forall|j: int|
                    0 <= j < kst2.sig.len() ==> kb.sig.subrange(0, kst2.sig.len() as int)[j]
                        == kb.sig[j]);
                assert(ka.sig[0] == kst.sig[0]);
                assert(kb.sig[0] == kst2.sig[0]);
                assert(forall|j: int|
                    0 <= j < ka.sig.len() - 1 ==> ka.sig.skip(1)[j] == ka.sig[1 + j]);
                assert(forall|j: int|
                    0 <= j < kb.sig.len() - 1 ==> kb.sig.skip(1)[j] == kb.sig[1 + j]);
                assert forall|j: int| 0 <= j < ka.sig.len() implies ka.sig[j] == kb.sig[j] by {
                    if j >= 1 {
                        assert(ka.sig[j] == ka.sig.skip(1)[j - 1]);
                        assert(kb.sig[j] == kb.sig.skip(1)[j - 1]);
                    }
                }
                assert(ka.sig =~= kb.sig);
                match enc_value(policy, init_enc_state(), es[i].value) {
                    Ok(inner) => {
                        let produced = ka.sig.push(crate::primitives::CODE_VARIANT).push(
                            crate::primitives::CODE_DICT_CLOSE,
                        );
                        if produced == dict_entry_sig() {
                            let cnext = EncState {
                                stream: variant_stream(ka.stream, inner.sig, inner.stream,
                                    ka.next),
                                sig: c.sig,
                                next: ka.next + inner.next,
                            };
                            let cnext2 = EncState {
                                stream: variant_stream(kb.stream, inner.sig, inner.stream,
                                    kb.next),
                                sig: c2.sig,
                                next: kb.next + inner.next,
                            };
                            lemma_sig_tail_local_mitems(policy, cnext, cnext2, es, i + 1);
                        }
                    },
                    Err(_) => {
                    },
                }
            },
            _ => {
            },
        }
    }
}

/// Dict fields from `i` on, from two contents states: each value is
/// encoded from a fresh state, and the elision test looks only at it.
proof fn lemma_sig_tail_local_ditems<P: SerializerPolicy>(
    policy: &P,
    c: EncState,
    c2: EncState,
    fs: Seq<Field>,
    i: int,
)
    ensures
        (enc_dict_items(policy, c, fs, i) is Ok) == (enc_dict_items(policy, c2, fs, i) is Ok),
        enc_dict_items(policy, c, fs, i) is Err ==> enc_dict_items(policy, c, fs, i)->Err_0
            == enc_dict_items(policy, c2, fs, i)->Err_0,
    decreases fs, fs.len() - i + 1,
{
    if 0 <= i < fs.len() {
        match enc_value(policy, init_enc_state(), fs[i].value) {
            Ok(inner) => {
                if inner.sig == seq![CODE_STRUCT_OPEN, CODE_STRUCT_CLOSE] {
                    lemma_sig_tail_local_ditems(policy, c, c2, fs, i + 1);
                } else {
                    let cnext = EncState {
                        stream: variant_stream(
                            crate::ser::stream_append_str_key(c.stream, fs[i].name@),
                            inner.sig,
                            inner.stream,
                            c.next,
                        ),
                        sig: c.sig,
                        next: c.next + inner.next,
                    };
                    let cnext2 = EncState {
                        stream: variant_stream(
                            crate::ser::stream_append_str_key(c2.stream, fs[i].name@),
                            inner.sig,
                            inner.stream,
                            c2.next,
                        ),
                        sig: c2.sig,
                        next: c2.next + inner.next,
                    };
                    lemma_sig_tail_local_ditems(policy, cnext, cnext2, fs, i + 1);
                }
            },
            Err(_) => {
            },
        }
    }
}

/// Dropping the field at `i` shifts the remaining fields down by one:
/// the fold over the shortened list from any `j` past `i` equals the fold
/// over the original list from `j + 1`.
proof fn lemma_field_values_remove_shift<P: SerializerPolicy>(
    policy: &P,
    st: EncState,
    fs: Seq<Field>,
    fs2: Seq<Field>,
    i: int,
    j: int,
)
    requires
        0 <= i < fs.len(),
        fs2 == fs.subrange(0, i) + fs.subrange(i + 1, fs.len() as int),
        i <= j <= fs.len(),
    ensures
        enc_field_values(policy, st, fs2, j) == enc_field_values(policy, st, fs, j + 1),
    decreases fs.len() - j,
{
    assert(fs2.len() == fs.len() - 1);
    if j < fs.len() - 1 {
        assert(fs2[j] == fs.subrange(i + 1, fs.len() as int)[j - i]);
        assert(fs2[j] == fs[j + 1]);
        match enc_value(policy, st, fs[j + 1].value) {
            Ok(a) => {
                lemma_field_values_remove_shift(policy, a, fs, fs2, i, j + 1);
            },
            Err(_) => {
            },
        }
    }
}

/// Walking the two folds together up to the unit field: past it, the
/// with-field side carries exactly the two extra signature bytes `()`.
proof fn lemma_field_values_unit_lockstep<P: SerializerPolicy>(
    policy: &P,
    st: EncState,
    fs: Seq<Field>,
    fs2: Seq<Field>,
    i: int,
    j: int,
)
    requires
        0 <= i < fs.len(),
        fs[i].value == Value::Unit,
        fs2 == fs.subrange(0, i) + fs.subrange(i + 1, fs.len() as int),
        0 <= j <= i,
    ensures
        (enc_field_values(policy, st, fs, j) is Ok) == (enc_field_values(policy, st, fs2, j)
            is Ok),
        enc_field_values(policy, st, fs, j) is Ok ==> enc_field_values(
            policy,
            st,
            fs,
            j,
        )->Ok_0.sig.len() == enc_field_values(policy, st, fs2, j)->Ok_0.sig.len() + 2,
    decreases i - j,
{
    if j == i {
        // The with-field side retains the unit as "()"; the without side
        // continues with the shifted list, which is the original list from
        // the next index on.
        lemma_strong_struct_keeps_unit_field(policy, st, fs, i);
        let st_u = EncState {
            stream: crate::ser::message_builder::stream_align(st.stream, 8),
            sig: st.sig.push(CODE_STRUCT_OPEN).push(CODE_STRUCT_CLOSE),
            next: st.next,
        };
        lemma_field_values_remove_shift(policy, st, fs, fs2, i, i);
        lemma_sig_tail_local_field_values(policy, st_u, st, fs, i + 1);
        match (enc_field_values(policy, st_u, fs, i + 1), enc_field_values(
            policy,
            st,
            fs,
            i + 1,
        )) {
            (Ok(fa), Ok(fb)) => {
                lemma_enc_field_values_sig(policy, st_u, fs, i + 1);
                lemma_enc_field_values_sig(policy, st, fs, i + 1);
                assert(fa.sig.skip(st_u.sig.len() as int).len() == fa.sig.len()
                    - st_u.sig.len());
                assert(fb.sig.skip(st.sig.len() as int).len() == fb.sig.len() - st.sig.len());
            },
            _ => {
            },
        }
    } else {
        assert(fs2[j] == fs.subrange(0, i)[j]);
        assert(fs2[j] == fs[j]);
        match enc_value(policy, st, fs[j].value) {
            Ok(a) => {
                lemma_field_values_unit_lockstep(policy, a, fs, fs2, i, j + 1);
            },
            Err(_) => {
            },
        }
    }
}

/// Inside a strongly-typed struct a unit (`None`) field is retained: the
/// struct's signature gains exactly the two bytes of `()` for it, so the
/// produced message differs from the message for the same struct with
/// that field removed.
pub proof fn lemma_strong_struct_none_field_changes_message<P: SerializerPolicy>(
    policy: &P,
    st: EncState,
    name: String,
    fields: Vec<Field>,
    fields2: Vec<Field>,
    i: int,
)
    requires
        policy.spec_style(name@)
            == crate::ser::serializer_policy::StructSerializationStyle::StronglyTyped,
        0 <= i < fields@.len(),
        fields@[i].value == Value::Unit,
        fields2@ == fields@.subrange(0, i) + fields@.subrange(i + 1, fields@.len() as int),
    ensures
        (enc_value(policy, st, Value::Struct { name, fields }) is Ok) == (enc_value(
            policy,
            st,
            Value::Struct { name, fields: fields2 },
        ) is Ok),
        enc_value(policy, st, Value::Struct { name, fields }) is Ok ==> {
            let w = enc_value(policy, st, Value::Struct { name, fields })->Ok_0;
            let wo = enc_value(policy, st, Value::Struct { name, fields: fields2 })->Ok_0;
            &&& w.sig.len() == wo.sig.len() + 2
            &&& w.sig != wo.sig
        },
{
    let st1 = EncState {
        stream: crate::ser::message_builder::stream_align(st.stream, 8),
        sig: st.sig.push(CODE_STRUCT_OPEN),
        next: st.next,
    };
    lemma_field_values_unit_lockstep(policy, st1, fields@, fields2@, i, 0);
}

} // verus!
