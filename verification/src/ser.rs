//! Serialization: the message builder, the composable sub-serializers, and
//! the policy-driven driver that turns a value into a message.

pub mod internal;
pub mod message_builder;
pub mod serializer_policy;

use vstd::prelude::*;

use crate::error::Error;
use crate::message::Message;
use crate::primitives::{
    elem_align_of, str_enc, Primitive, CODE_ARRAY, CODE_DICT_CLOSE, CODE_DICT_OPEN, CODE_STR,
    CODE_STRUCT_CLOSE, CODE_STRUCT_OPEN, CODE_VARIANT,
};
use crate::value::{Field, MapEntry, Value};
use internal::{
    array_stream, dict_entry_sig, pm_wf, prim_stream, variant_stream, DoneSerializer,
    ReadySerializer,
};
use message_builder::{
    empty_stream, spec_complete, stream_align, stream_total, Component, PendingMessage,
};
use serializer_policy::{DefaultSerializerPolicy, SerializerPolicy, StructSerializationStyle};

verus! {

/// Spec-level image of a pending message: the builder's component stream,
/// the signature so far, and the next length token.
pub struct EncState {
    pub stream: Seq<Component>,
    pub sig: Seq<u8>,
    pub next: int,
}

/// The state a fresh serializer starts in.
pub open spec fn init_enc_state() -> EncState {
    EncState { stream: empty_stream(), sig: Seq::empty(), next: 0 }
}

pub open spec fn enc_state_of(m: PendingMessage) -> EncState {
    EncState { stream: m.builder.stream(), sig: m.signature@, next: m.builder.next_token() }
}

/// Size budget of a value: an upper bound on how much the component
/// stream, the signature, and the token counter can grow while the value
/// is encoded, with room for padding and splicing overhead.
pub open spec fn size_of(v: Value) -> int
    decreases v, 0int,
{
    match v {
        Value::Prim(p) => p.enc().len() as int + 64,
        Value::Unit => 64,
        Value::Tuple(vs) => 128 + size_items(vs@, 0),
        Value::Sequence(vs) => 512 + 2 * vsize_items(vs@, 0),
        Value::MapEntries(es) => 512 + 2 * msize_items(es@, 0),
        Value::Dict(fs) => 512 + 2 * dsize_items(fs@, 0),
        Value::Struct { name, fields } => 1024 + size_items_of_fields(fields@, 0) + 2
            * dsize_items(fields@, 0),
        Value::Variant(b) => 512 + 3 * size_of(*b),
    }
}

/// Remaining budget of struct items from index `i` on.
pub open spec fn size_items(vs: Seq<Value>, i: int) -> int
    decreases vs, vs.len() - i + 1,
{
    if i < 0 || i >= vs.len() {
        0
    } else {
        size_of(vs[i]) + size_items(vs, i + 1)
    }
}

/// Remaining budget of variant-wrapped array elements.
pub open spec fn vsize_items(vs: Seq<Value>, i: int) -> int
    decreases vs, vs.len() - i + 1,
{
    if i < 0 || i >= vs.len() {
        0
    } else {
        3 * size_of(vs[i]) + 512 + vsize_items(vs, i + 1)
    }
}

/// Remaining budget of map entries.
pub open spec fn msize_items(es: Seq<MapEntry>, i: int) -> int
    decreases es, es.len() - i + 1,
{
    if i < 0 || i >= es.len() {
        0
    } else {
        size_of(es[i].key) + 3 * size_of(es[i].value) + 512 + msize_items(es, i + 1)
    }
}

/// Remaining budget of dict fields.
pub open spec fn dsize_items(fs: Seq<Field>, i: int) -> int
    decreases fs, fs.len() - i + 1,
{
    if i < 0 || i >= fs.len() {
        0
    } else {
        3 * size_of(fs[i].value) + fs[i].name@.len() as int + 512 + dsize_items(fs, i + 1)
    }
}

/// Remaining budget of strongly-typed field values.
pub open spec fn size_items_of_fields(fs: Seq<Field>, i: int) -> int
    decreases fs, fs.len() - i + 1,
{
    if i < 0 || i >= fs.len() {
        0
    } else {
        size_of(fs[i].value) + size_items_of_fields(fs, i + 1)
    }
}

pub proof fn lemma_size_nonneg(v: Value)
    ensures
        size_of(v) >= 0,
    decreases v, 0int,
{
    match v {
        Value::Tuple(vs) => lemma_size_items_nonneg(vs@, 0),
        Value::Sequence(vs) => lemma_vsize_items_nonneg(vs@, 0),
        Value::MapEntries(es) => lemma_msize_items_nonneg(es@, 0),
        Value::Dict(fs) => lemma_dsize_items_nonneg(fs@, 0),
        Value::Struct { name, fields } => {
            lemma_dsize_items_nonneg(fields@, 0);
            lemma_size_items_of_fields_nonneg(fields@, 0);
        },
        Value::Variant(b) => lemma_size_nonneg(*b),
        _ => {},
    }
}

pub proof fn lemma_size_items_nonneg(vs: Seq<Value>, i: int)
    ensures
        size_items(vs, i) >= 0,
    decreases vs, vs.len() - i + 1,
{
    if 0 <= i < vs.len() {
        lemma_size_nonneg(vs[i]);
        lemma_size_items_nonneg(vs, i + 1);
    }
}

pub proof fn lemma_vsize_items_nonneg(vs: Seq<Value>, i: int)
    ensures
        vsize_items(vs, i) >= 0,
    decreases vs, vs.len() - i + 1,
{
    if 0 <= i < vs.len() {
        lemma_size_nonneg(vs[i]);
        lemma_vsize_items_nonneg(vs, i + 1);
    }
}

pub proof fn lemma_msize_items_nonneg(es: Seq<MapEntry>, i: int)
    ensures
        msize_items(es, i) >= 0,
    decreases es, es.len() - i + 1,
{
    if 0 <= i < es.len() {
        lemma_size_nonneg(es[i].key);
        lemma_size_nonneg(es[i].value);
        lemma_msize_items_nonneg(es, i + 1);
    }
}

pub proof fn lemma_dsize_items_nonneg(fs: Seq<Field>, i: int)
    ensures
        dsize_items(fs, i) >= 0,
    decreases fs, fs.len() - i + 1,
{
    if 0 <= i < fs.len() {
        lemma_size_nonneg(fs[i].value);
        lemma_dsize_items_nonneg(fs, i + 1);
    }
}

pub proof fn lemma_size_items_of_fields_nonneg(fs: Seq<Field>, i: int)
    ensures
        size_items_of_fields(fs, i) >= 0,
    decreases fs, fs.len() - i + 1,
{
    if 0 <= i < fs.len() {
        lemma_size_nonneg(fs[i].value);
        lemma_size_items_of_fields_nonneg(fs, i + 1);
    }
}

/// What encoding a value does to a serializer state, or the signature
/// mismatch `(expected, got)` it fails with.
///
/// A scalar aligns and appends its encoding.  Unit is the empty struct.
/// A tuple is a struct of its items in order.  A sequence is an array of
/// variants; a map an array of dict entries with variant values, which
/// fails unless each key's signature is `s`; a dict the same with string
/// keys and unit values elided.  A named aggregate follows the policy.  A
/// variant encodes its value's own signature before its bytes.
pub open spec fn enc_value<P: SerializerPolicy>(policy: &P, st: EncState, v: Value) -> Result<
    EncState,
    (Seq<u8>, Seq<u8>),
>
    decreases v, 0int,
{
    match v {
        Value::Prim(p) => Ok(
            EncState {
                stream: prim_stream(st.stream, p),
                sig: st.sig.push(p.sig_code()),
                next: st.next,
            },
        ),
        Value::Unit => Ok(
            EncState {
                stream: stream_align(st.stream, 8),
                sig: st.sig.push(CODE_STRUCT_OPEN).push(CODE_STRUCT_CLOSE),
                next: st.next,
            },
        ),
        Value::Tuple(vs) => {
            let st1 = EncState {
                stream: stream_align(st.stream, 8),
                sig: st.sig.push(CODE_STRUCT_OPEN),
                next: st.next,
            };
            match enc_items(policy, st1, vs@, 0) {
                Ok(st2) => Ok(
                    EncState {
                        stream: st2.stream,
                        sig: st2.sig.push(CODE_STRUCT_CLOSE),
                        next: st2.next,
                    },
                ),
                Err(e) => Err(e),
            }
        },
        Value::Sequence(vs) => {
            match enc_variant_items(policy, init_enc_state(), vs@, 0) {
                Ok(c) => Ok(
                    EncState {
                        stream: array_stream(
                            st.stream,
                            c.stream,
                            st.next,
                            elem_align_of(seq![CODE_VARIANT]),
                        ),
                        sig: st.sig.push(CODE_ARRAY).push(CODE_VARIANT),
                        next: st.next + 1 + c.next,
                    },
                ),
                Err(e) => Err(e),
            }
        },
        Value::MapEntries(es) => {
            match enc_map_items(policy, init_enc_state(), es@, 0) {
                Ok(c) => Ok(
                    EncState {
                        stream: array_stream(
                            st.stream,
                            c.stream,
                            st.next,
                            elem_align_of(dict_entry_sig()),
                        ),
                        sig: st.sig.push(CODE_ARRAY) + dict_entry_sig(),
                        next: st.next + 1 + c.next,
                    },
                ),
                Err(e) => Err(e),
            }
        },
        Value::Dict(fs) => {
            match enc_dict_items(policy, init_enc_state(), fs@, 0) {
                Ok(c) => Ok(
                    EncState {
                        stream: array_stream(
                            st.stream,
                            c.stream,
                            st.next,
                            elem_align_of(dict_entry_sig()),
                        ),
                        sig: st.sig.push(CODE_ARRAY) + dict_entry_sig(),
                        next: st.next + 1 + c.next,
                    },
                ),
                Err(e) => Err(e),
            }
        },
        Value::Struct { name, fields } => {
            match policy.spec_style(name@) {
                StructSerializationStyle::Dict => {
                    match enc_dict_items(policy, init_enc_state(), fields@, 0) {
                        Ok(c) => Ok(
                            EncState {
                                stream: array_stream(
                                    st.stream,
                                    c.stream,
                                    st.next,
                                    elem_align_of(dict_entry_sig()),
                                ),
                                sig: st.sig.push(CODE_ARRAY) + dict_entry_sig(),
                                next: st.next + 1 + c.next,
                            },
                        ),
                        Err(e) => Err(e),
                    }
                },
                StructSerializationStyle::StronglyTyped => {
                    let st1 = EncState {
                        stream: stream_align(st.stream, 8),
                        sig: st.sig.push(CODE_STRUCT_OPEN),
                        next: st.next,
                    };
                    match enc_field_values(policy, st1, fields@, 0) {
                        Ok(st2) => Ok(
                            EncState {
                                stream: st2.stream,
                                sig: st2.sig.push(CODE_STRUCT_CLOSE),
                                next: st2.next,
                            },
                        ),
                        Err(e) => Err(e),
                    }
                },
            }
        },
        Value::Variant(b) => {
            match enc_value(policy, init_enc_state(), *b) {
                Ok(inner) => Ok(
                    EncState {
                        stream: variant_stream(st.stream, inner.sig, inner.stream, st.next),
                        sig: st.sig.push(CODE_VARIANT),
                        next: st.next + inner.next,
                    },
                ),
                Err(e) => Err(e),
            }
        },
    }
}

/// Struct items from index `i` on, encoded in place.
pub open spec fn enc_items<P: SerializerPolicy>(
    policy: &P,
    st: EncState,
    vs: Seq<Value>,
    i: int,
) -> Result<EncState, (Seq<u8>, Seq<u8>)>
    decreases vs, vs.len() - i + 1,
{
    if i < 0 || i >= vs.len() {
        Ok(st)
    } else {
        match enc_value(policy, st, vs[i]) {
            Ok(st2) => enc_items(policy, st2, vs, i + 1),
            Err(e) => Err(e),
        }
    }
}

/// Array-of-variant elements from index `i` on; `c` is the state of the
/// array's contents builder (its signature stays empty).
pub open spec fn enc_variant_items<P: SerializerPolicy>(
    policy: &P,
    c: EncState,
    vs: Seq<Value>,
    i: int,
) -> Result<EncState, (Seq<u8>, Seq<u8>)>
    decreases vs, vs.len() - i + 1,
{
    if i < 0 || i >= vs.len() {
        Ok(c)
    } else {
        match enc_value(policy, init_enc_state(), vs[i]) {
            Ok(inner) => enc_variant_items(
                policy,
                EncState {
                    stream: variant_stream(c.stream, inner.sig, inner.stream, c.next),
                    sig: c.sig,
                    next: c.next + inner.next,
                },
                vs,
                i + 1,
            ),
            Err(e) => Err(e),
        }
    }
}

/// Map entries from index `i` on: each is a dict entry holding the key
/// (encoded in place, so its signature is produced) and the value wrapped
/// in a variant; the produced entry signature must be `{sv}`.
pub open spec fn enc_map_items<P: SerializerPolicy>(
    policy: &P,
    c: EncState,
    es: Seq<MapEntry>,
    i: int,
) -> Result<EncState, (Seq<u8>, Seq<u8>)>
    decreases es, es.len() - i + 1,
{
    if i < 0 || i >= es.len() {
        Ok(c)
    } else {
        let st_kv = EncState {
            stream: stream_align(c.stream, 8),
            sig: seq![CODE_DICT_OPEN],
            next: c.next,
        };
        match enc_value(policy, st_kv, es[i].key) {
            Ok(stk) => match enc_value(policy, init_enc_state(), es[i].value) {
                Ok(inner) => {
                    let produced = stk.sig.push(CODE_VARIANT).push(CODE_DICT_CLOSE);
                    if produced == dict_entry_sig() {
                        enc_map_items(
                            policy,
                            EncState {
                                stream: variant_stream(stk.stream, inner.sig, inner.stream,
                                    stk.next),
                                sig: c.sig,
                                next: stk.next + inner.next,
                            },
                            es,
                            i + 1,
                        )
                    } else {
                        Err((dict_entry_sig(), produced))
                    }
                },
                Err(e) => Err(e),
            },
            Err(e) => Err(e),
        }
    }
}

/// Dict fields from index `i` on: unit-valued fields are dropped, others
/// become a dict entry holding the key string and the variant-wrapped
/// value.
pub open spec fn enc_dict_items<P: SerializerPolicy>(
    policy: &P,
    c: EncState,
    fs: Seq<Field>,
    i: int,
) -> Result<EncState, (Seq<u8>, Seq<u8>)>
    decreases fs, fs.len() - i + 1,
{
    if i < 0 || i >= fs.len() {
        Ok(c)
    } else {
        match enc_value(policy, init_enc_state(), fs[i].value) {
            Ok(inner) => {
                if inner.sig == seq![CODE_STRUCT_OPEN, CODE_STRUCT_CLOSE] {
                    enc_dict_items(policy, c, fs, i + 1)
                } else {
                    enc_dict_items(
                        policy,
                        EncState {
                            stream: variant_stream(
                                stream_append_str_key(c.stream, fs[i].name@),
                                inner.sig,
                                inner.stream,
                                c.next,
                            ),
                            sig: c.sig,
                            next: c.next + inner.next,
                        },
                        fs,
                        i + 1,
                    )
                }
            },
            Err(e) => Err(e),
        }
    }
}

/// The key string of a dict entry: 8-align for the entry, 4-align for the
/// string, then its encoding.
pub open spec fn stream_append_str_key(c: Seq<Component>, name: Seq<u8>) -> Seq<Component> {
    message_builder::stream_append(
        stream_align(stream_align(c, 8), 4),
        str_enc(name),
    )
}

/// Strongly-typed struct fields from index `i` on, values encoded in
/// place (unit values retained as `()`).
pub open spec fn enc_field_values<P: SerializerPolicy>(
    policy: &P,
    st: EncState,
    fs: Seq<Field>,
    i: int,
) -> Result<EncState, (Seq<u8>, Seq<u8>)>
    decreases fs, fs.len() - i + 1,
{
    if i < 0 || i >= fs.len() {
        Ok(st)
    } else {
        match enc_value(policy, st, fs[i].value) {
            Ok(st2) => enc_field_values(policy, st2, fs, i + 1),
            Err(e) => Err(e),
        }
    }
}

/// What `encode_value` guarantees: it reflects the spec encoder exactly,
/// within the value's size budget.
pub open spec fn encode_ensures<P: SerializerPolicy>(
    policy: &P,
    st: EncState,
    v: Value,
    r: Result<DoneSerializer, Error>,
) -> bool {
    match enc_value(policy, st, v) {
        Ok(st2) => r matches Ok(d) && {
            &&& enc_state_of(d.mesg) == st2
            &&& pm_wf(d.mesg)
            &&& stream_total(d.mesg.builder.stream()) <= stream_total(st.stream) + size_of(v)
            &&& d.mesg.signature@.len() <= st.sig.len() + size_of(v)
            &&& d.mesg.builder.next_token() <= st.next + size_of(v)
            &&& st.next <= d.mesg.builder.next_token()
        },
        Err(spec_err) => r matches Err(e) && (e matches Error::MismatchSignature(a, b) && a@
            == spec_err.0 && b@ == spec_err.1),
    }
}

/// Encode one value onto a serializer, following the policy.
#[verifier::loop_isolation(false)]
pub fn encode_value<P: SerializerPolicy>(policy: &P, ser: ReadySerializer, value: &Value) -> (r:
    Result<DoneSerializer, Error>)
    requires
        pm_wf(ser.mesg),
        stream_total(ser.mesg.builder.stream()) + size_of(*value) + 1024 <= usize::MAX,
        ser.mesg.signature@.len() + size_of(*value) <= usize::MAX,
        ser.mesg.builder.next_token() + size_of(*value) <= usize::MAX,
    ensures
        encode_ensures(policy, enc_state_of(ser.mesg), *value, r),
    decreases *value,
{
    broadcast use vstd::std_specs::vec::group_vec_axioms;

    let ghost st0 = enc_state_of(ser.mesg);
    proof {
        message_builder::lemma_total_nonneg(ser.mesg.builder.stream());
    }
    match value {
        Value::Prim(p) => {
            match ser.serialize_primitive(p) {
                Ok(d) => Ok(d),
                Err(e) => {
                    proof {
                        assert(false);
                    }
                    Err(e)
                },
            }
        },
        Value::Unit => {
            let s = ser.start_struct();
            let d = s.finish_struct();
            Ok(d)
        },
        Value::Tuple(vs) => {
            proof {
                lemma_size_items_nonneg(vs@, 0);
            }
            let mut st_ser = ser.start_struct();
            let ghost st1 = enc_state_of(st_ser.mesg);
            let n = vs.len();
            let mut i: usize = 0;
            while i < n
                invariant
                    0 <= i <= n,
                    n == vs@.len(),
                    enc_items(policy, st1, vs@, 0) == enc_items(
                        policy,
                        enc_state_of(st_ser.mesg),
                        vs@,
                        i as int,
                    ),
                    pm_wf(st_ser.mesg),
                    stream_total(st_ser.mesg.builder.stream()) + size_items(vs@, i as int) + 1024
                        <= usize::MAX,
                    st_ser.mesg.signature@.len() + size_items(vs@, i as int) + 1 <= usize::MAX,
                    st_ser.mesg.builder.next_token() + size_items(vs@, i as int) <= usize::MAX,
                    0 <= size_items(vs@, 0) - size_items(vs@, i as int),
                    stream_total(st_ser.mesg.builder.stream()) <= stream_total(st1.stream)
                        + size_items(vs@, 0) - size_items(vs@, i as int),
                    st_ser.mesg.signature@.len() <= st1.sig.len() + size_items(vs@, 0)
                        - size_items(vs@, i as int),
                    st1.next <= st_ser.mesg.builder.next_token() <= st1.next + size_items(vs@, 0)
                        - size_items(vs@, i as int),
                decreases n - i,
            {
                proof {
                    lemma_size_nonneg(vs@[i as int]);
                    lemma_size_items_nonneg(vs@, i as int + 1);
                    assert(decreases_to!(*value => (*value)->Tuple_0));
                    assert(decreases_to!((*value)->Tuple_0 => (*value)->Tuple_0@));
                    assert(decreases_to!((*value)->Tuple_0@ => (*value)->Tuple_0@[i as int]));
                    assert((*value)->Tuple_0@ == vs@);
                    assert(decreases_to!(*value => vs@[i as int]));
                }
                let (pending, ready) = st_ser.start_item();
                match encode_value(policy, ready, &vs[i]) {
                    Ok(d) => {
                        st_ser = pending.finish_item(d);
                    },
                    Err(e) => {
                        return Err(e);
                    },
                }
                i = i + 1;
            }
            let d = st_ser.finish_struct();
            Ok(d)
        },
        Value::Sequence(vs) => {
            proof {
                lemma_vsize_items_nonneg(vs@, 0);
            }
            let mut item_sig: Vec<u8> = Vec::new();
            item_sig.push(CODE_VARIANT);
            let mut arr = ser.start_array(item_sig);
            proof {
                assert(arr.item_sig@ =~= seq![CODE_VARIANT]);
            }
            let n = vs.len();
            let mut i: usize = 0;
            while i < n
                invariant
                    0 <= i <= n,
                    n == vs@.len(),
                    arr.prev == ser.mesg,
                    arr.item_sig@ == seq![CODE_VARIANT],
                    arr.contents.signature@ == Seq::<u8>::empty(),
                    pm_wf(arr.contents),
                    enc_variant_items(policy, init_enc_state(), vs@, 0) == enc_variant_items(
                        policy,
                        enc_state_of(arr.contents),
                        vs@,
                        i as int,
                    ),
                    0 <= vsize_items(vs@, 0) - vsize_items(vs@, i as int),
                    stream_total(arr.contents.builder.stream()) <= 24 + vsize_items(vs@, 0)
                        - vsize_items(vs@, i as int),
                    0 <= arr.contents.builder.next_token() <= vsize_items(vs@, 0) - vsize_items(
                        vs@,
                        i as int,
                    ),
                decreases n - i,
            {
                proof {
                    lemma_size_nonneg(vs@[i as int]);
                    lemma_vsize_items_nonneg(vs@, i as int + 1);
                    assert(decreases_to!(*value => (*value)->Sequence_0));
                    assert(decreases_to!((*value)->Sequence_0 => (*value)->Sequence_0@));
                    assert(decreases_to!((*value)->Sequence_0@ => (*value)->Sequence_0@[i as int]));
                    assert((*value)->Sequence_0@ == vs@);
                    assert(decreases_to!(*value => vs@[i as int]));
                    assert(3 * size_of(vs@[i as int]) + 512 + vsize_items(vs@, i as int + 1)
                        == vsize_items(vs@, i as int));
                    lemma_vsize_items_nonneg(vs@, i as int);
                }
                let (pending, ready) = arr.start_item();
                let (vser, fresh) = ready.start_variant();
                match encode_value(policy, fresh, &vs[i]) {
                    Ok(d) => {
                        let d2 = vser.finish_variant(d);
                        proof {
                            assert(d2.mesg.signature@ =~= seq![CODE_VARIANT]);
                        }
                        match pending.finish_item(d2) {
                            Ok(a2) => {
                                arr = a2;
                            },
                            Err(_) => {
                                proof {
                                    assert(false);
                                }
                                return Err(Error::SignatureExhausted);
                            },
                        }
                    },
                    Err(e) => {
                        return Err(e);
                    },
                }
                i = i + 1;
            }
            let d = arr.finish_array();
            proof {
                assert(d.mesg.signature@ =~= st0.sig.push(CODE_ARRAY).push(CODE_VARIANT));
            }
            Ok(d)
        },
        Value::MapEntries(es) => {
            proof {
                lemma_msize_items_nonneg(es@, 0);
            }
            let mut item_sig: Vec<u8> = Vec::new();
            item_sig.push(CODE_DICT_OPEN);
            item_sig.push(CODE_STR);
            item_sig.push(CODE_VARIANT);
            item_sig.push(CODE_DICT_CLOSE);
            let mut arr = ser.start_array(item_sig);
            proof {
                assert(arr.item_sig@ =~= dict_entry_sig());
            }
            let n = es.len();
            let mut i: usize = 0;
            while i < n
                invariant
                    0 <= i <= n,
                    n == es@.len(),
                    arr.prev == ser.mesg,
                    arr.item_sig@ == dict_entry_sig(),
                    arr.contents.signature@ == Seq::<u8>::empty(),
                    pm_wf(arr.contents),
                    enc_map_items(policy, init_enc_state(), es@, 0) == enc_map_items(
                        policy,
                        enc_state_of(arr.contents),
                        es@,
                        i as int,
                    ),
                    0 <= msize_items(es@, 0) - msize_items(es@, i as int),
                    stream_total(arr.contents.builder.stream()) <= 24 + msize_items(es@, 0)
                        - msize_items(es@, i as int),
                    0 <= arr.contents.builder.next_token() <= msize_items(es@, 0) - msize_items(
                        es@,
                        i as int,
                    ),
                decreases n - i,
            {
                proof {
                    lemma_size_nonneg(es@[i as int].key);
                    lemma_size_nonneg(es@[i as int].value);
                    lemma_msize_items_nonneg(es@, i as int + 1);
                    assert(decreases_to!(*value => (*value)->MapEntries_0));
                    assert(decreases_to!((*value)->MapEntries_0 => (*value)->MapEntries_0@));
                    assert(decreases_to!((*value)->MapEntries_0@ => (*value)->MapEntries_0@[i as int]));
                    assert((*value)->MapEntries_0@ == es@);
                    assert(decreases_to!(*value => es@[i as int]));
                    assert(decreases_to!(es@[i as int] => es@[i as int].key));
                    assert(decreases_to!(es@[i as int] => es@[i as int].value));
                    assert(decreases_to!(*value => es@[i as int].key));
                    assert(decreases_to!(*value => es@[i as int].value));
                    assert(size_of(es@[i as int].key) + 3 * size_of(es@[i as int].value) + 512
                        + msize_items(es@, i as int + 1) == msize_items(es@, i as int));
                    lemma_msize_items_nonneg(es@, i as int);
                }
                let (pending, ready) = arr.start_item();
                let kv = ready.start_kv_pair();
                let (kv, key_ready) = kv.start_item();
                proof {
                    assert(key_ready.mesg.signature@ =~= seq![CODE_DICT_OPEN]);
                }
                match encode_value(policy, key_ready, &es[i].key) {
                    Ok(kd) => {
                        let kv2 = kv.finish_item(kd);
                        let (kv2, val_start) = kv2.start_item();
                        let (vser, fresh) = val_start.start_variant();
                        match encode_value(policy, fresh, &es[i].value) {
                            Ok(vd) => {
                                let vd2 = vser.finish_variant(vd);
                                let kv3 = kv2.finish_item(vd2);
                                let kv_done = kv3.finish_kv_pair();
                                match pending.finish_item(kv_done) {
                                    Ok(a2) => {
                                        arr = a2;
                                    },
                                    Err(e) => {
                                        return Err(e);
                                    },
                                }
                            },
                            Err(e) => {
                                return Err(e);
                            },
                        }
                    },
                    Err(e) => {
                        return Err(e);
                    },
                }
                i = i + 1;
            }
            let d = arr.finish_array();
            proof {
                assert(d.mesg.signature@ =~= st0.sig.push(CODE_ARRAY) + dict_entry_sig());
            }
            Ok(d)
        },
        Value::Dict(fs) => {
            proof {
                lemma_dsize_items_nonneg(fs@, 0);
                assert(decreases_to!(*value => (*value)->Dict_0));
                assert(decreases_to!((*value)->Dict_0 => (*value)->Dict_0@));
                assert((*value)->Dict_0@ == fs@);
                assert(decreases_to!(*value => fs@));
            }
            match encode_dict_fields(policy, ser, fs, Ghost(fs@)) {
                Ok(d) => Ok(d),
                Err(e) => Err(e),
            }
        },
        Value::Struct { name, fields } => {
            proof {
                lemma_dsize_items_nonneg(fields@, 0);
                lemma_size_items_of_fields_nonneg(fields@, 0);
            }
            match policy.query_struct_name(name.as_str()) {
                StructSerializationStyle::Dict => {
                    proof {
                        assert(decreases_to!(*value => (*value)->Struct_fields));
                        assert(decreases_to!((*value)->Struct_fields => (*value)->Struct_fields@));
                        assert((*value)->Struct_fields@ == fields@);
                        assert(decreases_to!(*value => fields@));
                    }
                    match encode_dict_fields(policy, ser, fields, Ghost(fields@)) {
                        Ok(d) => Ok(d),
                        Err(e) => Err(e),
                    }
                },
                StructSerializationStyle::StronglyTyped => {
                    let mut st_ser = ser.start_struct();
                    let ghost st1 = enc_state_of(st_ser.mesg);
                    let n = fields.len();
                    let mut i: usize = 0;
                    while i < n
                        invariant
                            0 <= i <= n,
                            n == fields@.len(),
                            enc_field_values(policy, st1, fields@, 0) == enc_field_values(
                                policy,
                                enc_state_of(st_ser.mesg),
                                fields@,
                                i as int,
                            ),
                            pm_wf(st_ser.mesg),
                            stream_total(st_ser.mesg.builder.stream()) + size_items_of_fields(
                                fields@,
                                i as int,
                            ) + 1024 <= usize::MAX,
                            st_ser.mesg.signature@.len() + size_items_of_fields(fields@, i as int)
                                + 1 <= usize::MAX,
                            st_ser.mesg.builder.next_token() + size_items_of_fields(
                                fields@,
                                i as int,
                            ) <= usize::MAX,
                            0 <= size_items_of_fields(fields@, 0) - size_items_of_fields(
                                fields@,
                                i as int,
                            ),
                            stream_total(st_ser.mesg.builder.stream()) <= stream_total(st1.stream)
                                + size_items_of_fields(fields@, 0) - size_items_of_fields(
                                fields@,
                                i as int,
                            ),
                            st_ser.mesg.signature@.len() <= st1.sig.len()
                                + size_items_of_fields(fields@, 0) - size_items_of_fields(
                                fields@,
                                i as int,
                            ),
                            st1.next <= st_ser.mesg.builder.next_token() <= st1.next
                                + size_items_of_fields(fields@, 0) - size_items_of_fields(
                                fields@,
                                i as int,
                            ),
                        decreases n - i,
                    {
                        proof {
                            lemma_size_nonneg(fields@[i as int].value);
                            lemma_size_items_of_fields_nonneg(fields@, i as int + 1);
                            assert(decreases_to!(*value => (*value)->Struct_fields));
                            assert(decreases_to!((*value)->Struct_fields => (*value)->Struct_fields@));
                            assert(decreases_to!((*value)->Struct_fields@
                                => (*value)->Struct_fields@[i as int]));
                            assert((*value)->Struct_fields@ == fields@);
                            assert(decreases_to!(fields@[i as int] => fields@[i as int].value));
                            assert(decreases_to!(*value => fields@[i as int].value));
                        }
                        let (pending, ready) = st_ser.start_item();
                        match encode_value(policy, ready, &fields[i].value) {
                            Ok(d) => {
                                st_ser = pending.finish_item(d);
                            },
                            Err(e) => {
                                return Err(e);
                            },
                        }
                        i = i + 1;
                    }
                    let d = st_ser.finish_struct();
                    Ok(d)
                },
            }
        },
        Value::Variant(b) => {
            proof {
                lemma_size_nonneg(**b);
                assert(decreases_to!(*value => (*value)->Variant_0));
                assert((*value)->Variant_0 == **b);
                assert(decreases_to!(*value => **b));
            }
            let (vser, fresh) = ser.start_variant();
            match encode_value(policy, fresh, b) {
                Ok(d) => {
                    let d2 = vser.finish_variant(d);
                    Ok(d2)
                },
                Err(e) => Err(e),
            }
        },
    }
}

/// Encode the fields of a dict-style aggregate: a fresh `a{sv}` whose
/// entries hold the field names and variant-wrapped values, unit values
/// elided.
#[verifier::loop_isolation(false)]
fn encode_dict_fields<P: SerializerPolicy>(
    policy: &P,
    ser: ReadySerializer,
    fields: &Vec<Field>,
    parent: Ghost<Seq<Field>>,
) -> (r: Result<DoneSerializer, Error>)
    requires
        parent@ == fields@,
        pm_wf(ser.mesg),
        stream_total(ser.mesg.builder.stream()) + 2 * dsize_items(fields@, 0) + 1024
            <= usize::MAX,
        ser.mesg.signature@.len() + 64 <= usize::MAX,
        ser.mesg.builder.next_token() + dsize_items(fields@, 0) + 64 <= usize::MAX,
    ensures
        (match enc_dict_items(policy, init_enc_state(), fields@, 0) {
            Ok(c) => r matches Ok(d) && {
                &&& enc_state_of(d.mesg) == (EncState {
                    stream: array_stream(
                        ser.mesg.builder.stream(),
                        c.stream,
                        ser.mesg.builder.next_token(),
                        elem_align_of(dict_entry_sig()),
                    ),
                    sig: ser.mesg.signature@.push(CODE_ARRAY) + dict_entry_sig(),
                    next: ser.mesg.builder.next_token() + 1 + c.next,
                })
                &&& pm_wf(d.mesg)
                &&& stream_total(d.mesg.builder.stream()) <= stream_total(
                    ser.mesg.builder.stream(),
                ) + 2 * dsize_items(fields@, 0) + 512
                &&& d.mesg.signature@.len() <= ser.mesg.signature@.len() + 8
                &&& ser.mesg.builder.next_token() <= d.mesg.builder.next_token()
                    <= ser.mesg.builder.next_token() + 1 + dsize_items(fields@, 0)
            },
            Err(spec_err) => r matches Err(e) && (e matches Error::MismatchSignature(a, b) && a@
                == spec_err.0 && b@ == spec_err.1),
        }),
    decreases parent@,
{
    broadcast use vstd::std_specs::vec::group_vec_axioms;

    proof {
        message_builder::lemma_total_nonneg(ser.mesg.builder.stream());
        lemma_dsize_items_nonneg(fields@, 0);
    }
    let mut dict = ser.start_dict();
    let n = fields.len();
    let mut i: usize = 0;
    while i < n
        invariant
            0 <= i <= n,
            n == fields@.len(),
            dict.ser.prev == ser.mesg,
            dict.ser.item_sig@ == dict_entry_sig(),
            dict.ser.contents.signature@ == Seq::<u8>::empty(),
            pm_wf(dict.ser.contents),
            enc_dict_items(policy, init_enc_state(), fields@, 0) == enc_dict_items(
                policy,
                enc_state_of(dict.ser.contents),
                fields@,
                i as int,
            ),
            0 <= dsize_items(fields@, 0) - dsize_items(fields@, i as int),
            stream_total(dict.ser.contents.builder.stream()) <= 24 + dsize_items(fields@, 0)
                - dsize_items(fields@, i as int),
            0 <= dict.ser.contents.builder.next_token() <= dsize_items(fields@, 0) - dsize_items(
                fields@,
                i as int,
            ),
        decreases n - i,
    {
        proof {
            lemma_size_nonneg(fields@[i as int].value);
            lemma_dsize_items_nonneg(fields@, i as int + 1);
            assert(decreases_to!(parent@ => parent@[i as int]));
            assert(decreases_to!(parent@[i as int] => parent@[i as int].value));
            assert(decreases_to!(parent@ => parent@[i as int].value));
            assert(parent@[i as int] == fields@[i as int]);
            assert(3 * size_of(fields@[i as int].value) + fields@[i as int].name@.len() as int
                + 512 + dsize_items(fields@, i as int + 1) == dsize_items(fields@, i as int));
            lemma_dsize_items_nonneg(fields@, i as int);
        }
        let (pending, fresh) = dict.start_item();
        match encode_value(policy, fresh, &fields[i].value) {
            Ok(d) => {
                match pending.finish_optional_item(fields[i].name.as_slice(), d) {
                    Ok(d2) => {
                        dict = d2;
                    },
                    Err(_) => {
                        proof {
                            assert(false);
                        }
                        return Err(Error::SignatureExhausted);
                    },
                }
            },
            Err(e) => {
                return Err(e);
            },
        }
        i = i + 1;
    }
    let d = dict.finish_dict();
    proof {
        assert(d.mesg.signature@ =~= ser.mesg.signature@.push(CODE_ARRAY) + dict_entry_sig());
    }
    Ok(d)
}

/// The largest size budget a value may have and still be serialized.
/// The budget over-approximates the encoded size: it charges a constant
/// of a few hundred bytes per aggregate and per array element, and it
/// triples per level of variant or array nesting (splicing a recorded
/// sub-message re-plays its components, and the accounting doubles them).
/// Within one nesting level the limit comfortably exceeds the 2^27-byte
/// message cap of the DBus protocol itself; only absurdly deep nestings
/// or arrays of many millions of elements are refused.
pub const MAX_SERIALIZE_BUDGET: u64 = 0xFFFF_F000;

/// `Some(a + b)` unless the sum exceeds the serialization budget.
fn add_capped(a: u64, b: u64) -> (r: Option<u64>)
    requires
        a <= MAX_SERIALIZE_BUDGET,
        b <= 0x7000_0000_0000_0000,
    ensures
        r matches Some(n) ==> n == a + b && n <= MAX_SERIALIZE_BUDGET,
        r is None ==> a + b > MAX_SERIALIZE_BUDGET,
{
    if b > MAX_SERIALIZE_BUDGET || a + b > MAX_SERIALIZE_BUDGET {
        None
    } else {
        Some(a + b)
    }
}

/// The size budget of a value, or `None` when it exceeds the limit.
#[verifier::loop_isolation(false)]
fn value_size(v: &Value) -> (r: Option<u64>)
    ensures
        r matches Some(n) ==> n as int == size_of(*v) && n <= MAX_SERIALIZE_BUDGET,
        r is None ==> size_of(*v) > MAX_SERIALIZE_BUDGET,
    decreases *v,
{
    broadcast use vstd::std_specs::vec::group_vec_axioms;

    match v {
        Value::Prim(p) => {
            proof {
                vstd::bytes::lemma_auto_spec_u32_to_from_le_bytes();
                vstd::bytes::lemma_auto_spec_u16_to_from_le_bytes();
                vstd::bytes::lemma_auto_spec_u64_to_from_le_bytes();
            }
            let payload: u64 = match p {
                Primitive::U8(_) => 1,
                Primitive::Bool(_) => 4,
                Primitive::I16(_) => 2,
                Primitive::U16(_) => 2,
                Primitive::I32(_) => 4,
                Primitive::U32(_) => 4,
                Primitive::I64(_) => 8,
                Primitive::U64(_) => 8,
                Primitive::F64Bits(_) => 8,
                Primitive::Str(b) => {
                    if b.len() as u64 > MAX_SERIALIZE_BUDGET {
                        return None;
                    }
                    b.len() as u64 + 5
                },
                Primitive::Sig(s) => {
                    if s.0.len() as u64 > MAX_SERIALIZE_BUDGET {
                        return None;
                    }
                    s.0.len() as u64 + 2
                },
                Primitive::Path(pa) => {
                    if pa.0.len() as u64 > MAX_SERIALIZE_BUDGET {
                        return None;
                    }
                    pa.0.len() as u64 + 5
                },
            };
            add_capped(64, payload)
        },
        Value::Unit => Some(64),
        Value::Tuple(vs) => {
            proof {
                lemma_size_items_nonneg(vs@, 0);
            }
            let mut acc: u64 = 128;
            let n = vs.len();
            let mut i: usize = 0;
            while i < n
                invariant
                    0 <= i <= n,
                    n == vs@.len(),
                    acc as int == 128 + size_items(vs@, 0) - size_items(vs@, i as int),
                    acc <= MAX_SERIALIZE_BUDGET,
                decreases n - i,
            {
                proof {
                    lemma_size_nonneg(vs@[i as int]);
                    lemma_size_items_nonneg(vs@, i as int + 1);
                    assert(decreases_to!(*v => (*v)->Tuple_0));
                    assert(decreases_to!((*v)->Tuple_0 => (*v)->Tuple_0@));
                    assert(decreases_to!((*v)->Tuple_0@ => (*v)->Tuple_0@[i as int]));
                    assert((*v)->Tuple_0@ == vs@);
                }
                match value_size(&vs[i]) {
                    Some(m) => {
                        match add_capped(acc, m) {
                            Some(a2) => {
                                acc = a2;
                            },
                            None => {
                                return None;
                            },
                        }
                    },
                    None => {
                        return None;
                    },
                }
                i = i + 1;
            }
            Some(acc)
        },
        Value::Sequence(vs) => {
            proof {
                lemma_vsize_items_nonneg(vs@, 0);
            }
            let mut sum: u64 = 0;
            let n = vs.len();
            let mut i: usize = 0;
            while i < n
                invariant
                    0 <= i <= n,
                    n == vs@.len(),
                    sum as int == vsize_items(vs@, 0) - vsize_items(vs@, i as int),
                    sum <= MAX_SERIALIZE_BUDGET,
                decreases n - i,
            {
                proof {
                    lemma_size_nonneg(vs@[i as int]);
                    lemma_vsize_items_nonneg(vs@, i as int + 1);
                    assert(decreases_to!(*v => (*v)->Sequence_0));
                    assert(decreases_to!((*v)->Sequence_0 => (*v)->Sequence_0@));
                    assert(decreases_to!((*v)->Sequence_0@ => (*v)->Sequence_0@[i as int]));
                    assert((*v)->Sequence_0@ == vs@);
                }
                match value_size(&vs[i]) {
                    Some(m) => {
                        match add_capped(sum, 3 * m + 512) {
                            Some(a2) => {
                                sum = a2;
                            },
                            None => {
                                return None;
                            },
                        }
                    },
                    None => {
                        return None;
                    },
                }
                i = i + 1;
            }
            add_capped(512, 2 * sum)
        },
        Value::MapEntries(es) => {
            proof {
                lemma_msize_items_nonneg(es@, 0);
            }
            let mut sum: u64 = 0;
            let n = es.len();
            let mut i: usize = 0;
            while i < n
                invariant
                    0 <= i <= n,
                    n == es@.len(),
                    sum as int == msize_items(es@, 0) - msize_items(es@, i as int),
                    sum <= MAX_SERIALIZE_BUDGET,
                decreases n - i,
            {
                proof {
                    lemma_size_nonneg(es@[i as int].key);
                    lemma_size_nonneg(es@[i as int].value);
                    lemma_msize_items_nonneg(es@, i as int + 1);
                    assert(decreases_to!(*v => (*v)->MapEntries_0));
                    assert(decreases_to!((*v)->MapEntries_0 => (*v)->MapEntries_0@));
                    assert(decreases_to!((*v)->MapEntries_0@ => (*v)->MapEntries_0@[i as int]));
                    assert((*v)->MapEntries_0@ == es@);
                    assert(decreases_to!(es@[i as int] => es@[i as int].key));
                    assert(decreases_to!(es@[i as int] => es@[i as int].value));
                }
                let mk = match value_size(&es[i].key) {
                    Some(m) => m,
                    None => {
                        return None;
                    },
                };
                let mv = match value_size(&es[i].value) {
                    Some(m) => m,
                    None => {
                        return None;
                    },
                };
                match add_capped(sum, mk + 3 * mv + 512) {
                    Some(a2) => {
                        sum = a2;
                    },
                    None => {
                        return None;
                    },
                }
                i = i + 1;
            }
            add_capped(512, 2 * sum)
        },
        Value::Dict(fs) => {
            proof {
                lemma_dsize_items_nonneg(fs@, 0);
            }
            match dict_fields_size(fs, Ghost(fs@)) {
                Some(sum) => add_capped(512, 2 * sum),
                None => None,
            }
        },
        Value::Struct { name, fields } => {
            proof {
                lemma_dsize_items_nonneg(fields@, 0);
                lemma_size_items_of_fields_nonneg(fields@, 0);
                assert(decreases_to!(*v => (*v)->Struct_fields));
                assert(decreases_to!((*v)->Struct_fields => (*v)->Struct_fields@));
                assert((*v)->Struct_fields@ == fields@);
            }
            let dsum = match dict_fields_size(fields, Ghost(fields@)) {
                Some(m) => m,
                None => {
                    return None;
                },
            };
            let mut asum: u64 = 0;
            let n = fields.len();
            let mut i: usize = 0;
            while i < n
                invariant
                    0 <= i <= n,
                    n == fields@.len(),
                    asum as int == size_items_of_fields(fields@, 0) - size_items_of_fields(
                        fields@,
                        i as int,
                    ),
                    asum <= MAX_SERIALIZE_BUDGET,
                decreases n - i,
            {
                proof {
                    lemma_size_nonneg(fields@[i as int].value);
                    lemma_size_items_of_fields_nonneg(fields@, i as int + 1);
                    assert(decreases_to!((*v)->Struct_fields@
                        => (*v)->Struct_fields@[i as int]));
                    assert(decreases_to!(fields@[i as int] => fields@[i as int].value));
                }
                match value_size(&fields[i].value) {
                    Some(m) => {
                        match add_capped(asum, m) {
                            Some(a2) => {
                                asum = a2;
                            },
                            None => {
                                return None;
                            },
                        }
                    },
                    None => {
                        return None;
                    },
                }
                i = i + 1;
            }
            match add_capped(1024, asum + 2 * dsum) {
                Some(total) => Some(total),
                None => None,
            }
        },
        Value::Variant(b) => {
            proof {
                lemma_size_nonneg(**b);
                assert(decreases_to!(*v => (*v)->Variant_0));
                assert((*v)->Variant_0 == **b);
            }
            match value_size(b) {
                Some(m) => add_capped(512, 3 * m),
                None => None,
            }
        },
    }
}

/// Sum of the dict-entry budgets of an aggregate's fields, or `None`
/// beyond the limit.
#[verifier::loop_isolation(false)]
fn dict_fields_size(fields: &Vec<Field>, parent: Ghost<Seq<Field>>) -> (r: Option<u64>)
    requires
        parent@ == fields@,
    ensures
        r matches Some(n) ==> n as int == dsize_items(fields@, 0) && n <= MAX_SERIALIZE_BUDGET,
        r is None ==> dsize_items(fields@, 0) > MAX_SERIALIZE_BUDGET,
    decreases parent@,
{
    broadcast use vstd::std_specs::vec::group_vec_axioms;

    proof {
        lemma_dsize_items_nonneg(fields@, 0);
    }
    let mut sum: u64 = 0;
    let n = fields.len();
    let mut i: usize = 0;
    while i < n
        invariant
            0 <= i <= n,
            n == fields@.len(),
            sum as int == dsize_items(fields@, 0) - dsize_items(fields@, i as int),
            sum <= MAX_SERIALIZE_BUDGET,
        decreases n - i,
    {
        proof {
            lemma_size_nonneg(fields@[i as int].value);
            lemma_dsize_items_nonneg(fields@, i as int + 1);
            assert(decreases_to!(parent@ => parent@[i as int]));
            assert(decreases_to!(parent@[i as int] => parent@[i as int].value));
            assert(parent@[i as int] == fields@[i as int]);
        }
        let m = match value_size(&fields[i].value) {
            Some(m) => m,
            None => {
                return None;
            },
        };
        if fields[i].name.len() as u64 > MAX_SERIALIZE_BUDGET {
            return None;
        }
        match add_capped(sum, 3 * m + fields[i].name.len() as u64 + 512) {
            Some(a2) => {
                sum = a2;
            },
            None => {
                return None;
            },
        }
        i = i + 1;
    }
    Some(sum)
}

/// Serialize a value under a policy.
///
/// On success the message holds the value's wire bytes and its type
/// signature.  A map whose key does not serialize as a string fails with
/// the mismatched entry signatures; a value whose size budget exceeds
/// [`MAX_SERIALIZE_BUDGET`] is refused -- the error taxonomy has no kind
/// for an oversized value, so the refusal reports as a serializing
/// error.
pub fn serialize_with_policy<P: SerializerPolicy>(value: &Value, policy: &P) -> (r: Result<
    Message,
    Error,
>)
    ensures
        size_of(*value) > MAX_SERIALIZE_BUDGET ==> (r matches Err(e) && e matches
            Error::Serializing(_)),
        size_of(*value) <= MAX_SERIALIZE_BUDGET ==> (match enc_value(
            policy,
            init_enc_state(),
            *value,
        ) {
            Ok(st) => r matches Ok(m) && m.signature@ == st.sig && m.data@ == spec_complete(
                st.stream,
            ),
            Err(spec_err) => r matches Err(e) && (e matches Error::MismatchSignature(a, b) && a@
                == spec_err.0 && b@ == spec_err.1),
        }),
{
    match value_size(value) {
        None => Err(Error::Serializing("value exceeds the serializer's size limit".to_owned())),
        Some(_) => {
            let ser = ReadySerializer::new();
            proof {
                assert(enc_state_of(ser.mesg) == init_enc_state());
            }
            match encode_value(policy, ser, value) {
                Ok(d) => d.complete(),
                Err(e) => Err(e),
            }
        },
    }
}

/// Serialize a value under the default policy: named aggregates become
/// property maps `a{sv}`.
pub fn serialize(value: &Value) -> (r: Result<Message, Error>)
    ensures
        size_of(*value) > MAX_SERIALIZE_BUDGET ==> (r matches Err(e) && e matches
            Error::Serializing(_)),
        size_of(*value) <= MAX_SERIALIZE_BUDGET ==> (match enc_value(
            &DefaultSerializerPolicy,
            init_enc_state(),
            *value,
        ) {
            Ok(st) => r matches Ok(m) && m.signature@ == st.sig && m.data@ == spec_complete(
                st.stream,
            ),
            Err(spec_err) => r matches Err(e) && (e matches Error::MismatchSignature(a, b) && a@
                == spec_err.0 && b@ == spec_err.1),
        }),
{
    serialize_with_policy(value, &DefaultSerializerPolicy)
}

} // verus!
