//! Composable sub-serializers.
//!
//! Each composite (struct, dict entry, array, dict-of-variants, variant)
//! is driven through a distinct handle type whose operations enforce the
//! protocol open -> items -> close by construction: starting an item hands
//! back a pending handle plus a fresh `ReadySerializer`, and only the
//! matching finish operation resumes the enclosing composite.

use vstd::prelude::*;

use crate::error::Error;
use crate::message::Message;
use crate::primitives::{str_enc, Primitive, CODE_ARRAY, CODE_DICT_CLOSE, CODE_DICT_OPEN,
    CODE_STR, CODE_STRUCT_CLOSE, CODE_STRUCT_OPEN, CODE_VARIANT, NUL};

use super::message_builder::{
    empty_stream, lemma_top_le_total, lemma_total_nonneg, spec_complete, stream_align,
    stream_append, stream_append_data, stream_finish_length, stream_start_length, stream_total,
    stream_wf, tokens_lt, Component, PendingMessage,
};

verus! {

/// Well-formedness of a pending message: its builder's stream is well
/// formed and every token in it was minted by that builder.
pub open spec fn pm_wf(m: PendingMessage) -> bool {
    &&& stream_wf(m.builder.stream())
    &&& tokens_lt(m.builder.stream(), m.builder.next_token())
    &&& 0 <= m.builder.next_token()
}

/// A just-created pending message.
pub open spec fn pm_fresh(m: PendingMessage) -> bool {
    &&& m.builder.stream() == empty_stream()
    &&& m.builder.next_token() == 0
    &&& m.signature@ == Seq::<u8>::empty()
}

/// A fresh pending message is well formed.
pub proof fn lemma_fresh_pm_wf(m: PendingMessage)
    requires
        pm_fresh(m),
    ensures
        pm_wf(m),
        stream_total(m.builder.stream()) == 24,
{
    assert(empty_stream().drop_last() =~= Seq::<Component>::empty());
    assert(stream_total(Seq::<Component>::empty()) == 0);
    assert(empty_stream().last() == Component::Slice { alignment: 1, bytes: Seq::empty() });
}

/// Effect of serializing one primitive on a builder stream: align to its
/// natural alignment, then append its encoding.
pub open spec fn prim_stream(s: Seq<Component>, p: Primitive) -> Seq<Component> {
    stream_append(stream_align(s, p.spec_alignment()), p.enc())
}

/// Effect of a variant wrapper on a builder stream: the inner signature's
/// length as one byte, the signature bytes, a NUL, then the inner value's
/// components spliced in (inheriting alignment), with its tokens shifted
/// by `off`.
pub open spec fn variant_stream(
    s: Seq<Component>,
    vsig: Seq<u8>,
    vstream: Seq<Component>,
    off: int,
) -> Seq<Component> {
    stream_append_data(
        stream_append(stream_append(stream_append(s, seq![(vsig.len() as u8)]), vsig), seq![NUL]),
        vstream,
        off,
    )
}

/// Effect of closing an array: align to 4, open a length placeholder with
/// token `tok`, declare the element alignment `ea` (so an empty body is
/// still preceded by padding up to the element's natural alignment),
/// splice the recorded contents (tokens shifted past `tok`), and close
/// the placeholder.
pub open spec fn array_stream(s: Seq<Component>, cstream: Seq<Component>, tok: int, ea: int) -> Seq<
    Component,
> {
    stream_finish_length(
        stream_append_data(
            stream_align(stream_start_length(stream_align(s, 4), tok), ea),
            cstream,
            tok + 1,
        ),
        tok,
    )
}

/// The fixed element signature of a dict-of-variants: `{sv}`.
pub open spec fn dict_entry_sig() -> Seq<u8> {
    seq![CODE_DICT_OPEN, CODE_STR, CODE_VARIANT, CODE_DICT_CLOSE]
}

/// Compare two byte vectors.
pub fn bytes_eq(a: &Vec<u8>, b: &Vec<u8>) -> (r: bool)
    ensures
        r <==> a@ == b@,
{
    if a.len() != b.len() {
        proof {
            assert(a@.len() != b@.len());
        }
        return false;
    }
    let n = a.len();
    let mut i: usize = 0;
    while i < n
        invariant
            0 <= i <= n,
            n == a@.len() && n == b@.len(),
            forall|j: int| 0 <= j < i ==> a@[j] == b@[j],
        decreases n - i,
    {
        if a[i] != b[i] {
            return false;
        }
        i = i + 1;
    }
    proof {
        assert(a@ =~= b@);
    }
    true
}

/// A serializer ready to accept exactly one value.
pub struct ReadySerializer {
    pub mesg: PendingMessage,
}

/// A serializer holding one completed value.
pub struct DoneSerializer {
    pub mesg: PendingMessage,
}

impl DoneSerializer {
    /// Surrender the accumulated message state.
    pub fn extract(self) -> (r: PendingMessage)
        ensures
            r == self.mesg,
    {
        self.mesg
    }

    /// Finalize into a message: resolve padding and back-fill lengths.
    pub fn complete(self) -> (r: Result<Message, Error>)
        requires
            pm_wf(self.mesg),
            stream_total(self.mesg.builder.stream()) + 64 <= usize::MAX,
        ensures
            r matches Ok(m) && m.data@ == spec_complete(self.mesg.builder.stream())
                && m.signature@ == self.mesg.signature@,
    {
        let PendingMessage { builder, signature } = self.mesg;
        let data = builder.complete();
        Ok(Message { data, signature })
    }
}

impl ReadySerializer {
    pub fn new() -> (r: ReadySerializer)
        ensures
            pm_fresh(r.mesg),
            pm_wf(r.mesg),
            stream_total(r.mesg.builder.stream()) == 24,
    {
        let r = ReadySerializer { mesg: PendingMessage::new() };
        proof {
            lemma_fresh_pm_wf(r.mesg);
        }
        r
    }

    /// Serialize one scalar: align, write its encoding, and append its
    /// signature code.
    pub fn serialize_primitive(self, primitive: &Primitive) -> (r: Result<DoneSerializer, Error>)
        requires
            pm_wf(self.mesg),
            stream_total(self.mesg.builder.stream()) + primitive.enc().len() + 64 <= usize::MAX,
            self.mesg.signature@.len() + 1 <= usize::MAX,
        ensures
            r matches Ok(d) && {
                &&& d.mesg.builder.stream() == prim_stream(self.mesg.builder.stream(), *primitive)
                &&& d.mesg.signature@ == self.mesg.signature@.push(primitive.sig_code())
                &&& d.mesg.builder.next_token() == self.mesg.builder.next_token()
                &&& pm_wf(d.mesg)
                &&& stream_total(d.mesg.builder.stream()) <= stream_total(
                    self.mesg.builder.stream(),
                ) + primitive.enc().len() + 24
            },
    {
        let mut mesg = self.mesg;
        proof {
            lemma_top_le_total(mesg.builder.stream());
            lemma_total_nonneg(mesg.builder.stream());
        }
        mesg.builder.align(primitive.alignment());
        let bytes = primitive.serialize();
        proof {
            lemma_top_le_total(mesg.builder.stream());
        }
        mesg.builder.append_bytes(bytes.as_slice());
        mesg.signature.push(primitive.signature());
        Ok(DoneSerializer { mesg })
    }

    /// Open a struct: align to 8 and append `(`.
    pub fn start_struct(self) -> (r: ReadyStructSerializer)
        requires
            pm_wf(self.mesg),
            stream_total(self.mesg.builder.stream()) + 64 <= usize::MAX,
            self.mesg.signature@.len() + 1 <= usize::MAX,
        ensures
            r.mesg.builder.stream() == stream_align(self.mesg.builder.stream(), 8),
            r.mesg.signature@ == self.mesg.signature@.push(CODE_STRUCT_OPEN),
            r.mesg.builder.next_token() == self.mesg.builder.next_token(),
            pm_wf(r.mesg),
            stream_total(r.mesg.builder.stream()) <= stream_total(self.mesg.builder.stream())
                + 24,
    {
        ReadyStructSerializer::new(self.mesg)
    }

    /// Open a dict entry: align to 8 and append `{`.
    pub fn start_kv_pair(self) -> (r: ReadyStructSerializer)
        requires
            pm_wf(self.mesg),
            stream_total(self.mesg.builder.stream()) + 64 <= usize::MAX,
            self.mesg.signature@.len() + 1 <= usize::MAX,
        ensures
            r.mesg.builder.stream() == stream_align(self.mesg.builder.stream(), 8),
            r.mesg.signature@ == self.mesg.signature@.push(CODE_DICT_OPEN),
            r.mesg.builder.next_token() == self.mesg.builder.next_token(),
            pm_wf(r.mesg),
            stream_total(r.mesg.builder.stream()) <= stream_total(self.mesg.builder.stream())
                + 24,
    {
        ReadyStructSerializer::new_kv_pair(self.mesg)
    }

    /// Open an array with the given element signature.  Elements are
    /// recorded in a separate builder and spliced in when the array is
    /// finished, because the array's length must be known first.
    pub fn start_array(self, item_sig: Vec<u8>) -> (r: ReadyArraySerializer)
        ensures
            r.prev == self.mesg,
            pm_fresh(r.contents),
            pm_wf(r.contents),
            stream_total(r.contents.builder.stream()) == 24,
            r.item_sig@ == item_sig@,
    {
        ReadyArraySerializer::new(self.mesg, item_sig)
    }

    /// Open a dict-of-variants (`a{sv}`).
    pub fn start_dict(self) -> (r: ReadyDictSerializer)
        ensures
            r.ser.prev == self.mesg,
            pm_fresh(r.ser.contents),
            pm_wf(r.ser.contents),
            stream_total(r.ser.contents.builder.stream()) == 24,
            r.ser.item_sig@ == dict_entry_sig(),
    {
        let mut item_sig: Vec<u8> = Vec::new();
        item_sig.push(CODE_DICT_OPEN);
        item_sig.push(CODE_STR);
        item_sig.push(CODE_VARIANT);
        item_sig.push(CODE_DICT_CLOSE);
        proof {
            assert(item_sig@ =~= dict_entry_sig());
        }
        ReadyDictSerializer { ser: self.start_array(item_sig) }
    }

    /// Open a variant: the value is serialized into a fresh serializer and
    /// spliced in, prefixed by its own signature, when the variant is
    /// finished.
    pub fn start_variant(self) -> (r: (VariantSerializer, ReadySerializer))
        ensures
            r.0.mesg == self.mesg,
            pm_fresh(r.1.mesg),
            pm_wf(r.1.mesg),
            stream_total(r.1.mesg.builder.stream()) == 24,
    {
        (VariantSerializer { mesg: self.mesg }, ReadySerializer::new())
    }
}

/// A serializer waiting for its variant's value to be completed.
pub struct VariantSerializer {
    pub mesg: PendingMessage,
}

impl VariantSerializer {
    /// Close the variant: write the inner signature `g`-style (u8 length,
    /// bytes, NUL; a signature longer than 255 bytes has its length
    /// truncated, as a u8 write must) and splice in the inner value.
    pub fn finish_variant(self, value: DoneSerializer) -> (r: DoneSerializer)
        requires
            pm_wf(self.mesg),
            pm_wf(value.mesg),
            stream_total(self.mesg.builder.stream()) + 2 * stream_total(
                value.mesg.builder.stream(),
            ) + value.mesg.signature@.len() + 128 <= usize::MAX,
            self.mesg.builder.next_token() + value.mesg.builder.next_token() <= usize::MAX,
            self.mesg.signature@.len() + 1 <= usize::MAX,
        ensures
            r.mesg.builder.stream() == variant_stream(
                self.mesg.builder.stream(),
                value.mesg.signature@,
                value.mesg.builder.stream(),
                self.mesg.builder.next_token(),
            ),
            r.mesg.signature@ == self.mesg.signature@.push(CODE_VARIANT),
            r.mesg.builder.next_token() == self.mesg.builder.next_token()
                + value.mesg.builder.next_token(),
            pm_wf(r.mesg),
            stream_total(r.mesg.builder.stream()) <= stream_total(self.mesg.builder.stream()) + 2
                * stream_total(value.mesg.builder.stream()) + value.mesg.signature@.len() + 2,
    {
        let mut mesg = self.mesg;
        let value_mesg = value.extract();

        let sig_len8: u8 = #[verifier::truncate] (value_mesg.signature.len() as u8);
        let mut len_byte: Vec<u8> = Vec::new();
        len_byte.push(sig_len8);
        proof {
            lemma_top_le_total(mesg.builder.stream());
            lemma_total_nonneg(value.mesg.builder.stream());
            assert(len_byte@ =~= seq![(value.mesg.signature@.len() as u8)]);
        }
        mesg.builder.append_bytes(len_byte.as_slice());
        proof {
            lemma_top_le_total(mesg.builder.stream());
        }
        mesg.builder.append_bytes(value_mesg.signature.as_slice());
        let mut nul_byte: Vec<u8> = Vec::new();
        nul_byte.push(NUL);
        proof {
            lemma_top_le_total(mesg.builder.stream());
            assert(nul_byte@ =~= seq![NUL]);
        }
        mesg.builder.append_bytes(nul_byte.as_slice());
        mesg.builder.append_data(&value_mesg.builder);
        mesg.signature.push(CODE_VARIANT);
        DoneSerializer { mesg }
    }
}

/// A struct (or dict entry) whose next item may now be serialized.
pub struct ReadyStructSerializer {
    pub mesg: PendingMessage,
}

impl ReadyStructSerializer {
    pub fn new(mesg: PendingMessage) -> (r: ReadyStructSerializer)
        requires
            pm_wf(mesg),
            stream_total(mesg.builder.stream()) + 64 <= usize::MAX,
            mesg.signature@.len() + 1 <= usize::MAX,
        ensures
            r.mesg.builder.stream() == stream_align(mesg.builder.stream(), 8),
            r.mesg.signature@ == mesg.signature@.push(CODE_STRUCT_OPEN),
            r.mesg.builder.next_token() == mesg.builder.next_token(),
            pm_wf(r.mesg),
            stream_total(r.mesg.builder.stream()) <= stream_total(mesg.builder.stream()) + 24,
    {
        let mut mesg = mesg;
        proof {
            lemma_top_le_total(mesg.builder.stream());
            lemma_total_nonneg(mesg.builder.stream());
        }
        mesg.builder.align(8);
        mesg.signature.push(CODE_STRUCT_OPEN);
        ReadyStructSerializer { mesg }
    }

    pub fn new_kv_pair(mesg: PendingMessage) -> (r: ReadyStructSerializer)
        requires
            pm_wf(mesg),
            stream_total(mesg.builder.stream()) + 64 <= usize::MAX,
            mesg.signature@.len() + 1 <= usize::MAX,
        ensures
            r.mesg.builder.stream() == stream_align(mesg.builder.stream(), 8),
            r.mesg.signature@ == mesg.signature@.push(CODE_DICT_OPEN),
            r.mesg.builder.next_token() == mesg.builder.next_token(),
            pm_wf(r.mesg),
            stream_total(r.mesg.builder.stream()) <= stream_total(mesg.builder.stream()) + 24,
    {
        let mut mesg = mesg;
        proof {
            lemma_top_le_total(mesg.builder.stream());
            lemma_total_nonneg(mesg.builder.stream());
        }
        mesg.builder.align(8);
        mesg.signature.push(CODE_DICT_OPEN);
        ReadyStructSerializer { mesg }
    }

    /// Begin the next item; it continues on the same builder.
    pub fn start_item(self) -> (r: (PendingStructSerializer, ReadySerializer))
        ensures
            r.1.mesg == self.mesg,
    {
        (PendingStructSerializer {  }, ReadySerializer { mesg: self.mesg })
    }

    /// Close the struct: append `)`.
    pub fn finish_struct(self) -> (r: DoneSerializer)
        requires
            self.mesg.signature@.len() + 1 <= usize::MAX,
        ensures
            r.mesg.builder == self.mesg.builder,
            r.mesg.signature@ == self.mesg.signature@.push(CODE_STRUCT_CLOSE),
    {
        let mut mesg = self.mesg;
        mesg.signature.push(CODE_STRUCT_CLOSE);
        DoneSerializer { mesg }
    }

    /// Close the dict entry: append `}`.
    pub fn finish_kv_pair(self) -> (r: DoneSerializer)
        requires
            self.mesg.signature@.len() + 1 <= usize::MAX,
        ensures
            r.mesg.builder == self.mesg.builder,
            r.mesg.signature@ == self.mesg.signature@.push(CODE_DICT_CLOSE),
    {
        let mut mesg = self.mesg;
        mesg.signature.push(CODE_DICT_CLOSE);
        DoneSerializer { mesg }
    }
}

/// A struct whose current item is being serialized.
pub struct PendingStructSerializer {}

impl PendingStructSerializer {
    /// Accept the completed item and resume the struct.
    pub fn finish_item(self, item: DoneSerializer) -> (r: ReadyStructSerializer)
        ensures
            r.mesg == item.mesg,
    {
        ReadyStructSerializer { mesg: item.extract() }
    }
}

/// An array whose next element may now be serialized.
pub struct ReadyArraySerializer {
    pub prev: PendingMessage,
    /// All serialized element data; its signature is kept empty.
    pub contents: PendingMessage,
    pub item_sig: Vec<u8>,
}

impl ReadyArraySerializer {
    pub fn new(mesg: PendingMessage, item_sig: Vec<u8>) -> (r: ReadyArraySerializer)
        ensures
            r.prev == mesg,
            pm_fresh(r.contents),
            pm_wf(r.contents),
            stream_total(r.contents.builder.stream()) == 24,
            r.item_sig@ == item_sig@,
    {
        let r = ReadyArraySerializer { prev: mesg, contents: PendingMessage::new(), item_sig };
        proof {
            lemma_fresh_pm_wf(r.contents);
        }
        r
    }

    /// Begin the next element; it is serialized onto the contents builder.
    pub fn start_item(self) -> (r: (PendingArraySerializer, ReadySerializer))
        ensures
            r.0.prev == self.prev,
            r.0.item_sig@ == self.item_sig@,
            r.1.mesg == self.contents,
    {
        let pending = PendingArraySerializer { prev: self.prev, item_sig: self.item_sig };
        let ready = ReadySerializer { mesg: self.contents };
        (pending, ready)
    }

    /// Close the array: append `a` plus the element signature to the
    /// enclosing signature, then emit the length placeholder, declare the
    /// element's natural alignment (DBus pads up to it before the body,
    /// even an empty one), and splice in the recorded elements.
    pub fn finish_array(self) -> (r: DoneSerializer)
        requires
            pm_wf(self.prev),
            pm_wf(self.contents),
            stream_total(self.prev.builder.stream()) + 2 * stream_total(
                self.contents.builder.stream(),
            ) + 256 <= usize::MAX,
            self.prev.builder.next_token() + 1 + self.contents.builder.next_token() <= usize::MAX,
            self.prev.signature@.len() + 1 + self.item_sig@.len() <= usize::MAX,
        ensures
            r.mesg.builder.stream() == array_stream(
                self.prev.builder.stream(),
                self.contents.builder.stream(),
                self.prev.builder.next_token(),
                crate::primitives::elem_align_of(self.item_sig@),
            ),
            r.mesg.signature@ == self.prev.signature@.push(CODE_ARRAY) + self.item_sig@,
            r.mesg.builder.next_token() == self.prev.builder.next_token() + 1
                + self.contents.builder.next_token(),
            pm_wf(r.mesg),
            stream_total(r.mesg.builder.stream()) <= stream_total(self.prev.builder.stream()) + 2
                * stream_total(self.contents.builder.stream()) + 256,
    {
        let ReadyArraySerializer { prev, contents, item_sig } = self;
        let mut mesg = prev;

        let elem_align: usize = if item_sig.len() == 0 {
            1
        } else {
            match crate::primitives::sig_alignment(item_sig[0]) {
                Ok(a) => a,
                Err(_) => 1,
            }
        };
        proof {
            assert(elem_align as int == crate::primitives::elem_align_of(item_sig@));
        }

        let mut item_sig = item_sig;
        mesg.signature.push(CODE_ARRAY);
        mesg.signature.append(&mut item_sig);

        proof {
            lemma_top_le_total(mesg.builder.stream());
            lemma_total_nonneg(mesg.builder.stream());
            lemma_total_nonneg(contents.builder.stream());
        }
        mesg.builder.align(4);
        proof {
            lemma_top_le_total(mesg.builder.stream());
        }
        let token = mesg.builder.start_length();
        proof {
            lemma_top_le_total(mesg.builder.stream());
        }
        mesg.builder.align(elem_align);
        mesg.builder.append_data(&contents.builder);
        mesg.builder.finish_length(token);
        DoneSerializer { mesg }
    }
}

/// An array whose current element is being serialized.
pub struct PendingArraySerializer {
    pub prev: PendingMessage,
    pub item_sig: Vec<u8>,
}

impl PendingArraySerializer {
    /// Accept the completed element.  Its produced signature must equal
    /// the declared element signature; the element's data stays in the
    /// contents builder and its signature is reset for the next element.
    pub fn finish_item(self, item: DoneSerializer) -> (r: Result<ReadyArraySerializer, Error>)
        ensures
            match r {
                Ok(ra) => {
                    &&& item.mesg.signature@ == self.item_sig@
                    &&& ra.prev == self.prev
                    &&& ra.contents.builder == item.mesg.builder
                    &&& ra.contents.signature@ == Seq::<u8>::empty()
                    &&& ra.item_sig@ == self.item_sig@
                },
                Err(e) => {
                    &&& item.mesg.signature@ != self.item_sig@
                    &&& e matches Error::MismatchSignature(expected, got) && expected@
                        == self.item_sig@ && got@ == item.mesg.signature@
                },
            },
    {
        let mut children_mesg = item.extract();
        let mut sig: Vec<u8> = Vec::new();
        core::mem::swap(&mut sig, &mut children_mesg.signature);
        let item_sig = self.item_sig;
        if !bytes_eq(&item_sig, &sig) {
            return Err(Error::MismatchSignature(item_sig, sig));
        }
        Ok(ReadyArraySerializer { prev: self.prev, contents: children_mesg, item_sig: item_sig })
    }
}

/// A dict-of-variants (`a{sv}`) whose next entry may now be serialized.
/// Entries whose value is the empty struct `()` can be dropped.
pub struct ReadyDictSerializer {
    pub ser: ReadyArraySerializer,
}

impl ReadyDictSerializer {
    /// Begin the next entry's value; it is serialized into a fresh
    /// serializer and framed as `{key, variant}` when the entry finishes.
    pub fn start_item(self) -> (r: (PendingDictSerializer, ReadySerializer))
        ensures
            r.0.ser == self.ser,
            pm_fresh(r.1.mesg),
            pm_wf(r.1.mesg),
            stream_total(r.1.mesg.builder.stream()) == 24,
    {
        let dict = PendingDictSerializer { ser: self.ser };
        let ready = ReadySerializer::new();
        (dict, ready)
    }

    /// Close the dict.
    pub fn finish_dict(self) -> (r: DoneSerializer)
        requires
            pm_wf(self.ser.prev),
            pm_wf(self.ser.contents),
            stream_total(self.ser.prev.builder.stream()) + 2 * stream_total(
                self.ser.contents.builder.stream(),
            ) + 256 <= usize::MAX,
            self.ser.prev.builder.next_token() + 1 + self.ser.contents.builder.next_token()
                <= usize::MAX,
            self.ser.prev.signature@.len() + 1 + self.ser.item_sig@.len() <= usize::MAX,
        ensures
            r.mesg.builder.stream() == array_stream(
                self.ser.prev.builder.stream(),
                self.ser.contents.builder.stream(),
                self.ser.prev.builder.next_token(),
                crate::primitives::elem_align_of(self.ser.item_sig@),
            ),
            r.mesg.signature@ == self.ser.prev.signature@.push(CODE_ARRAY) + self.ser.item_sig@,
            r.mesg.builder.next_token() == self.ser.prev.builder.next_token() + 1
                + self.ser.contents.builder.next_token(),
            pm_wf(r.mesg),
            stream_total(r.mesg.builder.stream()) <= stream_total(self.ser.prev.builder.stream())
                + 2 * stream_total(self.ser.contents.builder.stream()) + 256,
    {
        self.ser.finish_array()
    }
}

/// A dict whose current entry's value has been serialized but not yet
/// framed.
pub struct PendingDictSerializer {
    pub ser: ReadyArraySerializer,
}

impl PendingDictSerializer {
    /// Drop the entry: nothing is emitted.
    pub fn cancel_item(self) -> (r: ReadyDictSerializer)
        ensures
            r.ser == self.ser,
    {
        ReadyDictSerializer { ser: self.ser }
    }

    /// Frame the entry unless its value is the empty struct `()`, in which
    /// case the key/value pair is dropped entirely.
    pub fn finish_optional_item(self, name: &[u8], value: DoneSerializer) -> (r: Result<
        ReadyDictSerializer,
        Error,
    >)
        requires
            pm_wf(self.ser.contents),
            pm_wf(value.mesg),
            stream_total(self.ser.contents.builder.stream()) + 2 * stream_total(
                value.mesg.builder.stream(),
            ) + name@.len() + value.mesg.signature@.len() + 256 <= usize::MAX,
            self.ser.contents.builder.next_token() + value.mesg.builder.next_token()
                <= usize::MAX,
            self.ser.contents.signature@.len() + 4 <= usize::MAX,
        ensures
            match r {
                Ok(d) => {
                    if value.mesg.signature@ == seq![CODE_STRUCT_OPEN, CODE_STRUCT_CLOSE] {
                        d.ser == self.ser
                    } else {
                        dict_item_ensures(self.ser, name@, value, d.ser)
                    }
                },
                Err(e) => {
                    &&& value.mesg.signature@ != seq![CODE_STRUCT_OPEN, CODE_STRUCT_CLOSE]
                    &&& self.ser.contents.signature@ + dict_entry_sig() != self.ser.item_sig@
                    &&& e matches Error::MismatchSignature(expected, got) && expected@
                        == self.ser.item_sig@ && got@ == self.ser.contents.signature@
                        + dict_entry_sig()
                },
            },
    {
        let is_unit = value.mesg.signature.len() == 2 && value.mesg.signature[0]
            == CODE_STRUCT_OPEN && value.mesg.signature[1] == CODE_STRUCT_CLOSE;
        proof {
            if is_unit {
                assert(value.mesg.signature@ =~= seq![CODE_STRUCT_OPEN, CODE_STRUCT_CLOSE]);
            } else {
                assert(value.mesg.signature@ != seq![CODE_STRUCT_OPEN, CODE_STRUCT_CLOSE]);
            }
        }
        if is_unit {
            Ok(self.cancel_item())
        } else {
            self.finish_item(name, value)
        }
    }

    /// Frame the entry: a dict entry holding the key string and the value
    /// wrapped in a variant is appended to the array's contents.
    pub fn finish_item(self, name: &[u8], value: DoneSerializer) -> (r: Result<
        ReadyDictSerializer,
        Error,
    >)
        requires
            pm_wf(self.ser.contents),
            pm_wf(value.mesg),
            stream_total(self.ser.contents.builder.stream()) + 2 * stream_total(
                value.mesg.builder.stream(),
            ) + name@.len() + value.mesg.signature@.len() + 256 <= usize::MAX,
            self.ser.contents.builder.next_token() + value.mesg.builder.next_token()
                <= usize::MAX,
            self.ser.contents.signature@.len() + 4 <= usize::MAX,
        ensures
            match r {
                Ok(d) => dict_item_ensures(self.ser, name@, value, d.ser),
                Err(e) => {
                    &&& self.ser.contents.signature@ + dict_entry_sig() != self.ser.item_sig@
                    &&& e matches Error::MismatchSignature(expected, got) && expected@
                        == self.ser.item_sig@ && got@ == self.ser.contents.signature@
                        + dict_entry_sig()
                },
            },
    {
        proof {
            lemma_total_nonneg(self.ser.contents.builder.stream());
            lemma_total_nonneg(value.mesg.builder.stream());
            vstd::bytes::lemma_auto_spec_u32_to_from_le_bytes();
        }
        let ser = self.ser;
        let (ser, kv_ser) = ser.start_item();
        let kv_ser = kv_ser.start_kv_pair();
        let (kv_ser, str_ser) = kv_ser.start_item();
        let name_vec: Vec<u8> = vstd::slice::slice_to_vec(name);
        let key = Primitive::Str(name_vec);
        proof {
            assert(key.enc().len() == name@.len() + 5);
        }
        let str_ser = match str_ser.serialize_primitive(&key) {
            Ok(d) => d,
            Err(e) => {
                proof {
                    assert(false);
                }
                return Err(e);
            },
        };
        let kv_ser = kv_ser.finish_item(str_ser);
        let (kv_ser, var_ser) = kv_ser.start_item();
        let (var_ser, _unused) = var_ser.start_variant();
        let var_ser = var_ser.finish_variant(value);
        let kv_ser = kv_ser.finish_item(var_ser);
        let kv_ser = kv_ser.finish_kv_pair();
        proof {
            assert(kv_ser.mesg.signature@ =~= self.ser.contents.signature@ + dict_entry_sig());
        }
        let ser = match ser.finish_item(kv_ser) {
            Ok(s) => s,
            Err(e) => {
                return Err(e);
            },
        };
        Ok(ReadyDictSerializer { ser })
    }
}

/// What a successfully framed dict entry guarantees: the array state is
/// unchanged except that its contents gained an 8-aligned dict entry
/// holding the key string and the variant-wrapped value.
pub open spec fn dict_item_ensures(
    before: ReadyArraySerializer,
    name: Seq<u8>,
    value: DoneSerializer,
    after: ReadyArraySerializer,
) -> bool {
    &&& before.contents.signature@ + dict_entry_sig() == before.item_sig@
    &&& after.prev == before.prev
    &&& after.item_sig@ == before.item_sig@
    &&& after.contents.signature@ == Seq::<u8>::empty()
    &&& after.contents.builder.stream() == variant_stream(
        stream_append(
            stream_align(stream_align(before.contents.builder.stream(), 8), 4),
            str_enc(name),
        ),
        value.mesg.signature@,
        value.mesg.builder.stream(),
        before.contents.builder.next_token(),
    )
    &&& after.contents.builder.next_token() == before.contents.builder.next_token()
        + value.mesg.builder.next_token()
    &&& pm_wf(after.contents)
    &&& stream_total(after.contents.builder.stream()) <= stream_total(
        before.contents.builder.stream(),
    ) + 2 * stream_total(value.mesg.builder.stream()) + name.len() + value.mesg.signature@.len()
        + 128
}

} // verus!
