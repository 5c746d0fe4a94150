//! Deferred-emission byte assembler.
//!
//! DBus requires padding whose size depends on context that is not known
//! when a container begins: an array's 32-bit length must appear before the
//! element bytes, and the padding after the length depends on the first
//! element's alignment.  The builder therefore records an ordered stream of
//! *components* -- alignment slices (a declared alignment plus appended
//! bytes) and paired length-begin / length-end markers -- and resolves all
//! padding and length back-filling in a single pass on `complete`.

use vstd::prelude::*;

use crate::align::{align, align_up, lemma_align_up_bounds};

verus! {

/// Spec-level image of one component of a builder's stream.
pub enum Component {
    /// A run of bytes whose first byte is guaranteed the given alignment.
    Slice { alignment: int, bytes: Seq<u8> },
    /// Start of an array-length placeholder.
    LenBegin { token: int },
    /// End of an array-length placeholder.
    LenEnd { token: int },
}

/// A run of appended bytes together with the minimum alignment its first
/// byte is guaranteed to receive in the final output.
pub struct AlignmentSlice {
    pub alignment: usize,
    pub data: Vec<u8>,
}

/// Identifies one length placeholder; unique within one builder.
pub struct LengthToken(pub usize);

/// One element of the builder's component stream.
pub enum MessageComponent {
    Slice(AlignmentSlice),
    LengthBegin(LengthToken),
    LengthEnd(LengthToken),
}

impl View for MessageComponent {
    type V = Component;

    open spec fn view(&self) -> Component {
        match self {
            MessageComponent::Slice(s) => Component::Slice {
                alignment: s.alignment as int,
                bytes: s.data@,
            },
            MessageComponent::LengthBegin(t) => Component::LenBegin { token: t.0 as int },
            MessageComponent::LengthEnd(t) => Component::LenEnd { token: t.0 as int },
        }
    }
}

/// `n` zero bytes (empty when `n` is not positive).
pub open spec fn zero_bytes(n: int) -> Seq<u8> {
    Seq::new((if n >= 0 { n } else { 0 }) as nat, |i: int| 0u8)
}

/// `bytes` padded with zeros up to a multiple of `alignment`.
pub open spec fn pad_bytes(bytes: Seq<u8>, alignment: int) -> Seq<u8> {
    bytes + zero_bytes(align_up(bytes.len() as int, alignment) - bytes.len())
}

/// The alignments the DBus wire format uses.
pub open spec fn alignment_ok(a: int) -> bool {
    a == 1 || a == 2 || a == 4 || a == 8
}

/// A well-formed stream: non-empty, topped by a slice, all alignments drawn
/// from the DBus set.
pub open spec fn stream_wf(s: Seq<Component>) -> bool {
    &&& s.len() >= 1
    &&& s.last() is Slice
    &&& forall|i: int|
        0 <= i < s.len() ==> match #[trigger] s[i] {
            Component::Slice { alignment, .. } => alignment_ok(alignment),
            _ => true,
        }
}

/// Effect of declaring an alignment: an empty top slice has its guarantee
/// raised; a top slice already guaranteed enough is padded in place; and
/// otherwise a fresh, stricter slice is begun (bytes already committed
/// cannot be aligned more strictly after the fact).
pub open spec fn stream_align(s: Seq<Component>, alignment: int) -> Seq<Component> {
    match s.last() {
        Component::Slice { alignment: cur, bytes } => {
            if bytes.len() == 0 {
                s.update(
                    s.len() - 1,
                    Component::Slice {
                        alignment: if cur >= alignment {
                            cur
                        } else {
                            alignment
                        },
                        bytes: bytes,
                    },
                )
            } else if cur >= alignment {
                s.update(
                    s.len() - 1,
                    Component::Slice { alignment: cur, bytes: pad_bytes(bytes, alignment) },
                )
            } else {
                s.push(Component::Slice { alignment: alignment, bytes: Seq::empty() })
            }
        },
        _ => s,
    }
}

/// Effect of appending bytes to the top slice.
pub open spec fn stream_append(s: Seq<Component>, bytes: Seq<u8>) -> Seq<Component> {
    match s.last() {
        Component::Slice { alignment, bytes: b } => s.update(
            s.len() - 1,
            Component::Slice { alignment: alignment, bytes: b + bytes },
        ),
        _ => s,
    }
}

/// Effect of starting a length placeholder with the given token.
pub open spec fn stream_start_length(s: Seq<Component>, token: int) -> Seq<Component> {
    stream_align(s, 4).push(Component::LenBegin { token }).push(
        Component::Slice { alignment: 4, bytes: Seq::empty() },
    )
}

/// Effect of finishing a length placeholder.
pub open spec fn stream_finish_length(s: Seq<Component>, token: int) -> Seq<Component> {
    s.push(Component::LenEnd { token }).push(
        Component::Slice { alignment: 1, bytes: Seq::empty() },
    )
}

/// Effect of splicing another builder's stream onto `s`: slices are
/// replayed as align-then-append, and length markers are carried through
/// (tokens shifted by `offset` to keep them unique) with a fresh top slice
/// after each to preserve the top-is-slice invariant.
pub open spec fn stream_append_data(s: Seq<Component>, other: Seq<Component>, offset: int) -> Seq<
    Component,
>
    decreases other.len(),
{
    if other.len() == 0 {
        s
    } else {
        let s2 = match other.first() {
            Component::Slice { alignment, bytes } => stream_append(
                stream_align(s, alignment),
                bytes,
            ),
            Component::LenBegin { token } => s.push(
                Component::LenBegin { token: token + offset },
            ).push(Component::Slice { alignment: 1, bytes: Seq::empty() }),
            Component::LenEnd { token } => s.push(Component::LenEnd { token: token + offset }).push(
                Component::Slice { alignment: 1, bytes: Seq::empty() },
            ),
        };
        stream_append_data(s2, other.drop_first(), offset)
    }
}

/// Size budget of one component: its byte content plus a constant that
/// covers any padding, reserved length field, or bookkeeping it may cost.
pub open spec fn component_total(c: Component) -> int {
    match c {
        Component::Slice { bytes, .. } => bytes.len() as int + 24,
        _ => 24,
    }
}

/// Size budget of a stream; an upper bound on the length of the completed
/// output (and on the byte run of any single slice).
pub open spec fn stream_total(s: Seq<Component>) -> int
    decreases s.len(),
{
    if s.len() == 0 {
        0
    } else {
        stream_total(s.drop_last()) + component_total(s.last())
    }
}

/// The tokens (if any) of one component are below `n`.
pub open spec fn component_tokens_lt(c: Component, n: int) -> bool {
    match c {
        Component::LenBegin { token } => 0 <= token < n,
        Component::LenEnd { token } => 0 <= token < n,
        _ => true,
    }
}

/// All length tokens occurring in the stream are below `n`.
pub open spec fn tokens_lt(s: Seq<Component>, n: int) -> bool {
    forall|i: int| 0 <= i < s.len() ==> component_tokens_lt(#[trigger] s[i], n)
}

pub proof fn lemma_total_nonneg(s: Seq<Component>)
    ensures
        stream_total(s) >= 0,
    decreases s.len(),
{
    if s.len() > 0 {
        lemma_total_nonneg(s.drop_last());
    }
}

pub proof fn lemma_top_le_total(s: Seq<Component>)
    requires
        s.len() >= 1,
    ensures
        stream_top_len(s) <= stream_total(s),
    decreases s.len(),
{
    lemma_total_nonneg(s.drop_last());
}

pub proof fn lemma_total_take_succ(s: Seq<Component>, i: int)
    requires
        0 <= i < s.len(),
    ensures
        stream_total(s.take(i + 1)) == stream_total(s.take(i)) + component_total(s[i]),
{
    assert(s.take(i + 1).drop_last() =~= s.take(i));
    assert(s.take(i + 1).last() == s[i]);
}

pub proof fn lemma_total_take_le(s: Seq<Component>, i: int)
    requires
        0 <= i <= s.len(),
    ensures
        stream_total(s.take(i)) <= stream_total(s),
    decreases s.len() - i,
{
    if i == s.len() {
        assert(s.take(i) =~= s);
    } else {
        lemma_total_take_succ(s, i);
        lemma_total_take_le(s, i + 1);
    }
}

/// Aligning costs at most the constant budget of one component.
pub proof fn lemma_total_align(s: Seq<Component>, a: int)
    requires
        stream_wf(s),
        alignment_ok(a),
    ensures
        stream_total(stream_align(s, a)) <= stream_total(s) + 24,
        stream_wf(stream_align(s, a)),
    decreases s.len(),
{
    let n = s.len() as int;
    match s.last() {
        Component::Slice { alignment: cur, bytes } => {
            lemma_align_up_bounds(bytes.len() as int, a);
            if bytes.len() == 0 || cur >= a {
                let s2 = stream_align(s, a);
                assert(s2.drop_last() =~= s.drop_last());
                assert(s2.last() == s2[n - 1]);
                assert(forall|i: int| 0 <= i < n - 1 ==> s2[i] == s[i]);
            } else {
                let s2 = s.push(Component::Slice { alignment: a, bytes: Seq::empty() });
                assert(s2.drop_last() =~= s);
            }
        },
        _ => {},
    }
}

/// Appending bytes adds exactly their length to the budget.
pub proof fn lemma_total_append(s: Seq<Component>, b: Seq<u8>)
    requires
        stream_wf(s),
    ensures
        stream_total(stream_append(s, b)) == stream_total(s) + b.len(),
        stream_wf(stream_append(s, b)),
{
    let n = s.len() as int;
    match s.last() {
        Component::Slice { alignment, bytes: b0 } => {
            let s2 = stream_append(s, b);
            assert(s2.drop_last() =~= s.drop_last());
            assert(s2.last() == s2[n - 1]);
            assert(forall|i: int| 0 <= i < n - 1 ==> s2[i] == s[i]);
        },
        _ => {},
    }
}

/// Aligning and appending introduce no new length tokens.
pub proof fn lemma_tokens_align_append(s: Seq<Component>, a: int, b: Seq<u8>, n: int)
    requires
        stream_wf(s),
        tokens_lt(s, n),
    ensures
        tokens_lt(stream_align(s, a), n),
        tokens_lt(stream_append(s, b), n),
{
    let sa = stream_align(s, a);
    assert forall|i: int| 0 <= i < sa.len() implies component_tokens_lt(#[trigger] sa[i], n) by {
        if i < s.len() {
            assert(component_tokens_lt(s[i], n));
        }
    }
    let sb = stream_append(s, b);
    assert forall|i: int| 0 <= i < sb.len() implies component_tokens_lt(#[trigger] sb[i], n) by {
        if i < s.len() {
            assert(component_tokens_lt(s[i], n));
        }
    }
}

/// One step of the splice, taken off the right end.
pub proof fn lemma_append_data_snoc(s: Seq<Component>, t: Seq<Component>, c: Component, off: int)
    ensures
        stream_append_data(s, t.push(c), off) == match c {
            Component::Slice { alignment, bytes } => stream_append(
                stream_align(stream_append_data(s, t, off), alignment),
                bytes,
            ),
            Component::LenBegin { token } => stream_append_data(s, t, off).push(
                Component::LenBegin { token: token + off },
            ).push(Component::Slice { alignment: 1, bytes: Seq::empty() }),
            Component::LenEnd { token } => stream_append_data(s, t, off).push(
                Component::LenEnd { token: token + off },
            ).push(Component::Slice { alignment: 1, bytes: Seq::empty() }),
        },
    decreases t.len(),
{
    let tc = t.push(c);
    reveal_with_fuel(stream_append_data, 3);
    if t.len() == 0 {
        assert(tc.first() == c);
        assert(tc.drop_first() =~= Seq::<Component>::empty());
    } else {
        assert(tc.first() == t.first());
        assert(tc.drop_first() =~= t.drop_first().push(c));
        let s2 = match t.first() {
            Component::Slice { alignment, bytes } => stream_append(
                stream_align(s, alignment),
                bytes,
            ),
            Component::LenBegin { token } => s.push(Component::LenBegin { token: token + off }).push(
                Component::Slice { alignment: 1, bytes: Seq::empty() },
            ),
            Component::LenEnd { token } => s.push(Component::LenEnd { token: token + off }).push(
                Component::Slice { alignment: 1, bytes: Seq::empty() },
            ),
        };
        lemma_append_data_snoc(s2, t.drop_first(), c, off);
    }
}

/// Length of the byte run in the top slice of a stream.
pub open spec fn stream_top_len(s: Seq<Component>) -> int {
    match s.last() {
        Component::Slice { bytes, .. } => bytes.len() as int,
        _ => 0,
    }
}

/// Pad a byte vector with zeros up to a multiple of `alignment`.
pub fn align_vec(vec: &mut Vec<u8>, alignment: usize)
    requires
        alignment >= 1,
        old(vec)@.len() + alignment <= usize::MAX,
    ensures
        final(vec)@ == pad_bytes(old(vec)@, alignment as int),
{
    proof {
        lemma_align_up_bounds(old(vec)@.len() as int, alignment as int);
    }
    let n = align(vec.len(), alignment);
    vec.resize(n, 0);
    proof {
        assert(vec@ =~= pad_bytes(old(vec)@, alignment as int));
    }
}

/// Spec-level image of one pending length back-fill: where the four
/// reserved bytes sit (`fill`) and where the counted bytes start (`begin`).
pub struct LenEntry {
    pub token: int,
    pub fill: int,
    pub begin: int,
}

/// State of the finalization pass: the output so far, the pending length
/// entries, and the token of a length whose counted region has not yet
/// been pinned to a post-padding position.
pub struct CompleteState {
    pub out: Seq<u8>,
    pub entries: Seq<LenEntry>,
    pub recent: Option<int>,
}

/// Index of the most recently recorded entry for `token`, if any.
pub open spec fn find_entry(entries: Seq<LenEntry>, token: int) -> Option<int>
    decreases entries.len(),
{
    if entries.len() == 0 {
        None
    } else if entries.last().token == token {
        Some(entries.len() - 1)
    } else {
        find_entry(entries.drop_last(), token)
    }
}

pub proof fn lemma_find_entry_props(entries: Seq<LenEntry>, token: int)
    ensures
        match find_entry(entries, token) {
            Some(j) => 0 <= j < entries.len() && entries[j].token == token,
            None => true,
        },
    decreases entries.len(),
{
    if entries.len() > 0 && entries.last().token != token {
        lemma_find_entry_props(entries.drop_last(), token);
    }
}

/// Write the four bytes `b` into `out` at position `fill`.
pub open spec fn backfill4(out: Seq<u8>, fill: int, b: Seq<u8>) -> Seq<u8> {
    out.update(fill, b[0]).update(fill + 1, b[1]).update(fill + 2, b[2]).update(fill + 3, b[3])
}

/// One step of finalization.
///
/// A slice pads the output to its alignment and then contributes its
/// bytes; if a length was just begun, its counted region starts at the
/// post-padding position (DBus lengths exclude the padding between the
/// length field and the first element).  A length-begin reserves four zero
/// bytes.  A length-end back-fills them with the little-endian count of
/// the bytes emitted since the counted region began.
pub open spec fn complete_step(st: CompleteState, c: Component) -> CompleteState {
    match c {
        Component::Slice { alignment, bytes } => {
            let padded = pad_bytes(st.out, alignment);
            let entries2 = match st.recent {
                Some(tok) => match find_entry(st.entries, tok) {
                    Some(j) => st.entries.update(
                        j,
                        LenEntry {
                            token: tok,
                            fill: st.entries[j].fill,
                            begin: padded.len() as int,
                        },
                    ),
                    None => st.entries,
                },
                None => st.entries,
            };
            CompleteState { out: padded + bytes, entries: entries2, recent: None }
        },
        Component::LenBegin { token } => CompleteState {
            out: st.out + zero_bytes(4),
            entries: st.entries.push(
                LenEntry { token, fill: st.out.len() as int, begin: st.out.len() as int + 4 },
            ),
            recent: Some(token),
        },
        Component::LenEnd { token } => match find_entry(st.entries, token) {
            Some(j) => {
                let e = st.entries[j];
                let count = (st.out.len() - e.begin) as u32;
                CompleteState {
                    out: backfill4(st.out, e.fill, vstd::bytes::spec_u32_to_le_bytes(count)),
                    entries: st.entries,
                    recent: None,
                }
            },
            None => CompleteState { out: st.out, entries: st.entries, recent: None },
        },
    }
}

pub open spec fn complete_fold(s: Seq<Component>, st: CompleteState) -> CompleteState
    decreases s.len(),
{
    if s.len() == 0 {
        st
    } else {
        complete_fold(s.drop_first(), complete_step(st, s.first()))
    }
}

pub open spec fn init_complete_state() -> CompleteState {
    CompleteState { out: Seq::empty(), entries: Seq::empty(), recent: None }
}

/// The final byte output of a builder whose stream is `s`.
pub open spec fn spec_complete(s: Seq<Component>) -> Seq<u8> {
    complete_fold(s, init_complete_state()).out
}

/// Well-formedness of a finalization state: every entry's reserved bytes
/// lie before its counted region, which starts inside the output.
pub open spec fn complete_state_inv(st: CompleteState) -> bool {
    forall|j: int|
        0 <= j < st.entries.len() ==> {
            let e = #[trigger] st.entries[j];
            0 <= e.fill && e.fill + 4 <= e.begin && e.begin <= st.out.len()
        }
}

/// A finalization step preserves the state invariant, never shrinks the
/// output, and grows it by at most the component's budget.
pub proof fn lemma_complete_step_inv(st: CompleteState, c: Component)
    requires
        complete_state_inv(st),
        match c {
            Component::Slice { alignment, .. } => alignment_ok(alignment),
            _ => true,
        },
    ensures
        complete_state_inv(complete_step(st, c)),
        st.out.len() <= complete_step(st, c).out.len() <= st.out.len() + component_total(c),
{
    match c {
        Component::Slice { alignment, bytes } => {
            lemma_align_up_bounds(st.out.len() as int, alignment);
            let st2 = complete_step(st, c);
            assert forall|j: int| 0 <= j < st2.entries.len() implies {
                let e = #[trigger] st2.entries[j];
                0 <= e.fill && e.fill + 4 <= e.begin && e.begin <= st2.out.len()
            } by {
                match st.recent {
                    Some(tok) => {
                        lemma_find_entry_props(st.entries, tok);
                        assert({
                            let e = st.entries[j];
                            0 <= e.fill && e.fill + 4 <= e.begin && e.begin <= st.out.len()
                        });
                    },
                    None => {
                        assert({
                            let e = st.entries[j];
                            0 <= e.fill && e.fill + 4 <= e.begin && e.begin <= st.out.len()
                        });
                    },
                }
            }
        },
        Component::LenBegin { token } => {
            let st2 = complete_step(st, c);
            assert forall|j: int| 0 <= j < st2.entries.len() implies {
                let e = #[trigger] st2.entries[j];
                0 <= e.fill && e.fill + 4 <= e.begin && e.begin <= st2.out.len()
            } by {
                if j < st.entries.len() {
                    assert({
                        let e = st.entries[j];
                        0 <= e.fill && e.fill + 4 <= e.begin && e.begin <= st.out.len()
                    });
                }
            }
        },
        Component::LenEnd { token } => {
            lemma_find_entry_props(st.entries, token);
        },
    }
}

/// One step of the fold, taken off the right end.
pub proof fn lemma_complete_fold_snoc(t: Seq<Component>, c: Component, st: CompleteState)
    ensures
        complete_fold(t.push(c), st) == complete_step(complete_fold(t, st), c),
    decreases t.len(),
{
    let tc = t.push(c);
    reveal_with_fuel(complete_fold, 3);
    if t.len() == 0 {
        assert(tc.first() == c);
        assert(tc.drop_first() =~= Seq::<Component>::empty());
    } else {
        assert(tc.first() == t.first());
        assert(tc.drop_first() =~= t.drop_first().push(c));
        lemma_complete_fold_snoc(t.drop_first(), c, complete_step(st, t.first()));
    }
}

/// Exec-side record of one pending length back-fill.
pub struct LengthPosition {
    pub token: usize,
    pub fill: usize,
    pub begin: usize,
}

impl View for LengthPosition {
    type V = LenEntry;

    open spec fn view(&self) -> LenEntry {
        LenEntry { token: self.token as int, fill: self.fill as int, begin: self.begin as int }
    }
}

/// Spec image of the exec `recent` register.
pub open spec fn recent_view(r: Option<usize>) -> Option<int> {
    match r {
        Some(t) => Some(t as int),
        None => None,
    }
}

/// Find the most recently recorded position for `token`.
fn find_position(entries: &Vec<LengthPosition>, token: usize) -> (r: Option<usize>)
    ensures
        match r {
            Some(j) => find_entry(entries@.map_values(|p: LengthPosition| p@), token as int)
                == Some(j as int) && j < entries@.len(),
            None => find_entry(entries@.map_values(|p: LengthPosition| p@), token as int)
                is None,
        },
{
    let ghost ev = entries@.map_values(|p: LengthPosition| p@);
    let mut j = entries.len();
    proof {
        assert(ev.take(j as int) =~= ev);
    }
    while j > 0
        invariant
            j <= entries@.len(),
            ev == entries@.map_values(|p: LengthPosition| p@),
            find_entry(ev, token as int) == find_entry(ev.take(j as int), token as int),
        decreases j,
    {
        if entries[j - 1].token == token {
            proof {
                assert(ev.take(j as int).last() == ev[j as int - 1]);
            }
            return Some(j - 1);
        }
        proof {
            assert(ev.take(j as int).last() == ev[j as int - 1]);
            assert(ev.take(j as int).drop_last() =~= ev.take(j as int - 1));
        }
        j = j - 1;
    }
    proof {
        assert(ev.take(0) =~= Seq::<LenEntry>::empty());
    }
    None
}

pub struct PendingMessage {
    pub builder: MessageBuilder,
    pub signature: Vec<u8>,
}

impl PendingMessage {
    /// A fresh builder with an empty signature.
    pub fn new() -> (r: PendingMessage)
        ensures
            r.builder.stream() == empty_stream(),
            r.builder.next_token() == 0,
            r.signature@ == Seq::<u8>::empty(),
    {
        PendingMessage { builder: MessageBuilder::new(), signature: Vec::new() }
    }
}

/// The stream a fresh builder starts with: one empty byte-aligned slice.
pub open spec fn empty_stream() -> Seq<Component> {
    seq![Component::Slice { alignment: 1, bytes: Seq::empty() }]
}

pub struct MessageBuilder {
    pub data: Vec<MessageComponent>,
    pub fresh_token: usize,
}

impl MessageBuilder {
    /// The spec-level component stream.
    pub open spec fn stream(&self) -> Seq<Component> {
        self.data@.map_values(|c: MessageComponent| c@)
    }

    /// The next length token this builder would mint; all tokens already in
    /// the stream are smaller.
    pub open spec fn next_token(&self) -> int {
        self.fresh_token as int
    }

    pub fn new() -> (r: MessageBuilder)
        ensures
            r.stream() == empty_stream(),
            r.next_token() == 0,
    {
        let mut data: Vec<MessageComponent> = Vec::new();
        data.push(
            MessageComponent::Slice(AlignmentSlice { alignment: 1, data: Vec::new() }),
        );
        let r = MessageBuilder { data, fresh_token: 0 };
        proof {
            assert(r.stream() =~= empty_stream());
        }
        r
    }

    /// Declare that the next byte written must fall on a multiple of
    /// `alignment`.  Padding is deferred: an empty top slice only has its
    /// guarantee raised; otherwise the slice is padded in place or a fresh
    /// slice is begun.
    pub fn align(&mut self, alignment: usize)
        requires
            stream_wf(old(self).stream()),
            alignment_ok(alignment as int),
            stream_top_len(old(self).stream()) + alignment <= usize::MAX,
            tokens_lt(old(self).stream(), old(self).next_token()),
        ensures
            final(self).stream() == stream_align(old(self).stream(), alignment as int),
            final(self).next_token() == old(self).next_token(),
            stream_wf(final(self).stream()),
            tokens_lt(final(self).stream(), final(self).next_token()),
            stream_total(final(self).stream()) <= stream_total(old(self).stream()) + 24,
    {
        let ghost s0 = self.stream();
        match self.data.pop() {
            Some(MessageComponent::Slice(mut top)) => {
                if top.data.len() == 0 {
                    if alignment > top.alignment {
                        top.alignment = alignment;
                    }
                    self.data.push(MessageComponent::Slice(top));
                    proof {
                        assert(self.stream() =~= stream_align(s0, alignment as int));
                        lemma_total_align(s0, alignment as int);
                        lemma_tokens_align_append(s0, alignment as int, Seq::empty(), old(
                            self,
                        ).next_token());
                    }
                } else if top.alignment >= alignment {
                    align_vec(&mut top.data, alignment);
                    self.data.push(MessageComponent::Slice(top));
                    proof {
                        assert(self.stream() =~= stream_align(s0, alignment as int));
                        lemma_total_align(s0, alignment as int);
                        lemma_tokens_align_append(s0, alignment as int, Seq::empty(), old(
                            self,
                        ).next_token());
                    }
                } else {
                    self.data.push(MessageComponent::Slice(top));
                    self.data.push(
                        MessageComponent::Slice(
                            AlignmentSlice { alignment: alignment, data: Vec::new() },
                        ),
                    );
                    proof {
                        assert(self.stream() =~= stream_align(s0, alignment as int));
                        lemma_total_align(s0, alignment as int);
                        lemma_tokens_align_append(s0, alignment as int, Seq::empty(), old(
                            self,
                        ).next_token());
                    }
                }
            },
            _ => {
                proof {
                    assert(false);
                }
            },
        }
    }

    /// Append bytes to the top slice.
    pub fn append_bytes(&mut self, bytes: &[u8])
        requires
            stream_wf(old(self).stream()),
            stream_top_len(old(self).stream()) + bytes@.len() <= usize::MAX,
            tokens_lt(old(self).stream(), old(self).next_token()),
        ensures
            final(self).stream() == stream_append(old(self).stream(), bytes@),
            final(self).next_token() == old(self).next_token(),
            stream_wf(final(self).stream()),
            tokens_lt(final(self).stream(), final(self).next_token()),
            stream_total(final(self).stream()) == stream_total(old(self).stream()) + bytes@.len(),
    {
        let ghost s0 = self.stream();
        match self.data.pop() {
            Some(MessageComponent::Slice(mut top)) => {
                let ghost b0 = top.data@;
                top.data.extend_from_slice(bytes);
                proof {
                    assert(top.data@ =~= b0 + bytes@);
                }
                self.data.push(MessageComponent::Slice(top));
                proof {
                    assert(self.stream() =~~= stream_append(s0, bytes@));
                    lemma_total_append(s0, bytes@);
                    lemma_tokens_align_append(s0, 1, bytes@, old(self).next_token());
                }
            },
            _ => {
                proof {
                    assert(false);
                }
            },
        }
    }

    /// Start a length placeholder: four zero bytes are reserved at the
    /// current (4-aligned) position and will be back-filled on `complete`.
    pub fn start_length(&mut self) -> (token: LengthToken)
        requires
            stream_wf(old(self).stream()),
            stream_top_len(old(self).stream()) + 4 <= usize::MAX,
            old(self).next_token() + 1 <= usize::MAX,
            tokens_lt(old(self).stream(), old(self).next_token()),
        ensures
            token.0 as int == old(self).next_token(),
            final(self).stream() == stream_start_length(old(self).stream(), token.0 as int),
            final(self).next_token() == old(self).next_token() + 1,
            stream_wf(final(self).stream()),
            tokens_lt(final(self).stream(), final(self).next_token()),
            stream_total(final(self).stream()) <= stream_total(old(self).stream()) + 72,
    {
        let ghost s0 = self.stream();
        let token: usize = self.fresh_token;
        self.fresh_token = self.fresh_token + 1;
        self.align(4);
        self.data.push(MessageComponent::LengthBegin(LengthToken(token)));
        self.data.push(
            MessageComponent::Slice(AlignmentSlice { alignment: 4, data: Vec::new() }),
        );
        proof {
            assert(self.stream() =~= stream_start_length(s0, token as int));
            lemma_total_align(s0, 4);
            lemma_tokens_align_append(s0, 4, Seq::empty(), token as int);
            let sa = stream_align(s0, 4);
            let s1 = sa.push(Component::LenBegin { token: token as int });
            let s2 = s1.push(Component::Slice { alignment: 1, bytes: Seq::empty() });
            assert(s1.drop_last() =~= sa);
            assert(self.stream().drop_last() =~= s1);
            assert(stream_total(s1) == stream_total(sa) + 24);
            assert(stream_total(self.stream()) == stream_total(s1) + 24);
            assert forall|i: int| 0 <= i < self.stream().len() implies component_tokens_lt(
                #[trigger] self.stream()[i],
                token as int + 1,
            ) by {
                if i < sa.len() {
                    assert(component_tokens_lt(sa[i], token as int));
                }
            }
        }
        LengthToken(token)
    }

    /// Finish a length placeholder: the bytes appended between start and
    /// finish are what the back-filled length will count.
    pub fn finish_length(&mut self, token: LengthToken)
        requires
            stream_wf(old(self).stream()),
            tokens_lt(old(self).stream(), old(self).next_token()),
            (token.0 as int) < old(self).next_token(),
        ensures
            final(self).stream() == stream_finish_length(old(self).stream(), token.0 as int),
            final(self).next_token() == old(self).next_token(),
            stream_wf(final(self).stream()),
            tokens_lt(final(self).stream(), final(self).next_token()),
            stream_total(final(self).stream()) == stream_total(old(self).stream()) + 48,
    {
        let ghost s0 = self.stream();
        let ghost t = token.0 as int;
        self.data.push(MessageComponent::LengthEnd(token));
        self.data.push(
            MessageComponent::Slice(AlignmentSlice { alignment: 1, data: Vec::new() }),
        );
        proof {
            assert(self.stream() =~= stream_finish_length(s0, t));
            let s1 = s0.push(Component::LenEnd { token: t });
            assert(s1.drop_last() =~= s0);
            assert(self.stream().drop_last() =~= s1);
            assert(stream_total(s1) == stream_total(s0) + 24);
            assert(stream_total(self.stream()) == stream_total(s1) + 24);
            assert forall|i: int| 0 <= i < self.stream().len() implies component_tokens_lt(
                #[trigger] self.stream()[i],
                old(self).next_token(),
            ) by {
                if i < s0.len() {
                    assert(component_tokens_lt(s0[i], old(self).next_token()));
                }
            }
        }
    }

    /// Splice another builder's recorded stream onto this one.  Slices are
    /// replayed as align-then-append (a variant's value inherits the
    /// alignment of its new position); length markers are carried through
    /// with their tokens shifted past this builder's, so they stay unique.
    pub fn append_data(&mut self, other: &MessageBuilder)
        requires
            stream_wf(old(self).stream()),
            tokens_lt(old(self).stream(), old(self).next_token()),
            stream_wf(other.stream()),
            tokens_lt(other.stream(), other.next_token()),
            stream_total(old(self).stream()) + 2 * stream_total(other.stream()) + 64
                <= usize::MAX,
            old(self).next_token() + other.next_token() <= usize::MAX,
        ensures
            final(self).stream() == stream_append_data(
                old(self).stream(),
                other.stream(),
                old(self).next_token(),
            ),
            final(self).next_token() == old(self).next_token() + other.next_token(),
            stream_wf(final(self).stream()),
            tokens_lt(final(self).stream(), final(self).next_token()),
            stream_total(final(self).stream()) <= stream_total(old(self).stream()) + 2
                * stream_total(other.stream()),
    {
        let offset = self.fresh_token;
        self.fresh_token = self.fresh_token + other.fresh_token;
        let ghost s0 = self.stream();
        let ghost os = other.stream();
        let ghost bound = other.next_token();
        let n = other.data.len();
        let mut i: usize = 0;
        proof {
            assert(os.take(0) =~= Seq::<Component>::empty());
        }
        while i < n
            invariant
                0 <= i <= n,
                n == other.data.len(),
                os == other.stream(),
                stream_wf(os),
                tokens_lt(os, bound),
                bound == other.next_token(),
                stream_total(s0) + 2 * stream_total(os) + 64 <= usize::MAX,
                offset as int + bound <= usize::MAX,
                self.fresh_token as int == offset as int + bound,
                self.stream() == stream_append_data(s0, os.take(i as int), offset as int),
                stream_wf(self.stream()),
                tokens_lt(self.stream(), offset as int + bound),
                stream_total(self.stream()) <= stream_total(s0) + 2 * stream_total(
                    os.take(i as int),
                ),
            decreases n - i,
        {
            let ghost cur = self.stream();
            let ghost c = os[i as int];
            proof {
                lemma_total_take_succ(os, i as int);
                lemma_total_take_le(os, i as int + 1);
                lemma_top_le_total(cur);
                lemma_total_nonneg(os.take(i as int));
            }
            match &other.data[i] {
                MessageComponent::Slice(slice) => {
                    proof {
                        assert(c == Component::Slice {
                            alignment: slice.alignment as int,
                            bytes: slice.data@,
                        });
                        lemma_total_align(cur, slice.alignment as int);
                        lemma_top_le_total(stream_align(cur, slice.alignment as int));
                    }
                    self.align(slice.alignment);
                    self.append_bytes(slice.data.as_slice());
                },
                MessageComponent::LengthBegin(t) => {
                    proof {
                        assert(c == Component::LenBegin { token: t.0 as int });
                        assert(component_tokens_lt(os[i as int], bound));
                    }
                    self.data.push(
                        MessageComponent::LengthBegin(LengthToken(t.0 + offset)),
                    );
                    self.data.push(
                        MessageComponent::Slice(
                            AlignmentSlice { alignment: 1, data: Vec::new() },
                        ),
                    );
                    proof {
                        let s1 = cur.push(Component::LenBegin { token: t.0 as int + offset });
                        assert(self.stream() =~= s1.push(
                            Component::Slice { alignment: 1, bytes: Seq::empty() },
                        ));
                        assert(s1.drop_last() =~= cur);
                        assert(self.stream().drop_last() =~= s1);
                        assert(stream_total(s1) == stream_total(cur) + 24);
                        assert(stream_total(self.stream()) == stream_total(s1) + 24);
                        assert forall|j: int|
                            0 <= j < self.stream().len() implies component_tokens_lt(
                            #[trigger] self.stream()[j],
                            offset as int + bound,
                        ) by {
                            if j < cur.len() {
                                assert(component_tokens_lt(cur[j], offset as int + bound));
                            }
                        }
                    }
                },
                MessageComponent::LengthEnd(t) => {
                    proof {
                        assert(c == Component::LenEnd { token: t.0 as int });
                        assert(component_tokens_lt(os[i as int], bound));
                    }
                    self.data.push(MessageComponent::LengthEnd(LengthToken(t.0 + offset)));
                    self.data.push(
                        MessageComponent::Slice(
                            AlignmentSlice { alignment: 1, data: Vec::new() },
                        ),
                    );
                    proof {
                        let s1 = cur.push(Component::LenEnd { token: t.0 as int + offset });
                        assert(self.stream() =~= s1.push(
                            Component::Slice { alignment: 1, bytes: Seq::empty() },
                        ));
                        assert(s1.drop_last() =~= cur);
                        assert(self.stream().drop_last() =~= s1);
                        assert(stream_total(s1) == stream_total(cur) + 24);
                        assert(stream_total(self.stream()) == stream_total(s1) + 24);
                        assert forall|j: int|
                            0 <= j < self.stream().len() implies component_tokens_lt(
                            #[trigger] self.stream()[j],
                            offset as int + bound,
                        ) by {
                            if j < cur.len() {
                                assert(component_tokens_lt(cur[j], offset as int + bound));
                            }
                        }
                    }
                },
            }
            proof {
                lemma_append_data_snoc(s0, os.take(i as int), c, offset as int);
                assert(os.take(i as int).push(c) =~= os.take(i as int + 1));
            }
            i = i + 1;
        }
        proof {
            assert(os.take(n as int) =~= os);
        }
    }

    /// Emit the final byte vector.  Walking the components in order, each
    /// slice is padded into place and copied; each length-begin reserves
    /// four zero bytes; each length-end back-fills them with the
    /// little-endian count of the bytes emitted since its counted region
    /// began (excluding the padding after the length field).
    pub fn complete(self) -> (out: Vec<u8>)
        requires
            stream_wf(self.stream()),
            stream_total(self.stream()) + 64 <= usize::MAX,
        ensures
            out@ == spec_complete(self.stream()),
            out@.len() <= stream_total(self.stream()),
    {
        let ghost s = self.stream();
        let mut output: Vec<u8> = Vec::new();
        let mut entries: Vec<LengthPosition> = Vec::new();
        let mut recent: Option<usize> = None;
        let n = self.data.len();
        let mut i: usize = 0;
        proof {
            assert(s.take(0) =~= Seq::<Component>::empty());
            lemma_total_nonneg(s);
        }
        while i < n
            invariant
                0 <= i <= n,
                n == self.data.len(),
                s == self.stream(),
                stream_wf(s),
                stream_total(s) + 64 <= usize::MAX,
                complete_fold(s.take(i as int), init_complete_state()).out == output@,
                complete_fold(s.take(i as int), init_complete_state()).entries
                    == entries@.map_values(|p: LengthPosition| p@),
                complete_fold(s.take(i as int), init_complete_state()).recent == recent_view(
                    recent,
                ),
                complete_state_inv(
                    CompleteState {
                        out: output@,
                        entries: entries@.map_values(|p: LengthPosition| p@),
                        recent: recent_view(recent),
                    },
                ),
                output@.len() <= stream_total(s.take(i as int)),
            decreases n - i,
        {
            let ghost st0 = complete_fold(s.take(i as int), init_complete_state());
            let ghost c = s[i as int];
            proof {
                assert(st0 == (CompleteState {
                    out: output@,
                    entries: entries@.map_values(|p: LengthPosition| p@),
                    recent: recent_view(recent),
                }));
                assert(s.take(i as int + 1) =~= s.take(i as int).push(c));
                lemma_complete_fold_snoc(s.take(i as int), c, init_complete_state());
                lemma_complete_step_inv(st0, c);
                lemma_total_take_succ(s, i as int);
                lemma_total_take_le(s, i as int + 1);
            }
            match &self.data[i] {
                MessageComponent::Slice(a_slice) => {
                    proof {
                        assert(c == Component::Slice {
                            alignment: a_slice.alignment as int,
                            bytes: a_slice.data@,
                        });
                    }
                    align_vec(&mut output, a_slice.alignment);
                    match recent {
                        Some(tok) => {
                            proof {
                                lemma_find_entry_props(st0.entries, tok as int);
                            }
                            match find_position(&entries, tok) {
                                Some(j) => {
                                    let fill = entries[j].fill;
                                    entries[j] =
                                    LengthPosition { token: tok, fill: fill, begin: output.len() };
                                    proof {
                                        assert(entries@.map_values(|p: LengthPosition| p@)
                                            =~= st0.entries.update(
                                            j as int,
                                            LenEntry {
                                                token: tok as int,
                                                fill: fill as int,
                                                begin: output@.len() as int,
                                            },
                                        ));
                                    }
                                },
                                None => {
                                },
                            }
                            recent = None;
                        },
                        None => {
                        },
                    }
                    output.extend_from_slice(a_slice.data.as_slice());
                    proof {
                        assert(output@ =~= pad_bytes(st0.out, a_slice.alignment as int)
                            + a_slice.data@);
                    }
                },
                MessageComponent::LengthBegin(t) => {
                    proof {
                        assert(c == Component::LenBegin { token: t.0 as int });
                    }
                    entries.push(
                        LengthPosition { token: t.0, fill: output.len(), begin: output.len() + 4 },
                    );
                    output.push(0);
                    output.push(0);
                    output.push(0);
                    output.push(0);
                    recent = Some(t.0);
                    proof {
                        assert(output@ =~= st0.out + zero_bytes(4));
                        assert(entries@.map_values(|p: LengthPosition| p@) =~= st0.entries.push(
                            LenEntry {
                                token: t.0 as int,
                                fill: st0.out.len() as int,
                                begin: st0.out.len() as int + 4,
                            },
                        ));
                    }
                },
                MessageComponent::LengthEnd(t) => {
                    proof {
                        assert(c == Component::LenEnd { token: t.0 as int });
                        lemma_find_entry_props(st0.entries, t.0 as int);
                    }
                    match find_position(&entries, t.0) {
                        Some(j) => {
                            let fill = entries[j].fill;
                            let begin = entries[j].begin;
                            let count = output.len() - begin;
                            let count32: u32 = #[verifier::truncate] (count as u32);
                            let b = vstd::bytes::u32_to_le_bytes(count32);
                            proof {
                                vstd::bytes::lemma_auto_spec_u32_to_from_le_bytes();
                                assert(count32 == (st0.out.len() - begin) as u32);
                            }
                            output[fill] = b[0];
                            output[fill + 1] = b[1];
                            output[fill + 2] = b[2];
                            output[fill + 3] = b[3];
                            proof {
                                assert(output@ =~= backfill4(
                                    st0.out,
                                    fill as int,
                                    vstd::bytes::spec_u32_to_le_bytes(count32),
                                ));
                            }
                        },
                        None => {
                        },
                    }
                    recent = None;
                },
            }
            i = i + 1;
        }
        proof {
            assert(s.take(n as int) =~= s);
        }
        output
    }
}

} // verus!
