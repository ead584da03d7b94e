//! Scrollback ring: the retained tail of a terminal's output stream, with
//! anchors (stream positions whose render state is recorded) so that any
//! retained prefix can be replayed from a known state.

use vstd::prelude::*;
use std::collections::VecDeque;
use crate::proto::{same_state, AnchorState, DeltaSlice, Snapshot, StreamSeq};
use crate::tracker::{events_apply, split_cleared, vte_events, AnchorTracker, TrackerState};
use crate::text::{dec_digits, push_decimal};

verus! {

pub const DEFAULT_CAPACITY_BYTES: usize = 4194304;

pub const DEFAULT_ANCHOR_INTERVAL: usize = 65536;

pub const MAX_CAPACITY_BYTES: usize = 67108864;

/// A ring cannot be built with the requested capacity.
#[derive(Debug, PartialEq, Eq)]
pub enum RingError {
    /// The capacity exceeds the per-terminal limit.
    CapacityTooLarge(usize),
}

impl RingError {
    /// The error's message: `capacity <n> exceeds the per-terminal limit <max>`.
    pub fn message(&self) -> (r: String)
        ensures
            match *self {
                RingError::CapacityTooLarge(n) => r@ == "capacity "@ + dec_digits(n as nat)
                    + " exceeds the per-terminal limit "@ + dec_digits(MAX_CAPACITY_BYTES as nat),
            },
    {
        match self {
            RingError::CapacityTooLarge(n) => {
                let mut s = String::from_str("capacity ");
                push_decimal(&mut s, *n as u64);
                s.append(" exceeds the per-terminal limit ");
                push_decimal(&mut s, MAX_CAPACITY_BYTES as u64);
                s
            },
        }
    }
}

/// A stream position together with the render state at that position.
pub struct Anchor {
    pub byte_offset: u64,
    pub state: AnchorState,
}

/// A page of retained history `[start_seq, end_seq)`.
#[derive(Debug)]
pub struct HistorySlice {
    pub start_seq: StreamSeq,
    pub end_seq: StreamSeq,
    pub bytes: Vec<u8>,
}

pub struct ScrollbackRing {
    bytes: VecDeque<u8>,
    anchors: VecDeque<Anchor>,
    head_seq: StreamSeq,
    tail_offset: u64,
    tracker: AnchorTracker,
    stream: Ghost<Seq<u8>>,
    trail: Ghost<Map<u64, TrackerState>>,
    bytes_since_anchor: usize,
    cap: usize,
    anchor_interval: usize,
    cols: u16,
    rows: u16,
}

pub open spec fn min_int(a: int, b: int) -> int {
    if a <= b { a } else { b }
}

pub open spec fn max_int(a: int, b: int) -> int {
    if a >= b { a } else { b }
}

pub open spec fn clamp_int(x: int, lo: int, hi: int) -> int {
    if x < lo { lo } else if x > hi { hi } else { x }
}

/// End of a history page: `before` (or the head) clamped into the retained window.
pub open spec fn page_end(before: Option<StreamSeq>, tail: int, head: int) -> int {
    clamp_int(
        match before {
            Some(s) => s.0 as int,
            None => head,
        },
        tail,
        head,
    )
}

/// Start of a history page of at most `max_bytes` ending at `end`.
pub open spec fn page_start(end: int, tail: int, max_bytes: int) -> int {
    end - min_int(end - tail, max_bytes)
}

/// Position of stream offset `offset` relative to the oldest retained
/// byte at `tail_offset`: zero before the tail, at most `usize::MAX`.
pub fn offset_to_relative(offset: u64, tail_offset: u64) -> (r: usize)
    ensures
        r == (if offset <= tail_offset {
            0
        } else if offset - tail_offset > usize::MAX {
            usize::MAX as int
        } else {
            offset - tail_offset
        }),
{
    let d: u64 = if offset >= tail_offset { offset - tail_offset } else { 0 };
    if d as u128 > usize::MAX as u128 { usize::MAX } else { d as usize }
}

/// An anchor's state is the render state `s` of the tracker.
pub open spec fn records_state(a: AnchorState, s: TrackerState) -> bool {
    &&& a.cursor == (s.cursor_col, s.cursor_row)
    &&& a.sgr == s.sgr
    &&& a.modes == s.modes
    &&& a.charset == s.charset
    &&& (a.title is Some <==> s.title is Some)
    &&& (a.title is Some ==> a.title->0@ == s.title->0@)
}

/// An anchor's state is the tracker's render state at the moment it was taken.
pub open spec fn records_tracker(a: AnchorState, t: AnchorTracker) -> bool {
    records_state(a, *t.view_state())
}

/// When `fa` is what is left of `mid` after dropping a prefix of anchors that
/// each lay more than `cap` before `head`, and `oa` is a prefix of `mid`:
/// the anchors of `oa` before the first kept one were all that far back,
/// and the others are kept.
proof fn lemma_anchor_suffix(oa: Seq<Anchor>, mid: Seq<Anchor>, fa: Seq<Anchor>, head: int, cap: int)
    requires
        mid.len() >= oa.len(),
        mid.take(oa.len() as int) == oa,
        1 <= fa.len() <= mid.len(),
        fa == mid.skip(mid.len() - fa.len()),
        forall|i: int| 0 <= i < mid.len() - fa.len() ==> head - mid[i].byte_offset > cap,
        forall|i: int, j: int| 0 <= i < j < mid.len() ==> mid[i].byte_offset < mid[j].byte_offset,
    ensures
        forall|j: int|
            0 <= j < oa.len() && oa[j].byte_offset < fa[0].byte_offset ==> head - oa[j].byte_offset > cap,
        forall|j: int|
            0 <= j < oa.len() && oa[j].byte_offset >= fa[0].byte_offset ==> fa.map_values(
                |a: Anchor| a.byte_offset,
            ).contains(oa[j].byte_offset),
{
    let d = mid.len() - fa.len();
    assert forall|j: int| 0 <= j < oa.len() implies {
        &&& (oa[j].byte_offset < fa[0].byte_offset ==> head - oa[j].byte_offset > cap)
        &&& (oa[j].byte_offset >= fa[0].byte_offset ==> fa.map_values(|a: Anchor| a.byte_offset).contains(
            oa[j].byte_offset,
        ))
    } by {
        assert(oa[j] == mid.take(oa.len() as int)[j]);
        assert(fa[0] == mid[d]);
        if j >= d {
            assert(fa[j - d] == mid[j]);
            if j > d {
                assert(mid[d].byte_offset < mid[j].byte_offset);
            }
            assert(fa.map_values(|a: Anchor| a.byte_offset)[j - d] == oa[j].byte_offset);
        } else {
            assert(mid[j].byte_offset < mid[d].byte_offset);
        }
    }
}

/// The bytes of `cs`, one chunk after the other.
pub open spec fn concat_all(cs: Seq<Seq<u8>>) -> Seq<u8>
    decreases cs.len(),
{
    if cs.len() == 0 {
        Seq::empty()
    } else {
        concat_all(cs.drop_last()) + cs.last()
    }
}

/// What one [`ScrollbackRing::push`] of `chunk` makes of the ring `before`:
/// the invariant is kept, the head advances by the chunk, the tail only moves
/// forward, the retained bytes are the old ones and the chunk without what
/// was cut at the tail, and the stream grows by the chunk.
pub open spec fn pushed(before: ScrollbackRing, chunk: Seq<u8>, after: ScrollbackRing) -> bool {
    &&& after.wf()
    &&& after.head() == before.head() + chunk.len()
    &&& before.tail() <= after.tail()
    &&& after.retained() == (before.retained() + chunk).skip(after.tail() - before.tail())
    &&& after.capacity() == before.capacity()
    &&& after.spec_dims() == before.spec_dims()
    &&& after.stream() == before.stream() + chunk
}

proof fn lemma_skip_skip(x: Seq<u8>, c: Seq<u8>, d1: int, d2: int)
    requires
        0 <= d1 <= x.len(),
        0 <= d2 <= x.len() - d1 + c.len(),
    ensures
        (x.skip(d1) + c).skip(d2) == (x + c).skip(d1 + d2),
{
    assert((x.skip(d1) + c).skip(d2) =~= (x + c).skip(d1 + d2));
}

/// Law: over any run of pushes `rs[0] -> rs[1] -> ...` of the chunks `cs`,
/// the window invariants hold of every ring, the head counts every byte
/// pushed, the tail never moves back, and the retained bytes are exactly
/// the stream from the tail to the head.
pub proof fn lemma_push_sequence(rs: Seq<ScrollbackRing>, cs: Seq<Seq<u8>>)
    requires
        rs.len() == cs.len() + 1,
        rs[0].wf(),
        forall|i: int| 0 <= i < cs.len() ==> #[trigger] pushed(rs[i], cs[i], rs[i + 1]),
    ensures
        rs.last().head() == rs[0].head() + concat_all(cs).len(),
        rs[0].tail() <= rs.last().tail() <= rs.last().head(),
        rs.last().retained() == (rs[0].retained() + concat_all(cs)).skip(rs.last().tail() - rs[0].tail()),
        rs.last().retained().len() == rs.last().head() - rs.last().tail(),
        rs.last().stream() == rs[0].stream() + concat_all(cs),
        rs.last().capacity() == rs[0].capacity(),
        rs.last().spec_dims() == rs[0].spec_dims(),
        rs.last().retained().len() <= rs.last().capacity() || rs.last().anchor_positions().len() == 1,
    decreases cs.len(),
{
    if cs.len() == 0 {
        rs[0].lemma_window();
        assert(concat_all(cs) =~= Seq::<u8>::empty());
        assert(rs[0].retained() + concat_all(cs) =~= rs[0].retained());
        assert(rs[0].retained().skip(0) =~= rs[0].retained());
        assert(rs[0].stream() + concat_all(cs) =~= rs[0].stream());
    } else {
        let k = cs.len() - 1;
        let rs1 = rs.drop_last();
        let cs1 = cs.drop_last();
        assert forall|i: int| 0 <= i < cs1.len() implies #[trigger] pushed(rs1[i], cs1[i], rs1[i + 1]) by {
            assert(pushed(rs[i], cs[i], rs[i + 1]));
        }
        lemma_push_sequence(rs1, cs1);
        let prev = rs[k];
        let last = rs[k + 1];
        assert(rs1.last() == prev);
        assert(pushed(prev, cs[k], last));
        last.lemma_window();
        let f1 = concat_all(cs1);
        assert(concat_all(cs) == f1 + cs[k]);
        let x = rs[0].retained() + f1;
        let d1 = prev.tail() - rs[0].tail();
        let d2 = last.tail() - prev.tail();
        lemma_skip_skip(x, cs[k], d1, d2);
        assert(x + cs[k] =~= rs[0].retained() + concat_all(cs));
        assert(rs[0].stream() + concat_all(cs) =~= (rs[0].stream() + f1) + cs[k]);
    }
}

/// Position `q` of the tracker record `t` over the stream `st` holds the
/// state that the parser's events for byte `q - 1` lead to from the state
/// before it.
spec fn trail_step(t: Map<u64, TrackerState>, st: Seq<u8>, q: int) -> bool {
    &&& t.dom().contains(q as u64)
    &&& events_apply(split_cleared(t[(q - 1) as u64]), vte_events(st.take(q - 1), st[q - 1]), t[q as u64])
}

/// The tracker record `t` (states by stream position, up to `h`, over the
/// stream `st`) continues the record `ot` (up to `oh`): the states recorded
/// in `ot` are kept, and each later position holds the state that the
/// parser's events for that byte lead to.
spec fn trail_extends(ot: Map<u64, TrackerState>, oh: int, t: Map<u64, TrackerState>, st: Seq<u8>, h: int) -> bool {
    &&& forall|q: u64| #[trigger] ot.dom().contains(q) ==> t[q] == ot[q] && q <= oh
    &&& forall|q: int|
        oh < q <= h ==> #[trigger] trail_step(t, st, q)
}

proof fn lemma_trail_conclude(ot: Map<u64, TrackerState>, oh: int, t: Map<u64, TrackerState>, st: Seq<u8>, h: int)
    requires
        0 <= oh <= h <= u64::MAX,
        forall|p: u64| #[trigger] t.dom().contains(p) <==> p <= h,
        trail_extends(ot, oh, t, st, h),
    ensures
        forall|p: int|
            0 <= p <= u64::MAX && #[trigger] ot.dom().contains(p as u64) ==> t.dom().contains(p as u64) && t[p
                as u64] == ot[p as u64],
        forall|p: int| oh < p <= h ==> #[trigger] trail_step(t, st, p),
{
    assert forall|p: int| 0 <= p <= u64::MAX && #[trigger] ot.dom().contains(p as u64) implies t.dom().contains(
        p as u64,
    ) && t[p as u64] == ot[p as u64] by {
        assert((p as u64) <= oh);
    }
}

proof fn lemma_trail_step(
    ot: Map<u64, TrackerState>,
    oh: int,
    pt: Map<u64, TrackerState>,
    ps: Seq<u8>,
    ph: int,
    t: Map<u64, TrackerState>,
    st: Seq<u8>,
    b: u8,
)
    requires
        0 <= oh <= ph < u64::MAX,
        ps.len() == ph,
        forall|p: u64| #[trigger] pt.dom().contains(p) <==> p <= ph,
        forall|p: u64| #[trigger] t.dom().contains(p) <==> p <= ph + 1,
        trail_extends(ot, oh, pt, ps, ph),
        st == ps.push(b),
        forall|p: u64| #[trigger] pt.dom().contains(p) ==> t[p] == pt[p],
        events_apply(split_cleared(pt[ph as u64]), vte_events(ps, b), t[(ph + 1) as u64]),
    ensures
        trail_extends(ot, oh, t, st, ph + 1),
{
    assert(ps.take(ph) =~= ps);
    assert forall|q: int| oh < q <= ph + 1 implies #[trigger] trail_step(t, st, q) by {
        if q <= ph {
            assert(trail_step(pt, ps, q));
            assert(pt.dom().contains(q as u64));
            assert(pt.dom().contains((q - 1) as u64));
            assert(st.take(q - 1) =~= ps.take(q - 1));
            assert(st[q - 1] == ps[q - 1]);
        } else {
            assert(st.take(q - 1) =~= ps);
            assert(pt.dom().contains(ph as u64));
        }
    }
    assert forall|q: u64| #[trigger] ot.dom().contains(q) implies t[q] == ot[q] && q <= oh by {
        assert(q <= oh);
        assert(pt.dom().contains(q));
    }
}

impl ScrollbackRing {
    /// Total bytes ever pushed.
    pub closed spec fn head(&self) -> int {
        self.head_seq.0 as int
    }

    /// Stream position of the oldest retained byte.
    pub closed spec fn tail(&self) -> int {
        self.tail_offset as int
    }

    /// The retained bytes, oldest first.
    pub closed spec fn retained(&self) -> Seq<u8> {
        self.bytes@
    }

    /// Retention capacity in bytes.
    pub closed spec fn capacity(&self) -> int {
        self.cap as int
    }

    /// Cursor (column, row) as tracked from the stream.
    pub closed spec fn spec_cursor(&self) -> (u16, u16) {
        (self.tracker.view_state().cursor_col, self.tracker.view_state().cursor_row)
    }

    pub closed spec fn spec_dims(&self) -> (u16, u16) {
        (self.cols, self.rows)
    }

    /// Stream positions of the anchors, oldest first.
    pub closed spec fn anchor_positions(&self) -> Seq<u64> {
        self.anchors@.map_values(|a: Anchor| a.byte_offset)
    }

    pub closed spec fn anchors_ordered(&self) -> bool {
        &&& forall|i: int, j: int|
            0 <= i < j < self.anchors@.len() ==> self.anchors@[i].byte_offset
                < self.anchors@[j].byte_offset
        &&& forall|i: int|
            0 <= i < self.anchors@.len() ==> self.anchors@[i].byte_offset <= self.head_seq.0
    }

    /// Structure that holds between and during updates.
    pub closed spec fn wf_core(&self) -> bool {
        &&& self.tail_offset <= self.head_seq.0
        &&& self.bytes@.len() == self.head_seq.0 - self.tail_offset
        &&& self.anchors@.len() >= 1
        &&& self.anchors@[0].byte_offset == self.tail_offset
        &&& self.anchors_ordered()
        &&& 1 <= self.anchor_interval
        &&& self.cap <= MAX_CAPACITY_BYTES
        &&& self.bytes_since_anchor == min_int(
            self.head_seq.0 - self.anchors@.last().byte_offset,
            usize::MAX as int,
        )
    }

    /// The window structure, and retention within the capacity unless a
    /// single anchor remains (no later position to cut at).
    pub closed spec fn wf_window(&self) -> bool {
        &&& self.wf_core()
        &&& (self.bytes@.len() <= self.cap || self.anchors@.len() == 1)
    }

    /// Every byte ever pushed, oldest first.
    pub closed spec fn stream(&self) -> Seq<u8> {
        self.stream@
    }

    /// Whether the tracker state at stream position `p` (after the first `p`
    /// bytes) is recorded.
    pub closed spec fn tracked_at(&self, p: int) -> bool {
        0 <= p <= u64::MAX && self.trail@.dom().contains(p as u64)
    }

    /// The tracker state at stream position `p`: after the first `p` bytes.
    pub closed spec fn state_at(&self, p: int) -> TrackerState {
        self.trail@[p as u64]
    }

    /// The tracker state at position `p` is the one that the parser's events
    /// for byte `p - 1` of the stream lead to from the state at `p - 1`
    /// (the split flag cleared first).
    pub open spec fn byte_step(&self, p: int) -> bool {
        events_apply(
            split_cleared(self.state_at(p - 1)),
            vte_events(self.stream().take(p - 1), self.stream()[p - 1]),
            self.state_at(p),
        )
    }

    /// The tracker has been fed exactly the stream; its state at every
    /// position up to the head is recorded, the last one being its current
    /// state; and every anchor sits where the tracker was at a safe split,
    /// recording the tracker's state there.
    pub closed spec fn trail_ok(&self) -> bool {
        &&& self.stream@.len() == self.head_seq.0
        &&& self.tracker.fed() == self.stream@
        &&& forall|p: u64| #[trigger] self.trail@.dom().contains(p) <==> p <= self.head_seq.0
        &&& self.trail@[self.head_seq.0] == *self.tracker.view_state()
        &&& forall|i: int|
            #![trigger self.anchors@[i]]
            0 <= i < self.anchors@.len() ==> self.trail@[self.anchors@[i].byte_offset].at_safe_split
                && records_state(self.anchors@[i].state, self.trail@[self.anchors@[i].byte_offset])
    }

    /// The ring's invariant: [`ScrollbackRing::wf_window`] and
    /// [`ScrollbackRing::trail_ok`].
    pub closed spec fn wf(&self) -> bool {
        &&& self.wf_window()
        &&& self.trail_ok()
    }

    /// Every anchor sits at a stream position where the tracker reported a
    /// safe split point (so a replay from it never starts inside an escape
    /// sequence).
    pub proof fn lemma_anchors_at_safe_splits(&self)
        requires
            self.wf(),
        ensures
            forall|j: int|
                0 <= j < self.anchor_positions().len() ==> self.tracked_at(
                    #[trigger] self.anchor_positions()[j] as int,
                ) && self.state_at(self.anchor_positions()[j] as int).at_safe_split,
    {
        assert forall|j: int| 0 <= j < self.anchor_positions().len() implies self.tracked_at(
            #[trigger] self.anchor_positions()[j] as int,
        ) && self.state_at(self.anchor_positions()[j] as int).at_safe_split by {
            assert(self.anchors@[j].byte_offset == self.anchor_positions()[j]);
            assert(self.anchors@[j].byte_offset <= self.head_seq.0);
        }
    }

    /// Window invariants visible to callers.
    pub proof fn lemma_window(&self)
        requires
            self.wf(),
        ensures
            self.tail() <= self.head(),
            self.retained().len() == self.head() - self.tail(),
            self.anchor_positions().len() >= 1,
            self.anchor_positions()[0] == self.tail(),
            forall|i: int|
                0 <= i < self.anchor_positions().len() ==> self.tail()
                    <= #[trigger] self.anchor_positions()[i] <= self.head(),
            self.retained().len() <= self.capacity() || self.anchor_positions().len() == 1,
            self.capacity() <= MAX_CAPACITY_BYTES,
    {
        assert forall|i: int| 0 <= i < self.anchor_positions().len() implies self.tail()
            <= #[trigger] self.anchor_positions()[i] <= self.head() by {
            if i > 0 {
                assert(self.anchors@[0].byte_offset < self.anchors@[i].byte_offset);
            }
        }
    }

    /// A ring of `capacity` bytes (4 MiB when absent) holding nothing, with
    /// one anchor at position zero.
    pub fn new(cols: u16, rows: u16, capacity: Option<usize>) -> (r: Result<Self, RingError>)
        ensures
            ({
                let cap = match capacity {
                    Some(c) => c,
                    None => DEFAULT_CAPACITY_BYTES,
                };
                &&& cap > MAX_CAPACITY_BYTES ==> r == Err::<Self, RingError>(
                    RingError::CapacityTooLarge(cap),
                )
                &&& cap <= MAX_CAPACITY_BYTES ==> r is Ok && r->Ok_0.wf() && r->Ok_0.head() == 0
                    && r->Ok_0.tail() == 0 && r->Ok_0.retained() == Seq::<u8>::empty()
                    && r->Ok_0.capacity() == cap && r->Ok_0.spec_dims() == (cols, rows)
                    && r->Ok_0.anchor_positions() == seq![0u64] && r->Ok_0.stream() == Seq::<u8>::empty()
                    && r->Ok_0.tracked_at(0) && r->Ok_0.state_at(0).at_safe_split
                    && r->Ok_0.state_at(0).cursor_row == 0 && r->Ok_0.state_at(0).cursor_col == 0
            }),
    {
        let cap = match capacity {
            Some(c) => c,
            None => DEFAULT_CAPACITY_BYTES,
        };
        if cap > MAX_CAPACITY_BYTES {
            return Err(RingError::CapacityTooLarge(cap));
        }
        let tracker = AnchorTracker::new();
        let mut anchors: VecDeque<Anchor> = VecDeque::new();
        anchors.push_back(Anchor { byte_offset: 0, state: tracker.snapshot_state() });
        let wanted: usize = if cap >= 1 { cap } else { 1 };
        let interval: usize = if DEFAULT_ANCHOR_INTERVAL <= wanted {
            DEFAULT_ANCHOR_INTERVAL
        } else {
            wanted
        };
        let ghost initial = *tracker.view_state();
        let ring = ScrollbackRing {
            bytes: VecDeque::new(),
            anchors,
            head_seq: StreamSeq(0),
            tail_offset: 0,
            tracker,
            stream: Ghost(Seq::empty()),
            trail: Ghost(Map::<u64, TrackerState>::empty().insert(0u64, initial)),
            bytes_since_anchor: 0,
            cap,
            anchor_interval: interval,
            cols,
            rows,
        };
        assert(ring.anchor_positions() =~= seq![0u64]);
        assert forall|p: u64| #[trigger] ring.trail@.dom().contains(p) <==> p <= ring.head_seq.0 by {}
        assert(ring.anchors@[0].byte_offset == 0);
        Ok(ring)
    }

    pub fn head_seq(&self) -> (r: StreamSeq)
        ensures
            r.0 == self.head(),
    {
        self.head_seq
    }

    pub fn tail_seq(&self) -> (r: StreamSeq)
        ensures
            r.0 == self.tail(),
    {
        StreamSeq(self.tail_offset)
    }

    pub fn dims(&self) -> (r: (u16, u16))
        ensures
            r == self.spec_dims(),
    {
        (self.cols, self.rows)
    }

    /// Cursor (column, row) after everything pushed so far.
    pub fn cursor(&self) -> (r: (u16, u16))
        ensures
            r == self.spec_cursor(),
    {
        self.tracker.snapshot_state().cursor
    }

    pub fn set_dims(&mut self, cols: u16, rows: u16)
        requires
            old(self).wf(),
        ensures
            final(self).wf(),
            final(self).spec_dims() == (cols, rows),
            final(self).head() == old(self).head(),
            final(self).tail() == old(self).tail(),
            final(self).retained() == old(self).retained(),
            final(self).capacity() == old(self).capacity(),
            final(self).anchor_positions() == old(self).anchor_positions(),
    {
        self.cols = cols;
        self.rows = rows;
    }

    /// Stream positions of the anchors currently kept, oldest first.
    pub fn anchor_offsets(&self) -> (r: Vec<u64>)
        ensures
            r@ == self.anchor_positions(),
    {
        let mut out: Vec<u64> = Vec::new();
        let mut i: usize = 0;
        while i < self.anchors.len()
            invariant
                i <= self.anchors@.len(),
                out@ == self.anchor_positions().take(i as int),
            decreases self.anchors@.len() - i,
        {
            out.push(self.anchors[i].byte_offset);
            assert(out@ =~= self.anchor_positions().take(i + 1));
            i = i + 1;
        }
        assert(out@ =~= self.anchor_positions());
        out
    }

    /// Appends output. Every byte advances the head by one; an anchor is
    /// recorded once at least an anchor interval has passed and the stream
    /// is at a split point; while more than the capacity is retained, the
    /// oldest bytes up to the second anchor are dropped.
    #[verifier::rlimit(60)]
    pub fn push(&mut self, chunk: &[u8])
        requires
            old(self).wf(),
            old(self).head() + chunk@.len() <= u64::MAX,
        ensures
            final(self).wf(),
            final(self).head() == old(self).head() + chunk@.len(),
            old(self).tail() <= final(self).tail(),
            final(self).retained() == (old(self).retained() + chunk@).skip(
                final(self).tail() - old(self).tail(),
            ),
            final(self).capacity() == old(self).capacity(),
            final(self).spec_dims() == old(self).spec_dims(),
            final(self).tail() <= old(self).head() ==> final(self).retained().skip(
                old(self).head() - final(self).tail(),
            ) == chunk@,
            old(self).retained().len() + chunk@.len() <= old(self).capacity() ==> final(self).tail() == old(
                self,
            ).tail() && final(self).anchor_positions().len() >= old(self).anchor_positions().len()
                && final(self).anchor_positions().take(old(self).anchor_positions().len() as int)
                == old(self).anchor_positions(),
            forall|j: int|
                0 <= j < old(self).anchor_positions().len() && old(self).anchor_positions()[j] < final(self).tail()
                    ==> final(self).head() - old(self).anchor_positions()[j] > old(self).capacity(),
            forall|j: int|
                0 <= j < old(self).anchor_positions().len() && old(self).anchor_positions()[j] >= final(self).tail()
                    ==> final(self).anchor_positions().contains(old(self).anchor_positions()[j]),
            final(self).stream() == old(self).stream() + chunk@,
            pushed(*old(self), chunk@, *final(self)),
            forall|p: int|
                #[trigger] old(self).tracked_at(p) ==> final(self).tracked_at(p) && final(self).state_at(p)
                    == old(self).state_at(p),
            forall|p: int|
                old(self).head() < p <= final(self).head() ==> final(self).tracked_at(p)
                    && #[trigger] final(self).byte_step(p),
            forall|j: int|
                0 <= j < final(self).anchor_positions().len() ==> final(self).tracked_at(
                    #[trigger] final(self).anchor_positions()[j] as int,
                ) && final(self).state_at(final(self).anchor_positions()[j] as int).at_safe_split,
    {
        let ghost orig = self.bytes@;
        let ghost orig_tail = self.tail_offset as int;
        let ghost orig_head = self.head_seq.0 as int;
        let mut i: usize = 0;
        while i < chunk.len()
            invariant
                i <= chunk@.len(),
                self.wf(),
                orig_head + chunk@.len() <= u64::MAX,
                self.head_seq.0 == orig_head + i,
                orig_tail <= self.tail_offset,
                self.bytes@ == (orig + chunk@.take(i as int)).skip(self.tail_offset - orig_tail),
                orig.len() == orig_head - orig_tail,
                self.cap == old(self).cap,
                self.cols == old(self).cols,
                self.rows == old(self).rows,
                orig.len() + i <= self.cap ==> self.tail_offset == orig_tail && self.anchor_positions().len()
                    >= old(self).anchor_positions().len() && self.anchor_positions().take(
                    old(self).anchor_positions().len() as int,
                ) == old(self).anchor_positions(),
                forall|j: int|
                    0 <= j < old(self).anchor_positions().len() && old(self).anchor_positions()[j] < self.tail_offset
                        ==> self.head_seq.0 - old(self).anchor_positions()[j] > self.cap,
                forall|j: int|
                    0 <= j < old(self).anchor_positions().len() && old(self).anchor_positions()[j]
                        >= self.tail_offset ==> self.anchor_positions().contains(old(self).anchor_positions()[j]),
                self.stream@ == old(self).stream@ + chunk@.take(i as int),
                trail_extends(old(self).trail@, orig_head, self.trail@, self.stream@, self.head_seq.0 as int),
            decreases chunk@.len() - i,
        {
            let ghost pre_ring = *self;
            let ghost pre = self.bytes@;
            let ghost pre_tail = self.tail_offset as int;
            let ghost pre_pos = self.anchor_positions();
            let ghost pre_head = self.head_seq.0 as int;
            self.push_byte(chunk[i]);
            proof {
                assert(old(self).stream@ + chunk@.take(i + 1) =~= (old(self).stream@ + chunk@.take(i as int)).push(chunk@[i as int]));
                lemma_trail_step(
                    old(self).trail@,
                    orig_head,
                    pre_ring.trail@,
                    pre_ring.stream@,
                    pre_head,
                    self.trail@,
                    self.stream@,
                    chunk@[i as int],
                );
                let op = old(self).anchor_positions();
                assert forall|j: int| 0 <= j < op.len() && op[j] < self.tail_offset implies self.head_seq.0 - op[j]
                    > self.cap by {
                    if op[j] >= pre_tail {
                        let k = choose|k: int| 0 <= k < pre_pos.len() && pre_pos[k] == op[j];
                        assert(pre_pos[k] == op[j]);
                    }
                }
                assert forall|j: int| 0 <= j < op.len() && op[j] >= self.tail_offset implies self.anchor_positions().contains(
                    op[j],
                ) by {
                    let k = choose|k: int| 0 <= k < pre_pos.len() && pre_pos[k] == op[j];
                    assert(pre_pos[k] == op[j]);
                }
                if orig.len() + i + 1 <= self.cap {
                    assert(pre_pos.take(op.len() as int) == op);
                    assert(self.anchor_positions().take(op.len() as int) =~= op) by {
                        assert forall|k: int| 0 <= k < op.len() implies self.anchor_positions()[k] == op[k] by {
                            assert(self.anchor_positions().take(pre_pos.len() as int)[k] == pre_pos[k]);
                            assert(pre_pos.take(op.len() as int)[k] == pre_pos[k]);
                        }
                    }
                }
            }
            proof {
                let whole = orig + chunk@.take(i + 1);
                assert(orig + chunk@.take(i + 1) =~= (orig + chunk@.take(i as int)).push(chunk@[i as int]));
                let d = pre_tail - orig_tail;
                let e = self.tail_offset - pre_tail;
                let prev_whole = orig + chunk@.take(i as int);
                assert(prev_whole.len() == orig_head + i - orig_tail);
                assert(0 <= d <= prev_whole.len());
                assert(pre.push(chunk@[i as int]) =~= whole.skip(d));
                assert(0 <= e <= whole.skip(d).len());
                assert(self.bytes@ =~= whole.skip(d).skip(e));
                assert(whole.skip(d).skip(e) =~= whole.skip(d + e));
            }
            i = i + 1;
        }
        assert(chunk@.take(chunk@.len() as int) =~= chunk@);
        proof {
            Self::lemma_pushed_trail(*old(self), *self);
        }
        proof {
            let w = orig + chunk@;
            let d = self.tail_offset - orig_tail;
            if self.tail_offset <= orig_head {
                let e = orig_head - self.tail_offset;
                assert(w.skip(d).skip(e) =~= w.skip(d + e));
                assert(w.skip(orig.len() as int) =~= chunk@);
            }
        }
    }

    /// What a run of pushes from `orig` to `fin` keeps of the tracker record.
    proof fn lemma_pushed_trail(orig: Self, fin: Self)
        requires
            orig.wf(),
            fin.wf(),
            orig.head_seq.0 <= fin.head_seq.0,
            trail_extends(orig.trail@, orig.head_seq.0 as int, fin.trail@, fin.stream@, fin.head_seq.0 as int),
        ensures
            forall|p: int| #[trigger] orig.tracked_at(p) ==> fin.tracked_at(p) && fin.state_at(p) == orig.state_at(p),
            forall|p: int| orig.head() < p <= fin.head() ==> fin.tracked_at(p) && #[trigger] fin.byte_step(p),
            forall|j: int|
                0 <= j < fin.anchor_positions().len() ==> fin.tracked_at(#[trigger] fin.anchor_positions()[j] as int)
                    && fin.state_at(fin.anchor_positions()[j] as int).at_safe_split,
    {
        fin.lemma_anchors_at_safe_splits();
        lemma_trail_conclude(orig.trail@, orig.head_seq.0 as int, fin.trail@, fin.stream@, fin.head_seq.0 as int);
        assert forall|p: int| orig.head() < p <= fin.head() implies fin.tracked_at(p) && #[trigger] fin.byte_step(p) by {
            assert(trail_step(fin.trail@, fin.stream@, p));
        }
    }

    /// Feeds one byte to the tracker and appends it; the anchors are left as
    /// they were.
    fn feed_byte(&mut self, byte: u8)
        requires
            old(self).wf(),
            old(self).head() < u64::MAX,
        ensures
            final(self).wf_core(),
            final(self).bytes@ == old(self).bytes@.push(byte),
            final(self).head_seq.0 == old(self).head_seq.0 + 1,
            final(self).tail_offset == old(self).tail_offset,
            final(self).anchors@ == old(self).anchors@,
            final(self).cap == old(self).cap,
            final(self).cols == old(self).cols,
            final(self).rows == old(self).rows,
            final(self).anchor_interval == old(self).anchor_interval,
            final(self).stream@ == old(self).stream@.push(byte),
            final(self).tracker.fed() == final(self).stream@,
            final(self).trail@ == old(self).trail@.insert(final(self).head_seq.0, *final(self).tracker.view_state()),
            events_apply(
                split_cleared(old(self).trail@[old(self).head_seq.0]),
                vte_events(old(self).stream@, byte),
                *final(self).tracker.view_state(),
            ),
    {
        let one: [u8; 1] = [byte];
        let ghost fed0 = self.tracker.fed();
        self.tracker.advance(&one);
        proof {
            assert(one@ =~= seq![byte]);
            let states = choose|states: Seq<TrackerState>|
                #[trigger] crate::tracker::fed_run(states, fed0, one@) && states[0] == *old(self).tracker.view_state()
                    && states.last() == *self.tracker.view_state();
            assert(crate::tracker::fed_run(states, fed0, one@));
            assert(fed0 + one@.take(0) =~= fed0);
            assert(events_apply(split_cleared(states[0]), vte_events(fed0 + one@.take(0), one@[0]), states[1]));
        }
        self.bytes.push_back(byte);
        self.head_seq = StreamSeq(self.head_seq.0 + 1);
        proof {
            self.stream@ = self.stream@.push(byte);
            self.trail@ = self.trail@.insert(self.head_seq.0, *self.tracker.view_state());
            assert(self.tracker.fed() =~= self.stream@);
        }
        self.bytes_since_anchor = if self.bytes_since_anchor == usize::MAX {
            usize::MAX
        } else {
            self.bytes_since_anchor + 1
        };
    }

    #[verifier::rlimit(100)]
    fn push_byte(&mut self, byte: u8)
        requires
            old(self).wf(),
            old(self).head() < u64::MAX,
        ensures
            final(self).wf(),
            final(self).head() == old(self).head() + 1,
            old(self).tail() <= final(self).tail(),
            final(self).retained() == old(self).retained().push(byte).skip(
                final(self).tail() - old(self).tail(),
            ),
            final(self).cap == old(self).cap,
            final(self).cols == old(self).cols,
            final(self).rows == old(self).rows,
            old(self).retained().len() + 1 <= old(self).cap ==> final(self).tail() == old(self).tail()
                && final(self).anchor_positions().len() >= old(self).anchor_positions().len()
                && final(self).anchor_positions().take(old(self).anchor_positions().len() as int)
                == old(self).anchor_positions(),
            forall|j: int|
                0 <= j < old(self).anchor_positions().len() && old(self).anchor_positions()[j] < final(self).tail()
                    ==> final(self).head() - old(self).anchor_positions()[j] > old(self).cap,
            forall|j: int|
                0 <= j < old(self).anchor_positions().len() && old(self).anchor_positions()[j] >= final(self).tail()
                    ==> final(self).anchor_positions().contains(old(self).anchor_positions()[j]),
            final(self).stream@ == old(self).stream@.push(byte),
            forall|p: u64| #[trigger] old(self).trail@.dom().contains(p) ==> final(self).trail@[p] == old(self).trail@[p],
            events_apply(
                split_cleared(old(self).trail@[old(self).head_seq.0]),
                vte_events(old(self).stream@, byte),
                final(self).trail@[final(self).head_seq.0],
            ),
    {
        self.feed_byte(byte);
        self.maybe_place_anchor();
        let ghost before_evict = self.bytes@;
        let ghost tail_before = self.tail_offset as int;
        let ghost mid = self.anchors@;
        assert(mid.take(old(self).anchors@.len() as int) =~= old(self).anchors@);
        self.maybe_evict();
        assert(before_evict.skip(0) =~= before_evict);
        proof {
            let oa = old(self).anchors@;
            lemma_anchor_suffix(oa, mid, self.anchors@, self.head_seq.0 as int, self.cap as int);
            assert forall|j: int| 0 <= j < old(self).anchor_positions().len() implies old(self).anchor_positions()[j]
                == oa[j].byte_offset by {}
            if old(self).bytes@.len() + 1 <= old(self).cap {
                assert(self.anchors@ == mid);
                assert(self.anchor_positions().take(oa.len() as int) =~= old(self).anchor_positions());
            }
            let fa = self.anchors@;
            let d = mid.len() - fa.len();
            assert forall|i: int| #![trigger fa[i]] 0 <= i < fa.len() implies self.trail@[fa[i].byte_offset].at_safe_split
                && records_state(fa[i].state, self.trail@[fa[i].byte_offset]) by {
                assert(fa[i] == mid[i + d]);
                if i + d < oa.len() {
                    assert(mid[i + d] == oa[i + d]);
                    assert(oa[i + d].byte_offset <= old(self).head_seq.0);
                } else {
                    assert(mid[i + d].byte_offset == self.head_seq.0);
                }
            }
            assert forall|p: u64| #[trigger] self.trail@.dom().contains(p) <==> p <= self.head_seq.0 by {
                if p <= self.head_seq.0 && p != self.head_seq.0 {
                    assert(old(self).trail@.dom().contains(p));
                }
            }
        }
    }

    fn maybe_place_anchor(&mut self)
        requires
            old(self).wf_core(),
        ensures
            final(self).wf_core(),
            final(self).bytes@ == old(self).bytes@,
            final(self).head_seq == old(self).head_seq,
            final(self).tail_offset == old(self).tail_offset,
            final(self).cap == old(self).cap,
            final(self).cols == old(self).cols,
            final(self).rows == old(self).rows,
            final(self).tracker == old(self).tracker,
            final(self).stream == old(self).stream,
            final(self).trail == old(self).trail,
            final(self).anchor_interval == old(self).anchor_interval,
            old(self).bytes_since_anchor >= old(self).anchor_interval
                && old(self).tracker.view_state().at_safe_split ==> final(self).anchors@.drop_last()
                == old(self).anchors@ && final(self).anchors@.len() == old(self).anchors@.len() + 1
                && final(self).anchors@.last().byte_offset == old(self).head_seq.0
                && records_tracker(final(self).anchors@.last().state, old(self).tracker)
                && final(self).bytes_since_anchor == 0,
            !(old(self).bytes_since_anchor >= old(self).anchor_interval
                && old(self).tracker.view_state().at_safe_split) ==> final(self).anchors@
                == old(self).anchors@ && final(self).bytes_since_anchor
                == old(self).bytes_since_anchor,
    {
        if self.bytes_since_anchor < self.anchor_interval {
            return;
        }
        if !self.tracker.is_at_safe_split() {
            return;
        }
        let ghost prev = self.anchors@;
        let anchor = Anchor { byte_offset: self.head_seq.0, state: self.tracker.snapshot_state() };
        self.anchors.push_back(anchor);
        self.bytes_since_anchor = 0;
        assert(prev.last().byte_offset < self.head_seq.0);
        assert(self.anchors@.last().byte_offset == self.head_seq.0);
        assert forall|i: int, j: int|
            0 <= i < j < self.anchors@.len() implies self.anchors@[i].byte_offset
            < self.anchors@[j].byte_offset by {
            if j == self.anchors@.len() - 1 {
                if i < prev.len() - 1 {
                    assert(prev[i].byte_offset < prev[prev.len() - 1].byte_offset);
                }
            } else {
                assert(self.anchors@[i] == prev[i]);
                assert(self.anchors@[j] == prev[j]);
            }
        }
        assert forall|i: int| 0 <= i < self.anchors@.len() implies self.anchors@[i].byte_offset
            <= self.head_seq.0 by {
            if i < prev.len() {
                assert(self.anchors@[i] == prev[i]);
            }
        }
    }

    fn maybe_evict(&mut self)
        requires
            old(self).wf_core(),
        ensures
            final(self).wf_window(),
            final(self).tracker == old(self).tracker,
            final(self).stream == old(self).stream,
            final(self).trail == old(self).trail,
            old(self).bytes@.len() <= old(self).cap ==> final(self).tail_offset == old(self).tail_offset
                && final(self).anchors@ == old(self).anchors@,
            final(self).anchors@.len() <= old(self).anchors@.len(),
            final(self).anchors@ == old(self).anchors@.skip(old(self).anchors@.len() - final(self).anchors@.len()),
            forall|i: int|
                0 <= i < old(self).anchors@.len() - final(self).anchors@.len() ==> old(self).head_seq.0
                    - old(self).anchors@[i].byte_offset > old(self).cap,
            final(self).head_seq == old(self).head_seq,
            old(self).tail_offset <= final(self).tail_offset,
            final(self).bytes@ == old(self).bytes@.skip(
                final(self).tail_offset - old(self).tail_offset,
            ),
            final(self).cap == old(self).cap,
            final(self).cols == old(self).cols,
            final(self).rows == old(self).rows,
    {
        let ghost orig = self.bytes@;
        let ghost orig_tail = self.tail_offset as int;
        while self.bytes.len() > self.cap
            invariant_except_break
                self.wf_core(),
                self.head_seq == old(self).head_seq,
                orig_tail <= self.tail_offset,
                self.bytes@ == orig.skip(self.tail_offset - orig_tail),
                self.cap == old(self).cap,
                self.cols == old(self).cols,
                self.rows == old(self).rows,
                orig.len() == self.head_seq.0 - orig_tail,
                self.tracker == old(self).tracker,
                self.stream == old(self).stream,
                self.trail == old(self).trail,
                orig.len() <= self.cap ==> self.tail_offset == orig_tail && self.anchors@ == old(self).anchors@,
                self.anchors@.len() <= old(self).anchors@.len(),
                self.anchors@ == old(self).anchors@.skip(old(self).anchors@.len() - self.anchors@.len()),
                forall|i: int|
                    0 <= i < old(self).anchors@.len() - self.anchors@.len() ==> old(self).head_seq.0
                        - old(self).anchors@[i].byte_offset > old(self).cap,
            ensures
                self.wf_window(),
                self.tracker == old(self).tracker,
                self.stream == old(self).stream,
                self.trail == old(self).trail,
                self.head_seq == old(self).head_seq,
                orig_tail <= self.tail_offset,
                self.bytes@ == orig.skip(self.tail_offset - orig_tail),
                self.cap == old(self).cap,
                self.cols == old(self).cols,
                self.rows == old(self).rows,
                orig.len() <= self.cap ==> self.tail_offset == orig_tail && self.anchors@ == old(self).anchors@,
                self.anchors@.len() <= old(self).anchors@.len(),
                self.anchors@ == old(self).anchors@.skip(old(self).anchors@.len() - self.anchors@.len()),
                forall|i: int|
                    0 <= i < old(self).anchors@.len() - self.anchors@.len() ==> old(self).head_seq.0
                        - old(self).anchors@[i].byte_offset > old(self).cap,
            decreases self.bytes@.len(),
        {
            if self.anchors.len() < 2 {
                break;
            }
            let target = self.anchors[1].byte_offset;
            if target <= self.tail_offset {
                break;
            }
            let to_drop: usize = (target - self.tail_offset) as usize;
            assert(target <= self.head_seq.0);
            let ghost before = self.bytes@;
            let ghost before_tail = self.tail_offset as int;
            let ghost before_anchors = self.anchors@;
            assert(old(self).head_seq.0 - before_anchors[0].byte_offset > old(self).cap);
            let rest = self.bytes.split_off(to_drop);
            self.bytes = rest;
            self.tail_offset = self.tail_offset + to_drop as u64;
            assert(self.bytes@ =~= before.skip(to_drop as int));
            assert(before.skip(to_drop as int) =~= orig.skip(self.tail_offset - orig_tail));
            self.drop_stale_anchors();
            proof {
                let o = old(self).anchors@;
                let d0 = o.len() - before_anchors.len();
                assert(before_anchors[0] == o[d0]);
                assert(self.anchors@ =~= o.skip(o.len() - self.anchors@.len()));
                assert forall|i: int| 0 <= i < o.len() - self.anchors@.len() implies old(self).head_seq.0
                    - o[i].byte_offset > old(self).cap by {
                    if i == d0 {
                        assert(o[i] == before_anchors[0]);
                    }
                }
            }
        }
        assert(orig.skip(0) =~= orig);
    }

    fn drop_stale_anchors(&mut self)
        requires
            old(self).anchors@.len() >= 2,
            old(self).anchors@[1].byte_offset == old(self).tail_offset,
            old(self).anchors@[0].byte_offset < old(self).tail_offset,
            old(self).anchors_ordered(),
        ensures
            final(self).anchors@.len() >= 1,
            final(self).anchors@[0].byte_offset == final(self).tail_offset,
            final(self).anchors_ordered(),
            final(self).anchors@.last() == old(self).anchors@.last(),
            final(self).anchors@ == old(self).anchors@.drop_first(),
            final(self).tracker == old(self).tracker,
            final(self).stream == old(self).stream,
            final(self).trail == old(self).trail,
            final(self).bytes@ == old(self).bytes@,
            final(self).head_seq == old(self).head_seq,
            final(self).tail_offset == old(self).tail_offset,
            final(self).bytes_since_anchor == old(self).bytes_since_anchor,
            final(self).anchor_interval == old(self).anchor_interval,
            final(self).cap == old(self).cap,
            final(self).cols == old(self).cols,
            final(self).rows == old(self).rows,
    {
        while self.anchors.len() > 1 && self.anchors[1].byte_offset <= self.tail_offset
            invariant
                self.anchors@.len() >= 1,
                self.anchors_ordered(),
                self.anchors@[0].byte_offset <= self.tail_offset,
                exists|k: int|
                    0 <= k < self.anchors@.len() && self.anchors@[k].byte_offset
                        == self.tail_offset,
                self.anchors@.last() == old(self).anchors@.last(),
                self.anchors@.len() <= old(self).anchors@.len(),
                self.anchors@ == old(self).anchors@.skip(old(self).anchors@.len() - self.anchors@.len()),
                self.tracker == old(self).tracker,
                self.stream == old(self).stream,
                self.trail == old(self).trail,
                self.bytes@ == old(self).bytes@,
                self.head_seq == old(self).head_seq,
                self.tail_offset == old(self).tail_offset,
                self.bytes_since_anchor == old(self).bytes_since_anchor,
                self.anchor_interval == old(self).anchor_interval,
                self.cap == old(self).cap,
                self.cols == old(self).cols,
                self.rows == old(self).rows,
            decreases self.anchors@.len(),
        {
            let ghost prev = self.anchors@;
            let ghost k = choose|k: int|
                0 <= k < prev.len() && prev[k].byte_offset == self.tail_offset;
            assert(k >= 1) by {
                if k == 0 {
                    assert(prev[0].byte_offset < prev[1].byte_offset);
                }
            }
            let _ = self.anchors.pop_front();
            assert(self.anchors@[k - 1] == prev[k]);
            assert forall|i: int, j: int|
                0 <= i < j < self.anchors@.len() implies self.anchors@[i].byte_offset
                < self.anchors@[j].byte_offset by {
                assert(self.anchors@[i] == prev[i + 1]);
                assert(self.anchors@[j] == prev[j + 1]);
            }
            assert forall|i: int| 0 <= i < self.anchors@.len() implies self.anchors@[i].byte_offset
                <= self.head_seq.0 by {
                assert(self.anchors@[i] == prev[i + 1]);
            }
            assert(self.anchors@[0] == prev[1]);
            assert(self.anchors@ =~= prev.skip(1));
            assert(self.anchors@ =~= old(self).anchors@.skip(old(self).anchors@.len() - self.anchors@.len()));
        }
        proof {
            let k = choose|k: int|
                0 <= k < self.anchors@.len() && self.anchors@[k].byte_offset == self.tail_offset;
            if k > 0 {
                assert(self.anchors@[1].byte_offset <= self.anchors@[k].byte_offset) by {
                    if k > 1 {
                        assert(self.anchors@[1].byte_offset < self.anchors@[k].byte_offset);
                    }
                }
            }
            let o = old(self).anchors@;
            let d = o.len() - self.anchors@.len();
            assert(self.anchors@[0] == o[d]);
            if d == 0 {
                assert(o[0].byte_offset < self.tail_offset);
            } else if d > 1 {
                assert(o[1].byte_offset < o[d].byte_offset);
            }
            assert(d == 1);
            assert(self.anchors@ =~= o.drop_first());
        }
    }

    /// Copies `len` retained bytes starting `start` bytes after the tail.
    fn copy_out(&self, start: usize, len: usize) -> (r: Vec<u8>)
        requires
            start + len <= self.bytes@.len(),
        ensures
            r@ == self.bytes@.subrange(start as int, start + len),
    {
        let n = self.bytes.len();
        let mut out: Vec<u8> = Vec::new();
        let mut i: usize = 0;
        while i < len
            invariant
                i <= len,
                n == self.bytes@.len(),
                start + len <= self.bytes@.len(),
                out@ == self.bytes@.subrange(start as int, start + i),
            decreases len - i,
        {
            out.push(self.bytes[start + i]);
            assert(out@ =~= self.bytes@.subrange(start as int, start + i + 1));
            i = i + 1;
        }
        out
    }

    /// The render state recorded at the oldest retained byte.
    pub closed spec fn tail_state(&self) -> AnchorState {
        self.anchors@[0].state
    }

    /// Everything retained, with the dimensions, the head, and the render
    /// state at the oldest retained byte.
    pub fn snapshot(&self) -> (r: Snapshot)
        requires
            self.wf(),
        ensures
            r.bytes@ == self.retained(),
            r.head_seq.0 == self.head(),
            (r.cols, r.rows) == self.spec_dims(),
            same_state(r.anchor_state, self.tail_state()),
    {
        let anchor = &self.anchors[0];
        let start_rel: usize = offset_to_relative(anchor.byte_offset, self.tail_offset);
        let len: usize = self.bytes.len() - start_rel;
        let bytes = self.copy_out(start_rel, len);
        assert(self.bytes@.subrange(0, self.bytes@.len() as int) =~= self.bytes@);
        Snapshot {
            cols: self.cols,
            rows: self.rows,
            anchor_state: anchor.state.duplicate(),
            bytes,
            head_seq: self.head_seq,
        }
    }

    /// The bytes after stream position `seq`, when `seq` lies in the retained window.
    pub fn since(&self, seq: StreamSeq) -> (r: Option<DeltaSlice>)
        requires
            self.wf(),
        ensures
            (seq.0 < self.tail() || seq.0 > self.head()) <==> r is None,
            r is Some ==> r->0.bytes@ == self.retained().skip(seq.0 - self.tail())
                && r->0.head_seq.0 == self.head(),
    {
        if seq.0 < self.tail_offset {
            return None;
        }
        if seq.0 > self.head_seq.0 {
            return None;
        }
        let start_rel: usize = offset_to_relative(seq.0, self.tail_offset);
        let len: usize = self.bytes.len() - start_rel;
        let bytes = self.copy_out(start_rel, len);
        assert(self.bytes@.subrange(start_rel as int, self.bytes@.len() as int) =~= self.bytes@.skip(
            start_rel as int,
        ));
        Some(DeltaSlice { bytes, head_seq: self.head_seq })
    }

    /// At most `max_bytes` of retained history ending at `before` (or at the
    /// head), `before` being clamped into the retained window.
    pub fn history_page(&self, before: Option<StreamSeq>, max_bytes: usize) -> (r: HistorySlice)
        requires
            self.wf(),
        ensures
            r.end_seq.0 == page_end(before, self.tail(), self.head()),
            r.start_seq.0 == page_start(r.end_seq.0 as int, self.tail(), max_bytes as int),
            r.bytes@ == self.retained().subrange(
                r.start_seq.0 - self.tail(),
                r.end_seq.0 - self.tail(),
            ),
    {
        let wanted: u64 = match before {
            Some(s) => s.0,
            None => self.head_seq.0,
        };
        let end_offset: u64 = if wanted < self.tail_offset {
            self.tail_offset
        } else if wanted > self.head_seq.0 {
            self.head_seq.0
        } else {
            wanted
        };
        let n = self.bytes.len();
        let available: u64 = end_offset - self.tail_offset;
        let page_len: u64 = if (max_bytes as u64) < available { max_bytes as u64 } else { available };
        let start_offset: u64 = end_offset - page_len;
        let start_rel: usize = (start_offset - self.tail_offset) as usize;
        let bytes = self.copy_out(start_rel, page_len as usize);
        HistorySlice {
            start_seq: StreamSeq(start_offset),
            end_seq: StreamSeq(end_offset),
            bytes,
        }
    }
}

} // verus!
