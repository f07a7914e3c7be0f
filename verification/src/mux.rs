//! Many streams on one wire: which streams are live, what a frame from the wire
//! means for them, and how streams get their numbers.
use crate::cells::{
    decode_real_cell, decoded_cell, is_cell, law_cells_read_back, STREAM_ID_SINGLE,
};
use crate::clock::{Duration, Instant};
use crate::crypto::KIND_REAL;
use crate::transport::{
    law_boundaries_are_ahead_and_aligned, EpochClock, TailPolicy, DEFAULT_MAX_FRAME_LEN,
};
use std::collections::HashSet;
use vstd::prelude::*;

verus! {

broadcast use vstd::std_specs::hash::group_hash_axioms;

/// Streams that a client may have open on one wire.
pub const MAX_STREAMS_PER_WIRE: usize = 512;

/// Bridge connections that may be open at once.
pub const MAX_GLOBAL_BRIDGE_STREAMS: usize = 4096;

/// Bytes that are held back for a stream whose bridge is not connected yet.
pub const EPOCH_HOLD_MAX_BYTES: usize = 262_144;

/// Streams that one wire can number.
pub const MAX_STREAM_IDS: usize = 65_534;

/// What a frame from a client means for the server.
pub enum DemuxAction {
    /// Nothing: it is cover, or there is no room for another bridge.
    Ignore,
    /// The stream is over; it is to be answered with a closing cell.
    Close(u16),
    /// Data for a stream that is live.
    Forward(u16, Vec<u8>),
    /// Data for a new stream, for which a bridge connection is to be opened.
    Open(u16, Vec<u8>),
    /// The client has too many streams; the wire is to be given up.
    Abort,
}

/// What a frame means, with the data it carries.
pub enum DemuxView {
    Ignore,
    Close(u16),
    Forward(u16, Seq<u8>),
    Open(u16, Seq<u8>),
    Abort,
}

impl View for DemuxAction {
    type V = DemuxView;

    open spec fn view(&self) -> DemuxView {
        match self {
            DemuxAction::Ignore => DemuxView::Ignore,
            DemuxAction::Close(id) => DemuxView::Close(*id),
            DemuxAction::Forward(id, data) => DemuxView::Forward(*id, data@),
            DemuxAction::Open(id, data) => DemuxView::Open(*id, data@),
            DemuxAction::Abort => DemuxView::Abort,
        }
    }
}

/// What came of handing data to a stream.
#[derive(Clone, Copy, Debug, PartialEq, Eq, Structural)]
pub enum Delivery {
    /// It was taken.
    Taken,
    /// The stream's buffer is full; the data is dropped.
    Full,
    /// The stream's receiver is gone.
    Closed,
}

/// What a frame from a client leads to, given the live streams and the number
/// of bridge connections open anywhere.
pub open spec fn demuxed(live: Set<u16>, kind: u8, cell: Seq<u8>, bridges: nat) -> (
    Set<u16>,
    DemuxView,
) {
    let (id, data) = decoded_cell(cell);
    if kind != KIND_REAL {
        (live, DemuxView::Ignore)
    } else if data.len() == 0 {
        (live.remove(id), DemuxView::Close(id))
    } else if live.contains(id) {
        (live, DemuxView::Forward(id, data))
    } else if live.len() >= MAX_STREAMS_PER_WIRE {
        (live, DemuxView::Abort)
    } else if bridges >= MAX_GLOBAL_BRIDGE_STREAMS {
        (live, DemuxView::Ignore)
    } else {
        (live.insert(id), DemuxView::Open(id, data))
    }
}

/// What a frame from the server leads to, given the live streams.
pub open spec fn demuxed_inbound(live: Set<u16>, kind: u8, cell: Seq<u8>) -> (Set<u16>, DemuxView) {
    let (id, data) = decoded_cell(cell);
    if kind != KIND_REAL {
        (live, DemuxView::Ignore)
    } else if data.len() == 0 {
        (live.remove(id), DemuxView::Close(id))
    } else if live.contains(id) {
        (live, DemuxView::Forward(id, data))
    } else {
        (live, DemuxView::Ignore)
    }
}

/// The live streams after an attempt to hand data to one of them.
pub open spec fn after_delivery(live: Set<u16>, id: u16, delivery: Delivery) -> Set<u16> {
    if delivery == Delivery::Closed {
        live.remove(id)
    } else {
        live
    }
}

/// A client never has more streams on a wire than it may, whatever it sends.
pub proof fn law_streams_per_wire_are_capped(live: Set<u16>, kind: u8, cell: Seq<u8>, bridges: nat)
    requires
        live.len() <= MAX_STREAMS_PER_WIRE,
    ensures
        demuxed(live, kind, cell, bridges).0.len() <= MAX_STREAMS_PER_WIRE,
{
    let id = decoded_cell(cell).0;
    lemma_ids_are_finite(live);
    vstd::set::axiom_set_remove_len(live, id);
    vstd::set::axiom_set_insert_len(live, id);
}

/// Cover never changes which streams are live, and never reaches one.
pub proof fn law_cover_reaches_no_stream(live: Set<u16>, kind: u8, cell: Seq<u8>, bridges: nat)
    requires
        kind != KIND_REAL,
    ensures
        demuxed(live, kind, cell, bridges) == (live, DemuxView::Ignore),
        demuxed_inbound(live, kind, cell) == (live, DemuxView::Ignore),
{
}

/// A copy of a slice.
fn copied(s: &[u8]) -> (v: Vec<u8>)
    ensures
        v@ == s@,
{
    let v = crate::bytes::copy_range(s, 0, s.len());
    assert(v@ =~= s@);
    v
}

/// The streams of a client's wire, on the server.
pub struct DemuxTable {
    live: HashSet<u16>,
}

impl View for DemuxTable {
    type V = Set<u16>;

    closed spec fn view(&self) -> Set<u16> {
        self.live@
    }
}

impl DemuxTable {
    /// A wire without streams.
    pub fn new() -> (t: DemuxTable)
        ensures
            t@ == Set::<u16>::empty(),
    {
        DemuxTable { live: HashSet::new() }
    }

    /// Takes in a frame, given the number of bridge connections open anywhere.
    pub fn on_frame(&mut self, kind: u8, cell: &[u8], bridges: usize) -> (a: DemuxAction)
        ensures
            (final(self)@, a@) == demuxed(old(self)@, kind, cell@, bridges as nat),
    {
        if kind != KIND_REAL {
            return DemuxAction::Ignore;
        }
        let (id, data) = decode_real_cell(cell);
        if data.len() == 0 {
            self.live.remove(&id);
            assert(self.live@ =~= old(self)@.remove(id));
            return DemuxAction::Close(id);
        }
        if self.live.contains(&id) {
            return DemuxAction::Forward(id, copied(data));
        }
        if self.live.len() >= MAX_STREAMS_PER_WIRE {
            return DemuxAction::Abort;
        }
        if bridges >= MAX_GLOBAL_BRIDGE_STREAMS {
            return DemuxAction::Ignore;
        }
        self.live.insert(id);
        DemuxAction::Open(id, copied(data))
    }

    /// Takes in what came of handing data to a stream.
    pub fn on_delivery(&mut self, id: u16, delivery: Delivery)
        ensures
            final(self)@ == after_delivery(old(self)@, id, delivery),
    {
        if delivery == Delivery::Closed {
            self.live.remove(&id);
            assert(self.live@ =~= old(self)@.remove(id));
        }
    }

    /// Live streams.
    pub fn len(&self) -> (n: usize)
        ensures
            n == self@.len(),
    {
        self.live.len()
    }
}

/// What a client's wire holds: the live streams, and where the search for the
/// next number starts.
pub struct MuxState {
    pub live: Set<u16>,
    pub next_id: u16,
}

/// The number `k` places after `from`, counting on from the smallest after the
/// largest.
pub open spec fn id_after(from: u16, k: nat) -> u16 {
    ((from as int + k as int) % 65_536) as u16
}

/// Whether a number may not be given to a new stream.
pub open spec fn is_taken(live: Set<u16>, id: u16) -> bool {
    id == STREAM_ID_SINGLE || live.contains(id)
}

/// Whether `id` is the first free number from `from` on.
pub open spec fn is_first_free(live: Set<u16>, from: u16, id: u16) -> bool {
    exists|k: nat|
        #![trigger id_after(from, k)]
        id == id_after(from, k) && !is_taken(live, id) && forall|j: nat|
            j < k ==> is_taken(live, #[trigger] id_after(from, j))
}

/// There are only so many numbers, so any set of them is finite.
proof fn lemma_ids_are_finite(ids: Set<u16>)
    ensures
        ids.finite(),
{
    let range = vstd::set_lib::set_int_range(0, 65_536);
    vstd::set_lib::lemma_int_range(0, 65_536);
    let f = |i: int| i as u16;
    let all = range.map(f);
    assert(vstd::relations::injective_on(f, range));
    vstd::set_lib::lemma_map_size(range, all, f);
    assert forall|id: u16| ids.contains(id) implies all.contains(id) by {
        assert(range.contains(id as int) && f(id as int) == id);
    }
    vstd::set_lib::lemma_len_subset(ids, all);
}

/// Where not all numbers can be taken, one is free.
proof fn lemma_some_id_is_free(live: Set<u16>, from: u16)
    requires
        live.finite(),
        live.len() < MAX_STREAM_IDS,
    ensures
        exists|j: nat| j < 65_536 && !is_taken(live, #[trigger] id_after(from, j)),
{
    if forall|j: nat| j < 65_536 ==> is_taken(live, #[trigger] id_after(from, j)) {
        let range = vstd::set_lib::set_int_range(1, 65_536);
        vstd::set_lib::lemma_int_range(1, 65_536);
        let f = |i: int| i as u16;
        let ids = range.map(f);
        assert forall|id: u16| ids.contains(id) implies live.contains(id) by {
            let i = choose|i: int| range.contains(i) && f(i) == id;
            let k = ((i - from + 65_536) % 65_536) as nat;
            assert((from + k) % 65_536 == i);
            assert(id_after(from, k) == id);
            assert(is_taken(live, id_after(from, k)));
        }
        assert(vstd::relations::injective_on(f, range));
        vstd::set_lib::lemma_map_size(range, ids, f);
        vstd::set_lib::lemma_len_subset(ids, live);
        assert(false);
    }
}

/// The streams of a wire, on the client.
pub struct MuxTable {
    live: HashSet<u16>,
    next_id: u16,
}

impl View for MuxTable {
    type V = MuxState;

    closed spec fn view(&self) -> MuxState {
        MuxState { live: self.live@, next_id: self.next_id }
    }
}

impl MuxTable {
    /// A wire without streams.
    pub fn new() -> (t: MuxTable)
        ensures
            t@ == (MuxState { live: Set::empty(), next_id: 1 }),
    {
        MuxTable { live: HashSet::new(), next_id: 1 }
    }

    /// Numbers a new stream: the first free number, counting on from the last
    /// one given. Where all numbers are in use there is none to give.
    pub fn add_stream(&mut self) -> (r: Option<u16>)
        ensures
            match r {
                None => old(self)@.live.len() >= MAX_STREAM_IDS && final(self)@ == old(self)@,
                Some(id) => {
                    &&& old(self)@.live.len() < MAX_STREAM_IDS
                    &&& is_first_free(old(self)@.live, old(self)@.next_id, id)
                    &&& final(self)@.live == old(self)@.live.insert(id)
                    &&& final(self)@.next_id == id_after(id, 1)
                },
            },
    {
        if self.live.len() >= MAX_STREAM_IDS {
            return None;
        }
        let ghost from = self.next_id;
        proof {
            lemma_ids_are_finite(self.live@);
        }
        let mut k: u32 = 0;
        loop
            invariant
                k <= 65_536,
                self.live@ == old(self)@.live,
                self.live@.finite(),
                self.live@.len() < MAX_STREAM_IDS,
                from == old(self)@.next_id,
                self.next_id == id_after(from, k as nat),
                forall|j: nat| j < k ==> is_taken(self.live@, #[trigger] id_after(from, j)),
            decreases 65_536 - k,
        {
            proof {
                lemma_some_id_is_free(self.live@, from);
                assert(k < 65_536);
            }
            let candidate: u16 = self.next_id;
            self.next_id = candidate.wrapping_add(1);
            assert(self.next_id == id_after(candidate, 1));
            if candidate != STREAM_ID_SINGLE && !self.live.contains(&candidate) {
                assert(is_first_free(self.live@, from, candidate)) by {
                    assert(candidate == id_after(from, k as nat));
                }
                self.live.insert(candidate);
                return Some(candidate);
            }
            assert(self.next_id == id_after(from, (k + 1) as nat));
            k = k + 1;
        }
    }

    /// Takes in a frame from the server.
    pub fn on_frame(&mut self, kind: u8, cell: &[u8]) -> (a: DemuxAction)
        ensures
            (final(self)@.live, a@) == demuxed_inbound(old(self)@.live, kind, cell@),
            final(self)@.next_id == old(self)@.next_id,
    {
        if kind != KIND_REAL {
            return DemuxAction::Ignore;
        }
        let (id, data) = decode_real_cell(cell);
        if data.len() == 0 {
            self.live.remove(&id);
            assert(self.live@ =~= old(self)@.live.remove(id));
            return DemuxAction::Close(id);
        }
        if self.live.contains(&id) {
            return DemuxAction::Forward(id, copied(data));
        }
        DemuxAction::Ignore
    }

    /// Takes in what came of handing data to a stream.
    pub fn on_delivery(&mut self, id: u16, delivery: Delivery)
        ensures
            final(self)@ == (MuxState {
                live: after_delivery(old(self)@.live, id, delivery),
                ..old(self)@
            }),
    {
        if delivery == Delivery::Closed {
            self.live.remove(&id);
            assert(self.live@ =~= old(self)@.live.remove(id));
        }
    }

    /// Live streams.
    pub fn len(&self) -> (n: usize)
        ensures
            n == self@.live.len(),
    {
        self.live.len()
    }
}

/// A number given to a new stream is not that of a live one, and not the one
/// reserved for wires with a single stream.
pub proof fn law_new_streams_get_their_own_number(live: Set<u16>, from: u16, id: u16)
    requires
        is_first_free(live, from, id),
    ensures
        !live.contains(id),
        id != STREAM_ID_SINGLE,
{
}

/// When data for a stream may first go to its bridge: with epochs, at the end
/// of the current one, and else at once.
pub open spec fn gate_of(policy: TailPolicy, now: Instant) -> int {
    match policy {
        TailPolicy::Epoch(clock) => clock.boundary(now.nanos as int),
        _ => now.nanos as int,
    }
}

/// When data for a stream may first go to its bridge.
pub fn gate_until(policy: &TailPolicy, now: Instant) -> (t: Instant)
    requires
        gate_of(*policy, now) <= u128::MAX,
    ensures
        t.nanos == gate_of(*policy, now),
{
    match policy {
        TailPolicy::Epoch(clock) => clock.next_boundary(now),
        _ => now,
    }
}

/// The size of reads: as asked for, but at least one byte and no more than the
/// largest.
pub fn clamp_read(max_read: usize) -> (n: usize)
    ensures
        n == if max_read < 1 {
            1
        } else if max_read > DEFAULT_MAX_FRAME_LEN {
            DEFAULT_MAX_FRAME_LEN
        } else {
            max_read
        },
{
    if max_read < 1 {
        1
    } else if max_read > DEFAULT_MAX_FRAME_LEN {
        DEFAULT_MAX_FRAME_LEN
    } else {
        max_read
    }
}

/// Data held back for a stream until the stream is released.
pub struct HoldBuffer {
    held: Vec<Vec<u8>>,
    bytes: usize,
}

/// Bytes in the first `n` pieces.
pub open spec fn held_bytes(held: Seq<Seq<u8>>, n: nat) -> nat
    decreases n,
{
    if n == 0 {
        0
    } else {
        held_bytes(held, (n - 1) as nat) + held[n - 1].len()
    }
}

impl View for HoldBuffer {
    type V = Seq<Seq<u8>>;

    closed spec fn view(&self) -> Seq<Seq<u8>> {
        crate::cells::contents(self.held@)
    }
}

proof fn lemma_held_bytes_of_prefix(a: Seq<Seq<u8>>, b: Seq<Seq<u8>>, n: nat)
    requires
        n <= a.len(),
        n <= b.len(),
        forall|i: int| 0 <= i < n ==> a[i] == b[i],
    ensures
        held_bytes(a, n) == held_bytes(b, n),
    decreases n,
{
    if n > 0 {
        lemma_held_bytes_of_prefix(a, b, (n - 1) as nat);
    }
}

impl HoldBuffer {
    /// The count of bytes is right.
    pub closed spec fn wf(&self) -> bool {
        self.bytes == held_bytes(self@, self@.len())
    }

    /// A buffer that holds nothing.
    pub fn new() -> (h: HoldBuffer)
        ensures
            h.wf(),
            h@ == Seq::<Seq<u8>>::empty(),
    {
        let held: Vec<Vec<u8>> = Vec::new();
        assert(crate::cells::contents(held@) =~= Seq::empty());
        HoldBuffer { held, bytes: 0 }
    }

    /// Whether no more data is taken before the stream is released.
    pub fn is_full(&self) -> (b: bool)
        requires
            self.wf(),
        ensures
            b == (held_bytes(self@, self@.len()) >= EPOCH_HOLD_MAX_BYTES),
    {
        self.bytes >= EPOCH_HOLD_MAX_BYTES
    }

    /// Holds back another piece.
    pub fn hold(&mut self, data: Vec<u8>)
        requires
            old(self).wf(),
            held_bytes(old(self)@, old(self)@.len()) + data@.len() <= usize::MAX,
        ensures
            final(self).wf(),
            final(self)@ == old(self)@.push(data@),
    {
        let ghost before = self@;
        self.bytes = self.bytes + data.len();
        self.held.push(data);
        assert(self@ =~= before.push(data@));
        proof {
            lemma_held_bytes_of_prefix(before, self@, before.len());
        }
    }

    /// The pieces, in the order in which they came.
    pub fn into_pieces(self) -> (pieces: Vec<Vec<u8>>)
        ensures
            crate::cells::contents(pieces@) == self@,
    {
        self.held
    }
}

/// Data reaches the stream it was sent on and no other: a cell made for a live
/// stream is forwarded to that stream, with the data it was made with, on
/// either side of the wire.
pub proof fn law_data_reaches_its_own_stream(
    live: Set<u16>,
    cell: Seq<u8>,
    id: u16,
    data: Seq<u8>,
    bridges: nat,
)
    requires
        is_cell(cell, id, data),
        data.len() > 0,
        live.contains(id),
    ensures
        demuxed(live, KIND_REAL, cell, bridges) == (live, DemuxView::Forward(id, data)),
        demuxed_inbound(live, KIND_REAL, cell) == (live, DemuxView::Forward(id, data)),
{
    law_cells_read_back(cell, id, data);
}

/// A closing cell ends its stream, and leaves the others.
pub proof fn law_closing_cells_end_their_stream(
    live: Set<u16>,
    cell: Seq<u8>,
    id: u16,
    bridges: nat,
)
    requires
        is_cell(cell, id, Seq::empty()),
    ensures
        demuxed(live, KIND_REAL, cell, bridges) == (live.remove(id), DemuxView::Close(id)),
        demuxed_inbound(live, KIND_REAL, cell) == (live.remove(id), DemuxView::Close(id)),
{
    law_cells_read_back(cell, id, Seq::empty());
}

/// A frame that comes in, with what surrounds it: the number of bridge
/// connections open anywhere, and what comes of handing its data to its stream,
/// if it is handed over.
pub struct WireEvent {
    pub kind: u8,
    pub cell: Seq<u8>,
    pub bridges: nat,
    pub delivery: Delivery,
}

impl WireEvent {
    /// Whether this is data for stream `t`.
    pub open spec fn is_data_for(self, t: u16) -> bool {
        &&& self.kind == KIND_REAL
        &&& decoded_cell(self.cell).0 == t
        &&& decoded_cell(self.cell).1.len() > 0
    }

    /// Whether this ends stream `t`: a closing cell of it, or data for it that
    /// finds its receiver gone.
    pub open spec fn ends(self, t: u16) -> bool {
        &&& self.kind == KIND_REAL
        &&& decoded_cell(self.cell).0 == t
        &&& decoded_cell(self.cell).1.len() == 0 || self.delivery == Delivery::Closed
    }

    /// The streams after the frame and what the frame means, on the server or on
    /// the client.
    pub open spec fn demuxed(self, on_server: bool, live: Set<u16>) -> (Set<u16>, DemuxView) {
        if on_server {
            demuxed(live, self.kind, self.cell, self.bridges)
        } else {
            demuxed_inbound(live, self.kind, self.cell)
        }
    }
}

/// Where a wire stands: its live streams, the data that streams have taken, each
/// piece with its stream, and whether the wire was given up.
pub struct WireRun {
    pub live: Set<u16>,
    pub taken: Seq<(u16, Seq<u8>)>,
    pub aborted: bool,
}

impl WireRun {
    /// The wire after one more frame. Data for a stream is handed to it at once,
    /// and dropped where the stream does not take it. A wire that was given up
    /// takes no more frames.
    pub open spec fn after(self, on_server: bool, e: WireEvent) -> WireRun {
        let (live, action) = e.demuxed(on_server, self.live);
        if self.aborted {
            self
        } else {
            match action {
                DemuxView::Ignore => WireRun { live, ..self },
                DemuxView::Close(_) => WireRun { live, ..self },
                DemuxView::Abort => WireRun { live, aborted: true, ..self },
                DemuxView::Forward(id, data) => self.handed(live, id, data, e.delivery),
                DemuxView::Open(id, data) => self.handed(live, id, data, e.delivery),
            }
        }
    }

    /// The wire once data was handed to a stream.
    pub open spec fn handed(self, live: Set<u16>, id: u16, data: Seq<u8>, delivery: Delivery) -> WireRun {
        WireRun {
            live: after_delivery(live, id, delivery),
            taken: if delivery == Delivery::Taken {
                self.taken.push((id, data))
            } else {
                self.taken
            },
            ..self
        }
    }

    /// The wire after a run of frames.
    pub open spec fn run(self, on_server: bool, events: Seq<WireEvent>) -> WireRun
        decreases events.len(),
    {
        if events.len() == 0 {
            self
        } else {
            self.run(on_server, events.drop_last()).after(on_server, events.last())
        }
    }

    /// Whether a frame's data is taken by its stream: the wire is in use, the
    /// stream is live or is let in, and it has room.
    pub open spec fn takes(self, on_server: bool, e: WireEvent) -> bool {
        &&& !self.aborted
        &&& e.is_data_for(decoded_cell(e.cell).0)
        &&& e.delivery == Delivery::Taken
        &&& self.live.contains(decoded_cell(e.cell).0) || (on_server && self.live.len()
            < MAX_STREAMS_PER_WIRE && e.bridges < MAX_GLOBAL_BRIDGE_STREAMS)
    }
}

/// The pieces of one stream, in order.
pub open spec fn pieces_of(taken: Seq<(u16, Seq<u8>)>, t: u16) -> Seq<Seq<u8>>
    decreases taken.len(),
{
    if taken.len() == 0 {
        Seq::empty()
    } else {
        let before = pieces_of(taken.drop_last(), t);
        if taken.last().0 == t {
            before.push(taken.last().1)
        } else {
            before
        }
    }
}

/// The data of the cells of stream `t` that the stream takes in a run of frames,
/// in order.
pub open spec fn data_taken(wire: WireRun, on_server: bool, events: Seq<WireEvent>, t: u16) -> Seq<
    Seq<u8>,
>
    decreases events.len(),
{
    if events.len() == 0 {
        Seq::empty()
    } else {
        let before = data_taken(wire, on_server, events.drop_last(), t);
        let e = events.last();
        if e.is_data_for(t) && wire.run(on_server, events.drop_last()).takes(on_server, e) {
            before.push(decoded_cell(e.cell).1)
        } else {
            before
        }
    }
}

/// The data of the cells of stream `t` that find room in it, in order, by what
/// happens to that stream alone.
pub open spec fn data_with_room(events: Seq<WireEvent>, t: u16) -> Seq<Seq<u8>>
    decreases events.len(),
{
    if events.len() == 0 {
        Seq::empty()
    } else {
        let before = data_with_room(events.drop_last(), t);
        let e = events.last();
        if e.is_data_for(t) && e.delivery == Delivery::Taken {
            before.push(decoded_cell(e.cell).1)
        } else {
            before
        }
    }
}

proof fn lemma_pieces_of_one_more(taken: Seq<(u16, Seq<u8>)>, id: u16, data: Seq<u8>, t: u16)
    ensures
        pieces_of(taken.push((id, data)), t) == if id == t {
            pieces_of(taken, t).push(data)
        } else {
            pieces_of(taken, t)
        },
{
    assert(taken.push((id, data)).drop_last() =~= taken);
}

/// Over any run of frames a stream gets its own data and nothing else, in the
/// order in which it came: the data of its own real cells that it has room for.
/// No cover reaches it, and no data of another stream.
pub proof fn law_streams_get_their_own_data(
    wire: WireRun,
    on_server: bool,
    events: Seq<WireEvent>,
    t: u16,
)
    requires
        wire.taken.len() == 0,
    ensures
        pieces_of(wire.run(on_server, events).taken, t) == data_taken(wire, on_server, events, t),
    decreases events.len(),
{
    if events.len() > 0 {
        law_streams_get_their_own_data(wire, on_server, events.drop_last(), t);
        let mid = wire.run(on_server, events.drop_last());
        let e = events.last();
        let (id, data) = decoded_cell(e.cell);
        lemma_pieces_of_one_more(mid.taken, id, data, t);
    }
}

/// No stream holds up another: as long as a stream is live and the wire is in
/// use, it gets the data of all its real cells that find room in it, in order,
/// whatever happens to other streams, and stays live.
pub proof fn law_streams_do_not_hold_each_other_up(
    wire: WireRun,
    on_server: bool,
    events: Seq<WireEvent>,
    t: u16,
)
    requires
        wire.taken.len() == 0,
        wire.live.contains(t),
        !wire.run(on_server, events).aborted,
        forall|i: int| 0 <= i < events.len() ==> !(#[trigger] events[i]).ends(t),
    ensures
        pieces_of(wire.run(on_server, events).taken, t) == data_with_room(events, t),
        wire.run(on_server, events).live.contains(t),
    decreases events.len(),
{
    if events.len() > 0 {
        let before = events.drop_last();
        assert forall|i: int| 0 <= i < before.len() implies !(#[trigger] before[i]).ends(t) by {
            assert(before[i] == events[i]);
        }
        law_streams_do_not_hold_each_other_up(wire, on_server, before, t);
        let mid = wire.run(on_server, before);
        let e = events.last();
        assert(!events[events.len() - 1].ends(t));
        let (id, data) = decoded_cell(e.cell);
        lemma_pieces_of_one_more(mid.taken, id, data, t);
    }
}

/// What arrives for a client, if its stream is to get it: the data of a real cell
/// that is not empty. Cover is dropped.
pub fn inbound_data(kind: u8, cell: &[u8]) -> (r: Option<Vec<u8>>)
    ensures
        match r {
            Some(data) => kind == KIND_REAL && decoded_cell(cell@).1.len() > 0 && data@
                == decoded_cell(cell@).1,
            None => kind != KIND_REAL || decoded_cell(cell@).1.len() == 0,
        },
{
    if kind != KIND_REAL {
        return None;
    }
    let (_, data) = decode_real_cell(cell);
    if data.len() == 0 {
        return None;
    }
    Some(copied(data))
}

/// New streams are let in while there is room: data for a stream that is not live
/// opens it exactly when the client has fewer than 512 streams and fewer than
/// 4096 bridge connections are open anywhere. A client with too many streams is
/// given up, and where only bridges are lacking, the data is dropped and the wire
/// stays. Live streams are not affected by either.
pub proof fn law_new_streams_are_let_in(live: Set<u16>, cell: Seq<u8>, bridges: nat)
    requires
        decoded_cell(cell).1.len() > 0,
    ensures
        ({
            let (id, data) = decoded_cell(cell);
            let (after, action) = demuxed(live, KIND_REAL, cell, bridges);
            &&& action == DemuxView::Open(id, data) <==> !live.contains(id) && live.len() < 512
                && bridges < 4096
            &&& action == DemuxView::Abort <==> !live.contains(id) && live.len() >= 512
            &&& action == DemuxView::Ignore <==> !live.contains(id) && live.len() < 512 && bridges
                >= 4096
            &&& action == DemuxView::Forward(id, data) <==> live.contains(id)
            &&& after.contains(id) <==> live.contains(id) || (live.len() < 512 && bridges < 4096)
            &&& forall|other: u16| other != id ==> (after.contains(other) <==> live.contains(other))
        }),
{
}

/// What comes of handing data over: only a receiver that is gone ends its stream,
/// and only that stream. A full buffer changes nothing.
pub proof fn law_only_gone_receivers_end_streams(live: Set<u16>, id: u16, delivery: Delivery, other: u16)
    ensures
        after_delivery(live, id, delivery).contains(other) <==> live.contains(other) && !(other == id
            && delivery == Delivery::Closed),
{
}

/// Numbers are given in turn: between where the search starts and the number
/// given, counting on from the smallest after the largest, every number is in use
/// or reserved.
pub proof fn law_numbers_are_given_in_turn(live: Set<u16>, from: u16, id: u16, between: u16)
    requires
        is_first_free(live, from, id),
        if from <= id {
            from <= between < id
        } else {
            between >= from || between < id
        },
    ensures
        between == 0 || live.contains(between),
{
    let k = choose|k: nat|
        #![trigger id_after(from, k)]
        id == id_after(from, k) && !is_taken(live, id) && forall|j: nat|
            j < k ==> is_taken(live, #[trigger] id_after(from, j));
    let j = ((between - from + 65_536) % 65_536) as nat;
    let m = ((id - from + 65_536) % 65_536) as nat;
    assert(id_after(from, j) == between);
    assert(id_after(from, m) == id);
    assert(j < m);
    if k < m {
        assert(id_after(from, k) == id);
        assert((from + k) % 65_536 == id as int);
        assert(k % 65_536 == m % 65_536);
    }
    assert(j < k);
}

/// Data for a new stream waits for the end of the current epoch, and without
/// epochs it does not wait.
pub proof fn law_new_streams_wait_for_the_epoch(clock: EpochClock, now: Instant, age: Duration)
    requires
        clock.length() > 0,
        clock.start() <= now.nanos,
    ensures
        now.nanos < gate_of(TailPolicy::Epoch(clock), now) <= now.nanos + clock.length(),
        (gate_of(TailPolicy::Epoch(clock), now) - clock.start()) % clock.length() as int == 0,
        gate_of(TailPolicy::Off, now) == now.nanos,
        gate_of(TailPolicy::ByClass, now) == now.nanos,
        gate_of(TailPolicy::Fixed(age), now) == now.nanos,
{
    law_boundaries_are_ahead_and_aligned(clock, now.nanos as int);
}

/// What comes from the server opens no stream: data for a stream that is not live
/// is dropped, and so is cover.
pub proof fn law_servers_open_no_streams(live: Set<u16>, kind: u8, cell: Seq<u8>, other: u16)
    ensures
        ({
            let (id, data) = decoded_cell(cell);
            let (after, action) = demuxed_inbound(live, kind, cell);
            &&& action == DemuxView::Forward(id, data) <==> kind == 1 && data.len() > 0
                && live.contains(id)
            &&& action == DemuxView::Close(id) <==> kind == 1 && data.len() == 0
            &&& action == DemuxView::Ignore <==> kind != 1 || (data.len() > 0 && !live.contains(id))
            &&& after.contains(other) <==> live.contains(other) && !(other == id && action
                == DemuxView::Close(id))
        }),
{
}

/// What is held back is counted to the byte: a piece more adds its length.
pub proof fn law_held_pieces_add_up(held: Seq<Seq<u8>>, piece: Seq<u8>)
    ensures
        held_bytes(held.push(piece), held.len() + 1) == held_bytes(held, held.len())
            + piece.len(),
        held_bytes(held, 0) == 0,
{
    lemma_held_bytes_of_prefix(held, held.push(piece), held.len());
}

/// The number after the largest is the smallest, and after any other the next.
pub proof fn law_numbers_count_on(from: u16, k: nat)
    ensures
        from < 65_535 ==> id_after(from, 1) == from + 1,
        from == 65_535 ==> id_after(from, 1) == 0,
        id_after(from, 0) == from,
        id_after(from, k + 1) == id_after(id_after(from, k), 1),
{
}

} // verus!
