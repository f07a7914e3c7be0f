//! What a passive observer can compute from a lab log: sizes, byte counts over
//! time, totals and spans of each connection, and how well observed flows match
//! real ones.
use vstd::prelude::*;
use vstd::string::*;

pub use crate::lab_log::{parse_reader, record_views, LogRecord, RecordView};

verus! {

/// Flows below which totals are not compared.
pub const MIN_FLOWS_FOR_TOTALS: usize = 3;

/// Flows below which linking makes no sense.
pub const MIN_FLOWS_FOR_LINKING: usize = 2;

/// Which events hold the observed frames and which the real traffic.
#[derive(Debug, PartialEq, Eq)]
pub struct EventNames {
    pub wire: String,
    pub real: String,
}

/// The names as text.
pub struct EventsView {
    pub wire: Seq<char>,
    pub real: Seq<char>,
}

impl View for EventNames {
    type V = EventsView;

    open spec fn view(&self) -> EventsView {
        EventsView { wire: self.wire@, real: self.real@ }
    }
}

impl Clone for EventNames {
    fn clone(&self) -> (e: EventNames)
        ensures
            e@ == self@,
    {
        EventNames { wire: self.wire.clone(), real: self.real.clone() }
    }
}

impl EventNames {
    /// The server's log, from the client.
    pub fn server() -> (e: EventNames)
        ensures
            e@ == (EventsView { wire: "server_wire_input"@, real: "server_real_output"@ }),
    {
        EventNames {
            wire: String::from_str("server_wire_input"),
            real: String::from_str("server_real_output"),
        }
    }

    /// The client's log, to the server.
    pub fn client() -> (e: EventNames)
        ensures
            e@ == (EventsView { wire: "client_wire_output"@, real: "client_input"@ }),
    {
        EventNames {
            wire: String::from_str("client_wire_output"),
            real: String::from_str("client_input"),
        }
    }

    /// The server's log, to the client.
    pub fn server_return() -> (e: EventNames)
        ensures
            e@ == (EventsView { wire: "server_wire_return"@, real: "server_bridge_reply"@ }),
    {
        EventNames {
            wire: String::from_str("server_wire_return"),
            real: String::from_str("server_bridge_reply"),
        }
    }

    /// The client's log, from the server.
    pub fn client_return() -> (e: EventNames)
        ensures
            e@ == (EventsView { wire: "client_wire_return"@, real: "client_inbound_real"@ }),
    {
        EventNames {
            wire: String::from_str("client_wire_return"),
            real: String::from_str("client_inbound_real"),
        }
    }
}

/// Which of the two streams an event belongs to.
#[derive(Clone, Copy, Debug, PartialEq, Eq, Structural)]
pub enum Side {
    /// A frame on the wire.
    Wire,
    /// Real traffic.
    Real,
    /// Neither.
    Other,
}

/// Which stream a record belongs to.
pub open spec fn side_of(r: LogRecord, events: EventsView) -> Side {
    if r.event@ == events.wire {
        Side::Wire
    } else if r.event@ == events.real {
        Side::Real
    } else {
        Side::Other
    }
}

/// Which stream a record belongs to.
pub fn side(r: &LogRecord, events: &EventNames) -> (s: Side)
    ensures
        s == side_of(*r, events@),
{
    if r.event == events.wire {
        Side::Wire
    } else if r.event == events.real {
        Side::Real
    } else {
        Side::Other
    }
}

/// Whether a record is one of the two streams, and of the connection asked for
/// where one is.
pub open spec fn counts(r: LogRecord, events: EventsView, conn: Option<u64>) -> bool {
    side_of(r, events) != Side::Other && match conn {
        Some(id) => r.conn_id == id,
        None => true,
    }
}

/// Whether a record is one of the two streams, and of the connection asked for
/// where one is.
fn is_counted(r: &LogRecord, events: &EventNames, conn: Option<u64>) -> (b: bool)
    ensures
        b == counts(*r, events@, conn),
{
    if side(r, events) == Side::Other {
        return false;
    }
    match conn {
        Some(id) => r.conn_id == id,
        None => true,
    }
}

/// Whether the ids are in strictly ascending order.
pub open spec fn strictly_ascending(ids: Seq<u64>) -> bool {
    forall|i: int, j: int| 0 <= i < j < ids.len() ==> ids[i] < ids[j]
}

/// Adds an id to ids in ascending order, unless it is there.
fn insert_id(ids: &mut Vec<u64>, id: u64)
    requires
        strictly_ascending(old(ids)@),
    ensures
        strictly_ascending(final(ids)@),
        forall|v: u64| #[trigger] final(ids)@.contains(v) == (old(ids)@.contains(v) || v == id),
{
    let ghost before = ids@;
    let mut at: usize = 0;
    while at < ids.len() && ids[at] < id
        invariant
            at <= ids@.len(),
            ids@ == before,
            forall|j: int| 0 <= j < at ==> ids@[j] < id,
        decreases ids@.len() - at,
    {
        at = at + 1;
    }
    if at < ids.len() && ids[at] == id {
        assert(before[at as int] == id);
        return;
    }
    ids.insert(at, id);
    let ghost after = ids@;
    assert forall|v: u64| #[trigger] after.contains(v) == (before.contains(v) || v == id) by {
        if after.contains(v) {
            let k = after.index_of(v);
            if k < at {
                assert(before[k] == v);
            } else if k > at {
                assert(before[k - 1] == v);
            }
        }
        if v == id {
            assert(after[at as int] == v);
        } else if before.contains(v) {
            let k = before.index_of(v);
            if k < at {
                assert(after[k] == v);
            } else {
                assert(after[k + 1] == v);
            }
        }
    }
}

/// The connections that occur in the two streams, each once, in ascending
/// order.
pub fn distinct_conn_ids(records: &[LogRecord], events: &EventNames) -> (ids: Vec<u64>)
    ensures
        strictly_ascending(ids@),
        forall|id: u64|
            ids@.contains(id) <==> exists|i: int|
                0 <= i < records@.len() && counts(#[trigger] records@[i], events@, Some(id)),
{
    let mut ids: Vec<u64> = Vec::new();
    let mut n: usize = 0;
    while n < records.len()
        invariant
            n <= records@.len(),
            strictly_ascending(ids@),
            forall|id: u64|
                ids@.contains(id) <==> exists|i: int|
                    0 <= i < n && counts(#[trigger] records@[i], events@, Some(id)),
        decreases records@.len() - n,
    {
        let ghost before = ids@;
        let conn: u64 = records[n].conn_id;
        let counted = is_counted(&records[n], events, None);
        if counted {
            insert_id(&mut ids, conn);
        }
        assert forall|id: u64| ids@.contains(id) implies exists|i: int|
            0 <= i < n + 1 && counts(#[trigger] records@[i], events@, Some(id)) by {
            if before.contains(id) {
                let i = choose|i: int|
                    0 <= i < n && counts(#[trigger] records@[i], events@, Some(id));
                assert(counts(records@[i], events@, Some(id)));
            } else {
                assert(counts(records@[n as int], events@, Some(id)));
            }
        }
        n = n + 1;
    }
    ids
}

/// The sizes of the observed frames of a kind among the first `n` records.
pub open spec fn sizes_of(
    records: Seq<LogRecord>,
    events: EventsView,
    kind: Seq<char>,
    n: nat,
) -> Seq<usize>
    decreases n,
{
    if n == 0 {
        Seq::empty()
    } else {
        let before = sizes_of(records, events, kind, (n - 1) as nat);
        let r = records[n - 1];
        if r.event@ == events.wire && r.kind@ == kind {
            before.push(r.bytes)
        } else {
            before
        }
    }
}

/// The sizes of the observed real frames and of the observed cover. Nothing can
/// be told apart where either is missing.
pub fn frame_sizes(records: &[LogRecord], events: &EventNames) -> (r: Option<
    (Vec<usize>, Vec<usize>),
>)
    ensures
        ({
            let genuine = sizes_of(records@, events@, "real"@, records@.len());
            let cover = sizes_of(records@, events@, "dummy"@, records@.len());
            match r {
                Some((a, b)) => a@ == genuine && b@ == cover && a@.len() > 0 && b@.len() > 0,
                None => genuine.len() == 0 || cover.len() == 0,
            }
        }),
{
    let real_label = String::from_str("real");
    let dummy_label = String::from_str("dummy");
    proof {
        reveal_strlit("real");
        reveal_strlit("dummy");
    }
    let mut reals: Vec<usize> = Vec::new();
    let mut dummies: Vec<usize> = Vec::new();
    let mut n: usize = 0;
    while n < records.len()
        invariant
            n <= records@.len(),
            real_label@ == "real"@,
            dummy_label@ == "dummy"@,
            "real"@.len() == 4,
            "dummy"@.len() == 5,
            reals@ == sizes_of(records@, events@, "real"@, n as nat),
            dummies@ == sizes_of(records@, events@, "dummy"@, n as nat),
        decreases records@.len() - n,
    {
        let r = &records[n];
        if r.event == events.wire {
            if r.kind == real_label {
                reals.push(r.bytes);
            } else if r.kind == dummy_label {
                dummies.push(r.bytes);
            }
        }
        n = n + 1;
    }
    if reals.len() == 0 || dummies.len() == 0 {
        return None;
    }
    Some((reals, dummies))
}

/// Time divided into bins of equal width.
#[derive(Clone, Copy, Debug, PartialEq, Eq, Structural)]
pub struct TimeGrid {
    /// Where the first bin begins.
    pub start: u128,
    /// Width of a bin.
    pub bin_ns: u128,
    /// Number of bins.
    pub bins: usize,
}

/// Whether `t` is the earliest of the counted records.
pub open spec fn is_earliest(
    records: Seq<LogRecord>,
    events: EventsView,
    conn: Option<u64>,
    t: u128,
) -> bool {
    &&& exists|i: int|
        0 <= i < records.len() && counts(#[trigger] records[i], events, conn)
            && records[i].unix_nanos == t
    &&& forall|i: int|
        0 <= i < records.len() && counts(#[trigger] records[i], events, conn) ==> t
            <= records[i].unix_nanos
}

/// Whether `t` is the latest of the counted records.
pub open spec fn is_latest(
    records: Seq<LogRecord>,
    events: EventsView,
    conn: Option<u64>,
    t: u128,
) -> bool {
    &&& exists|i: int|
        0 <= i < records.len() && counts(#[trigger] records[i], events, conn)
            && records[i].unix_nanos == t
    &&& forall|i: int|
        0 <= i < records.len() && counts(#[trigger] records[i], events, conn) ==> t
            >= records[i].unix_nanos
}

/// Whether nothing is counted.
pub open spec fn none_count(records: Seq<LogRecord>, events: EventsView, conn: Option<u64>) -> bool {
    forall|i: int| 0 <= i < records.len() ==> !counts(#[trigger] records[i], events, conn)
}

/// The earliest and the latest of the counted records.
fn extent(records: &[LogRecord], events: &EventNames, conn: Option<u64>) -> (r: Option<
    (u128, u128),
>)
    ensures
        match r {
            Some((first, last)) => is_earliest(records@, events@, conn, first) && is_latest(
                records@,
                events@,
                conn,
                last,
            ) && first <= last,
            None => none_count(records@, events@, conn),
        },
{
    let mut found: Option<(u128, u128)> = None;
    let mut n: usize = 0;
    while n < records.len()
        invariant
            n <= records@.len(),
            match found {
                Some((first, last)) => {
                    &&& first <= last
                    &&& is_earliest(records@.take(n as int), events@, conn, first)
                    &&& is_latest(records@.take(n as int), events@, conn, last)
                },
                None => none_count(records@.take(n as int), events@, conn),
            },
        decreases records@.len() - n,
    {
        let ghost before = records@.take(n as int);
        let ghost upto = records@.take(n + 1);
        assert(forall|i: int| 0 <= i < n ==> upto[i] == before[i]);
        assert(upto[n as int] == records@[n as int]);
        let t: u128 = records[n].unix_nanos;
        let ghost was = found;
        if is_counted(&records[n], events, conn) {
            found =
            match found {
                Some((first, last)) => Some(
                    (
                        if t < first {
                            t
                        } else {
                            first
                        },
                        if t > last {
                            t
                        } else {
                            last
                        },
                    ),
                ),
                None => Some((t, t)),
            };
        }
        proof {
            if let Some((first, last)) = was {
                let i = choose|i: int|
                    0 <= i < before.len() && counts(#[trigger] before[i], events@, conn)
                        && before[i].unix_nanos == first;
                let j = choose|j: int|
                    0 <= j < before.len() && counts(#[trigger] before[j], events@, conn)
                        && before[j].unix_nanos == last;
                assert(counts(upto[i], events@, conn) && upto[i].unix_nanos == first);
                assert(counts(upto[j], events@, conn) && upto[j].unix_nanos == last);
            }
        }
        n = n + 1;
    }
    assert(records@.take(n as int) =~= records@);
    found
}

impl TimeGrid {
    /// The bin of an instant.
    pub open spec fn bin_of(self, t: u128) -> int {
        (t - self.start) / (self.bin_ns as int)
    }

    /// Whether the grid spans exactly the counted records.
    pub open spec fn spans(
        self,
        records: Seq<LogRecord>,
        events: EventsView,
        conn: Option<u64>,
        bin_ns: u128,
    ) -> bool {
        &&& self.bin_ns == bin_ns
        &&& bin_ns > 0
        &&& is_earliest(records, events, conn, self.start)
        &&& exists|last: u128|
            #[trigger] is_latest(records, events, conn, last) && self.bins == self.bin_of(last) + 1
    }
}

/// Whether the bins of the counted records can be numbered.
pub open spec fn bins_fit(
    records: Seq<LogRecord>,
    events: EventsView,
    conn: Option<u64>,
    bin_ns: u128,
) -> bool {
    forall|first: u128, last: u128|
        #[trigger] is_earliest(records, events, conn, first) && #[trigger] is_latest(
            records,
            events,
            conn,
            last,
        ) && bin_ns > 0 ==> (last - first) / (bin_ns as int) < usize::MAX
}

/// Whether the bins of the counted records can be numbered.
pub fn can_number_bins(
    records: &[LogRecord],
    events: &EventNames,
    conn: Option<u64>,
    bin_ns: u128,
) -> (b: bool)
    ensures
        b == bins_fit(records@, events@, conn, bin_ns),
{
    if bin_ns == 0 {
        return true;
    }
    match extent(records, events, conn) {
        None => true,
        Some((first, last)) => {
            proof {
                assert forall|f: u128, l: u128|
                    #[trigger] is_earliest(records@, events@, conn, f) && #[trigger] is_latest(
                        records@,
                        events@,
                        conn,
                        l,
                    ) implies f == first && l == last by {}
            }
            (last - first) / bin_ns < usize::MAX as u128
        },
    }
}

/// The grid that spans the counted records, if there are any and bins have a
/// width.
pub fn time_grid(
    records: &[LogRecord],
    events: &EventNames,
    conn: Option<u64>,
    bin_ns: u128,
) -> (r: Option<TimeGrid>)
    requires
        bins_fit(records@, events@, conn, bin_ns),
    ensures
        match r {
            Some(grid) => grid.spans(records@, events@, conn, bin_ns),
            None => bin_ns == 0 || none_count(records@, events@, conn),
        },
{
    if bin_ns == 0 {
        return None;
    }
    let (first, last) = match extent(records, events, conn) {
        Some(pair) => pair,
        None => {
            return None;
        },
    };
    let bins: usize = ((last - first) / bin_ns) as usize + 1;
    let grid = TimeGrid { start: first, bin_ns, bins };
    assert(is_latest(records@, events@, conn, last) && grid.bins == grid.bin_of(last) + 1);
    Some(grid)
}

/// Bytes of one stream that fall into bin `bin`, among the first `n` records.
pub open spec fn bytes_in_bin(
    records: Seq<LogRecord>,
    events: EventsView,
    which: Side,
    conn: Option<u64>,
    grid: TimeGrid,
    bin: int,
    n: nat,
) -> nat
    decreases n,
{
    if n == 0 {
        0
    } else {
        let before = bytes_in_bin(records, events, which, conn, grid, bin, (n - 1) as nat);
        let r = records[n - 1];
        if counts(r, events, conn) && side_of(r, events) == which && grid.bin_of(r.unix_nanos)
            == bin {
            before + r.bytes as nat
        } else {
            before
        }
    }
}

/// Whether `series` holds the bytes of one stream, bin by bin.
pub open spec fn is_series(
    series: Seq<u128>,
    records: Seq<LogRecord>,
    events: EventsView,
    which: Side,
    conn: Option<u64>,
    grid: TimeGrid,
) -> bool {
    &&& series.len() == grid.bins
    &&& forall|bin: int|
        0 <= bin < grid.bins ==> #[trigger] series[bin] == bytes_in_bin(
            records,
            events,
            which,
            conn,
            grid,
            bin,
            records.len(),
        )
}

proof fn lemma_bin_in_grid(grid: TimeGrid, t: u128, last: u128)
    requires
        grid.bin_ns > 0,
        grid.start <= t <= last,
        grid.bins == grid.bin_of(last) + 1,
    ensures
        0 <= grid.bin_of(t) < grid.bins,
{
    let b = grid.bin_ns as int;
    let x = t - grid.start;
    let y = last - grid.start;
    assert(0 <= x / b <= y / b) by (nonlinear_arith)
        requires
            b > 0,
            0 <= x <= y,
    ;
}

/// The bytes of one stream, bin by bin, on a grid that spans them.
#[verifier::rlimit(40)]
fn byte_series(
    records: &[LogRecord],
    events: &EventNames,
    which: Side,
    conn: Option<u64>,
    grid: TimeGrid,
    Ghost(span): Ghost<Option<u64>>,
) -> (series: Vec<u128>)
    requires
        grid.spans(records@, events@, span, grid.bin_ns),
        span is None || span == conn,
    ensures
        is_series(series@, records@, events@, which, conn, grid),
{
    let ghost last = choose|last: u128|
        #[trigger] is_latest(records@, events@, span, last) && grid.bins == grid.bin_of(last) + 1;
    let total: usize = records.len();
    let mut series: Vec<u128> = vec![0u128; grid.bins];
    let mut n: usize = 0;
    while n < total
        invariant
            n <= total,
            total == records@.len(),
            grid.spans(records@, events@, span, grid.bin_ns),
            span is None || span == conn,
            is_latest(records@, events@, span, last),
            grid.bins == grid.bin_of(last) + 1,
            series@.len() == grid.bins,
            forall|bin: int|
                0 <= bin < grid.bins ==> #[trigger] series@[bin] == bytes_in_bin(
                    records@,
                    events@,
                    which,
                    conn,
                    grid,
                    bin,
                    n as nat,
                ) && series@[bin] <= n * usize::MAX,
        decreases total - n,
    {
        let r = &records[n];
        let ghost before = series@;
        assert((n + 1) * usize::MAX == n * usize::MAX + usize::MAX) by (nonlinear_arith);
        if is_counted(r, events, conn) && side(r, events) == which {
            assert(counts(records@[n as int], events@, span));
            proof {
                lemma_bin_in_grid(grid, r.unix_nanos, last);
            }
            let at: usize = ((r.unix_nanos - grid.start) / grid.bin_ns) as usize;
            let was: u128 = series[at];
            assert(n * usize::MAX + usize::MAX <= u128::MAX) by (nonlinear_arith)
                requires
                    n < usize::MAX,
                    usize::MAX <= 0xffff_ffff_ffff_ffff,
            ;
            series.set(at, was + r.bytes as u128);
            assert forall|bin: int| 0 <= bin < grid.bins implies #[trigger] series@[bin]
                == bytes_in_bin(records@, events@, which, conn, grid, bin, (n + 1) as nat)
                && series@[bin] <= (n + 1) * usize::MAX by {
                assert(before[bin] == bytes_in_bin(
                    records@,
                    events@,
                    which,
                    conn,
                    grid,
                    bin,
                    n as nat,
                ));
            }
        } else {
            assert forall|bin: int| 0 <= bin < grid.bins implies #[trigger] series@[bin]
                == bytes_in_bin(records@, events@, which, conn, grid, bin, (n + 1) as nat)
                && series@[bin] <= (n + 1) * usize::MAX by {
                assert(before[bin] == bytes_in_bin(
                    records@,
                    events@,
                    which,
                    conn,
                    grid,
                    bin,
                    n as nat,
                ));
            }
        }
        n = n + 1;
    }
    series
}

/// The observed and the real bytes of a connection, or of all connections, bin
/// by bin on one grid.
pub fn aligned_series(
    records: &[LogRecord],
    events: &EventNames,
    bin_ns: u128,
    conn: Option<u64>,
) -> (r: Option<(Vec<u128>, Vec<u128>)>)
    requires
        bins_fit(records@, events@, conn, bin_ns),
    ensures
        match r {
            Some((observed, genuine)) => exists|grid: TimeGrid|
                #[trigger] grid.spans(records@, events@, conn, bin_ns) && is_series(
                    observed@,
                    records@,
                    events@,
                    Side::Wire,
                    conn,
                    grid,
                ) && is_series(genuine@, records@, events@, Side::Real, conn, grid),
            None => bin_ns == 0 || none_count(records@, events@, conn),
        },
{
    let grid = match time_grid(records, events, conn, bin_ns) {
        Some(grid) => grid,
        None => {
            return None;
        },
    };
    let observed = byte_series(records, events, Side::Wire, conn, grid, Ghost(conn));
    let genuine = byte_series(records, events, Side::Real, conn, grid, Ghost(conn));
    Some((observed, genuine))
}

/// The observed and the real bytes of each connection, bin by bin on one grid
/// for all of them. There is nothing to link with fewer than two connections.
pub fn flow_series(
    records: &[LogRecord],
    events: &EventNames,
    bin_ns: u128,
    conn_ids: &[u64],
) -> (r: Option<Vec<(Vec<u128>, Vec<u128>)>>)
    requires
        bins_fit(records@, events@, None, bin_ns),
    ensures
        match r {
            Some(flows) => conn_ids@.len() >= MIN_FLOWS_FOR_LINKING && flows@.len()
                == conn_ids@.len() && exists|grid: TimeGrid|
                #[trigger] grid.spans(records@, events@, None, bin_ns) && forall|i: int|
                    0 <= i < conn_ids@.len() ==> is_series(
                        (#[trigger] flows@[i]).0@,
                        records@,
                        events@,
                        Side::Wire,
                        Some(conn_ids@[i]),
                        grid,
                    ) && is_series(
                        flows@[i].1@,
                        records@,
                        events@,
                        Side::Real,
                        Some(conn_ids@[i]),
                        grid,
                    ),
            None => conn_ids@.len() < MIN_FLOWS_FOR_LINKING || bin_ns == 0 || none_count(
                records@,
                events@,
                None,
            ),
        },
{
    if conn_ids.len() < MIN_FLOWS_FOR_LINKING {
        return None;
    }
    let grid = match time_grid(records, events, None, bin_ns) {
        Some(grid) => grid,
        None => {
            return None;
        },
    };
    let mut flows: Vec<(Vec<u128>, Vec<u128>)> = Vec::new();
    let mut n: usize = 0;
    while n < conn_ids.len()
        invariant
            n <= conn_ids@.len(),
            grid.spans(records@, events@, None, bin_ns),
            flows@.len() == n,
            forall|i: int|
                0 <= i < n ==> is_series(
                    (#[trigger] flows@[i]).0@,
                    records@,
                    events@,
                    Side::Wire,
                    Some(conn_ids@[i]),
                    grid,
                ) && is_series(
                    flows@[i].1@,
                    records@,
                    events@,
                    Side::Real,
                    Some(conn_ids@[i]),
                    grid,
                ),
        decreases conn_ids@.len() - n,
    {
        let conn: Option<u64> = Some(conn_ids[n]);
        let observed = byte_series(records, events, Side::Wire, conn, grid, Ghost(None));
        let genuine = byte_series(records, events, Side::Real, conn, grid, Ghost(None));
        flows.push((observed, genuine));
        n = n + 1;
    }
    Some(flows)
}

/// Bytes of one stream of a connection, among the first `n` records.
pub open spec fn bytes_of(
    records: Seq<LogRecord>,
    events: EventsView,
    which: Side,
    conn: u64,
    n: nat,
) -> nat
    decreases n,
{
    if n == 0 {
        0
    } else {
        let before = bytes_of(records, events, which, conn, (n - 1) as nat);
        let r = records[n - 1];
        if r.conn_id == conn && side_of(r, events) == which {
            before + r.bytes as nat
        } else {
            before
        }
    }
}

/// The bytes of one stream of a connection.
fn stream_bytes(records: &[LogRecord], events: &EventNames, which: Side, conn: u64) -> (total: u128)
    ensures
        total == bytes_of(records@, events@, which, conn, records@.len()),
{
    let count: usize = records.len();
    let mut total: u128 = 0;
    let mut n: usize = 0;
    while n < count
        invariant
            n <= count,
            count == records@.len(),
            total == bytes_of(records@, events@, which, conn, n as nat),
            total <= n * usize::MAX,
        decreases count - n,
    {
        assert((n + 1) * usize::MAX == n * usize::MAX + usize::MAX) by (nonlinear_arith);
        assert(n * usize::MAX + usize::MAX <= u128::MAX) by (nonlinear_arith)
            requires
                n < usize::MAX,
                usize::MAX <= 0xffff_ffff_ffff_ffff,
        ;
        let r = &records[n];
        if r.conn_id == conn && side(r, events) == which {
            total = total + r.bytes as u128;
        }
        n = n + 1;
    }
    total
}

/// The totals of the connections that carried real traffic, among the first `n`
/// of `conn_ids`.
pub open spec fn totals_of(
    records: Seq<LogRecord>,
    events: EventsView,
    conn_ids: Seq<u64>,
    n: nat,
) -> Seq<(u64, u128, u128)>
    decreases n,
{
    if n == 0 {
        Seq::empty()
    } else {
        let before = totals_of(records, events, conn_ids, (n - 1) as nat);
        let id = conn_ids[n - 1];
        let observed = bytes_of(records, events, Side::Wire, id, records.len());
        let genuine = bytes_of(records, events, Side::Real, id, records.len());
        if genuine > 0 {
            before.push((id, observed as u128, genuine as u128))
        } else {
            before
        }
    }
}

/// The totals of the connections that carried real traffic, if there are enough
/// of them to compare.
pub fn flow_totals(records: &[LogRecord], events: &EventNames, conn_ids: &[u64]) -> (r: Option<
    Vec<(u64, u128, u128)>,
>)
    ensures
        ({
            let totals = totals_of(records@, events@, conn_ids@, conn_ids@.len());
            if conn_ids@.len() >= MIN_FLOWS_FOR_TOTALS && totals.len() >= MIN_FLOWS_FOR_TOTALS {
                r is Some && r->Some_0@ == totals
            } else {
                r is None
            }
        }),
{
    if conn_ids.len() < MIN_FLOWS_FOR_TOTALS {
        return None;
    }
    let mut totals: Vec<(u64, u128, u128)> = Vec::new();
    let mut n: usize = 0;
    while n < conn_ids.len()
        invariant
            n <= conn_ids@.len(),
            totals@ == totals_of(records@, events@, conn_ids@, n as nat),
        decreases conn_ids@.len() - n,
    {
        let id: u64 = conn_ids[n];
        let observed: u128 = stream_bytes(records, events, Side::Wire, id);
        let genuine: u128 = stream_bytes(records, events, Side::Real, id);
        if genuine > 0 {
            totals.push((id, observed, genuine));
        }
        n = n + 1;
    }
    if totals.len() < MIN_FLOWS_FOR_TOTALS {
        return None;
    }
    Some(totals)
}

/// The instants of one stream of a connection, among the first `n` records.
pub open spec fn times_of(
    records: Seq<LogRecord>,
    events: EventsView,
    which: Side,
    conn: u64,
    n: nat,
) -> Seq<u128>
    decreases n,
{
    if n == 0 {
        Seq::empty()
    } else {
        let before = times_of(records, events, which, conn, (n - 1) as nat);
        let r = records[n - 1];
        if r.conn_id == conn && side_of(r, events) == which {
            before.push(r.unix_nanos)
        } else {
            before
        }
    }
}

/// The largest of a sequence of instants, zero if there is none.
pub open spec fn latest(times: Seq<u128>) -> u128
    decreases times.len(),
{
    if times.len() == 0 {
        0
    } else {
        let before = latest(times.drop_last());
        if times.last() > before {
            times.last()
        } else {
            before
        }
    }
}

/// The smallest of a sequence of instants, the largest there is if there is
/// none.
pub open spec fn earliest(times: Seq<u128>) -> u128
    decreases times.len(),
{
    if times.len() == 0 {
        u128::MAX
    } else {
        let before = earliest(times.drop_last());
        if times.last() < before {
            times.last()
        } else {
            before
        }
    }
}

/// Nanoseconds from the first to the last instant; two instants are needed.
pub open spec fn span_of(times: Seq<u128>) -> Option<u128> {
    if times.len() < 2 {
        None
    } else {
        Some((latest(times) - earliest(times)) as u128)
    }
}

/// How long one stream of a connection was active.
fn stream_span(records: &[LogRecord], events: &EventNames, which: Side, conn: u64) -> (span: Option<
    u128,
>)
    ensures
        span == span_of(times_of(records@, events@, which, conn, records@.len())),
{
    let mut first: u128 = u128::MAX;
    let mut last: u128 = 0;
    let mut found: usize = 0;
    let total: usize = records.len();
    let mut n: usize = 0;
    while n < total
        invariant
            n <= total,
            total == records@.len(),
            found <= n,
            ({
                let times = times_of(records@, events@, which, conn, n as nat);
                &&& found == times.len()
                &&& first == earliest(times)
                &&& last == latest(times)
                &&& found > 0 ==> first <= last
            }),
        decreases total - n,
    {
        let ghost before = times_of(records@, events@, which, conn, n as nat);
        let r = &records[n];
        if r.conn_id == conn && side(r, events) == which {
            assert(before.push(r.unix_nanos).drop_last() =~= before);
            if r.unix_nanos < first {
                first = r.unix_nanos;
            }
            if r.unix_nanos > last {
                last = r.unix_nanos;
            }
            found = found + 1;
        }
        n = n + 1;
    }
    if found < 2 {
        None
    } else {
        Some(last - first)
    }
}

/// The spans of the connections among the first `n` of `conn_ids` of which both
/// streams have one: the number, the observed span and the real span.
pub open spec fn spans_of(
    records: Seq<LogRecord>,
    events: EventsView,
    conn_ids: Seq<u64>,
    n: nat,
) -> Seq<(u64, u128, u128)>
    decreases n,
{
    if n == 0 {
        Seq::empty()
    } else {
        let before = spans_of(records, events, conn_ids, (n - 1) as nat);
        let id = conn_ids[n - 1];
        let observed = span_of(times_of(records, events, Side::Wire, id, records.len()));
        let genuine = span_of(times_of(records, events, Side::Real, id, records.len()));
        if observed is Some && genuine is Some {
            before.push((id, observed->Some_0, genuine->Some_0))
        } else {
            before
        }
    }
}

/// How long each connection was active, observed and real.
pub fn flow_spans(records: &[LogRecord], events: &EventNames, conn_ids: &[u64]) -> (spans: Vec<
    (u64, u128, u128),
>)
    ensures
        spans@ == spans_of(records@, events@, conn_ids@, conn_ids@.len()),
{
    let mut spans: Vec<(u64, u128, u128)> = Vec::new();
    let mut n: usize = 0;
    while n < conn_ids.len()
        invariant
            n <= conn_ids@.len(),
            spans@ == spans_of(records@, events@, conn_ids@, n as nat),
        decreases conn_ids@.len() - n,
    {
        let id: u64 = conn_ids[n];
        let observed = stream_span(records, events, Side::Wire, id);
        let genuine = stream_span(records, events, Side::Real, id);
        if let Some(a) = observed {
            if let Some(b) = genuine {
                spans.push((id, a, b));
            }
        }
        n = n + 1;
    }
    spans
}

/// Whether `at` is the position of the first of the largest scores.
pub open spec fn is_first_largest(scores: Seq<u64>, at: int) -> bool {
    &&& 0 <= at < scores.len()
    &&& forall|j: int| 0 <= j < scores.len() ==> scores[j] <= scores[at]
    &&& forall|j: int| 0 <= j < at ==> scores[j] < scores[at]
}

/// The position of the first of the largest scores.
fn first_largest(scores: &Vec<u64>) -> (at: usize)
    requires
        scores@.len() > 0,
    ensures
        is_first_largest(scores@, at as int),
{
    let mut at: usize = 0;
    let mut n: usize = 1;
    while n < scores.len()
        invariant
            0 <= at < n <= scores@.len(),
            forall|j: int| 0 <= j < n ==> scores@[j] <= scores@[at as int],
            forall|j: int| 0 <= j < at ==> scores@[j] < scores@[at as int],
        decreases scores@.len() - n,
    {
        if scores[n] > scores[at] {
            at = n;
        }
        n = n + 1;
    }
    at
}

/// What an attempt to link flows came to. Each guess names the observed flow,
/// the real flow it is taken for, and whether they are the same.
#[derive(Debug)]
pub struct Linking {
    pub guesses: Vec<(u64, u64, bool)>,
    pub correct: usize,
    pub beats_chance: bool,
}

/// Right guesses among the first `n`.
pub open spec fn right_guesses(guesses: Seq<(u64, u64, bool)>, n: nat) -> nat
    decreases n,
{
    if n == 0 {
        0
    } else {
        right_guesses(guesses, (n - 1) as nat) + if guesses[n - 1].2 {
            1nat
        } else {
            0nat
        }
    }
}

/// Whether so many right guesses among so many flows mean something: more than
/// the one that chance gives, by more than a billionth of the flows, and more
/// than half.
pub open spec fn beats_chance_spec(correct: nat, flows: nat) -> bool {
    (correct - 1) * 1_000_000_000 > flows && 2 * correct > flows
}

/// Whether a guess takes observed flow `i` for the real flow that it resembles
/// most, the first of those where several do, and tells whether that is right.
pub open spec fn is_best_guess(
    guess: (u64, u64, bool),
    conn_ids: Seq<u64>,
    scores: Seq<u64>,
    i: int,
) -> bool {
    &&& guess.0 == conn_ids[i]
    &&& exists|at: int| #[trigger] is_first_largest(scores, at) && guess.1 == conn_ids[at]
    &&& guess.2 == (guess.0 == guess.1)
}

/// Links each observed flow to the real flow it resembles most, the first of
/// those where several do. Row `i` of `scores` says how much observed flow `i`
/// resembles each real flow.
pub fn link_flows(conn_ids: &[u64], scores: &Vec<Vec<u64>>) -> (r: Linking)
    requires
        scores@.len() == conn_ids@.len(),
        forall|i: int|
            0 <= i < scores@.len() ==> (#[trigger] scores@[i])@.len() == conn_ids@.len(),
    ensures
        r.guesses@.len() == conn_ids@.len(),
        forall|i: int|
            0 <= i < conn_ids@.len() ==> is_best_guess(
                #[trigger] r.guesses@[i],
                conn_ids@,
                scores@[i]@,
                i,
            ),
        r.correct == right_guesses(r.guesses@, r.guesses@.len()),
        r.beats_chance == beats_chance_spec(r.correct as nat, conn_ids@.len()),
{
    let flows: usize = conn_ids.len();
    let mut guesses: Vec<(u64, u64, bool)> = Vec::new();
    let mut correct: usize = 0;
    let mut n: usize = 0;
    while n < flows
        invariant
            n <= flows,
            flows == conn_ids@.len(),
            scores@.len() == flows,
            forall|i: int| 0 <= i < scores@.len() ==> (#[trigger] scores@[i])@.len() == flows,
            guesses@.len() == n,
            correct <= n,
            correct == right_guesses(guesses@, n as nat),
            forall|i: int|
                0 <= i < n ==> is_best_guess(#[trigger] guesses@[i], conn_ids@, scores@[i]@, i),
        decreases flows - n,
    {
        let at: usize = first_largest(&scores[n]);
        let ghost before = guesses@;
        let id: u64 = conn_ids[n];
        let guess: u64 = conn_ids[at];
        let right = id == guess;
        if right {
            correct = correct + 1;
        }
        guesses.push((id, guess, right));
        proof {
            lemma_right_guesses_prefix(before, guesses@, n as nat);
            assert(is_first_largest(scores@[n as int]@, at as int));
            assert(guesses@[n as int] == (id, guess, right));
            assert(is_best_guess(guesses@[n as int], conn_ids@, scores@[n as int]@, n as int));
            assert forall|i: int| 0 <= i < n + 1 implies is_best_guess(
                #[trigger] guesses@[i],
                conn_ids@,
                scores@[i]@,
                i,
            ) by {
                if i < n {
                    assert(guesses@[i] == before[i]);
                }
            }
            assert(right_guesses(guesses@, (n + 1) as nat) == correct);
        }
        n = n + 1;
    }
    let enough = correct >= 1 && (correct as u128 - 1) * 1_000_000_000 > flows as u128;
    Linking { guesses, correct, beats_chance: enough && 2 * (correct as u128) > flows as u128 }
}

proof fn lemma_right_guesses_prefix(
    a: Seq<(u64, u64, bool)>,
    b: Seq<(u64, u64, bool)>,
    n: nat,
)
    requires
        n <= a.len(),
        n <= b.len(),
        forall|i: int| 0 <= i < n ==> a[i] == b[i],
    ensures
        right_guesses(a, n) == right_guesses(b, n),
    decreases n,
{
    if n > 0 {
        lemma_right_guesses_prefix(a, b, (n - 1) as nat);
    }
}

/// Flows that are told apart without exception are linked: where every observed
/// flow resembles its own real flow more than any other, every guess is right.
pub proof fn law_distinct_flows_are_linked(
    conn_ids: Seq<u64>,
    scores: Seq<Seq<u64>>,
    i: int,
    at: int,
)
    requires
        0 <= i < conn_ids.len(),
        scores.len() == conn_ids.len(),
        scores[i].len() == conn_ids.len(),
        forall|j: int| 0 <= j < conn_ids.len() && j != i ==> scores[i][j] < scores[i][i],
        is_first_largest(scores[i], at),
    ensures
        conn_ids[at] == conn_ids[i],
{
    if at != i {
        assert(scores[i][at] < scores[i][i]);
    }
}

/// Elements of `xs` smaller than `x`.
pub open spec fn count_below(xs: Seq<u128>, x: u128, n: nat) -> nat
    decreases n,
{
    if n == 0 {
        0
    } else {
        count_below(xs, x, (n - 1) as nat) + if xs[n - 1] < x {
            1nat
        } else {
            0nat
        }
    }
}

/// Elements of `xs` equal to `x`.
pub open spec fn count_equal(xs: Seq<u128>, x: u128, n: nat) -> nat
    decreases n,
{
    if n == 0 {
        0
    } else {
        count_equal(xs, x, (n - 1) as nat) + if xs[n - 1] == x {
            1nat
        } else {
            0nat
        }
    }
}

/// Twice the rank of each element, where equal elements share the mean of their
/// ranks.
pub fn doubled_ranks(xs: &[u128]) -> (ranks: Vec<u128>)
    ensures
        ranks@.len() == xs@.len(),
        forall|i: int|
            0 <= i < xs@.len() ==> #[trigger] ranks@[i] == 2 * count_below(
                xs@,
                xs@[i],
                xs@.len(),
            ) + count_equal(xs@, xs@[i], xs@.len()) - 1,
{
    let total: usize = xs.len();
    let mut ranks: Vec<u128> = Vec::new();
    let mut i: usize = 0;
    while i < total
        invariant
            i <= total,
            total == xs@.len(),
            ranks@.len() == i,
            forall|j: int|
                0 <= j < i ==> #[trigger] ranks@[j] == 2 * count_below(
                    xs@,
                    xs@[j],
                    xs@.len(),
                ) + count_equal(xs@, xs@[j], xs@.len()) - 1,
        decreases total - i,
    {
        let x: u128 = xs[i];
        let mut below: u128 = 0;
        let mut same: u128 = 0;
        let mut n: usize = 0;
        while n < total
            invariant
                n <= total,
                i < total,
                total == xs@.len(),
                x == xs@[i as int],
                below == count_below(xs@, x, n as nat),
                same == count_equal(xs@, x, n as nat),
                below + same <= n,
                n > i ==> same >= 1,
            decreases total - n,
        {
            if xs[n] < x {
                below = below + 1;
            } else if xs[n] == x {
                same = same + 1;
            }
            n = n + 1;
        }
        ranks.push(2 * below + same - 1);
        i = i + 1;
    }
    ranks
}

/// The position of the first of the largest scores, among those that are there.
pub fn worst_of(scores: &[Option<u64>]) -> (r: Option<usize>)
    ensures
        match r {
            Some(at) => {
                &&& at < scores@.len()
                &&& scores@[at as int] is Some
                &&& forall|j: int|
                    0 <= j < scores@.len() && (#[trigger] scores@[j]) is Some ==> scores@[j]->Some_0
                        <= scores@[at as int]->Some_0
                &&& forall|j: int|
                    0 <= j < at && (#[trigger] scores@[j]) is Some ==> scores@[j]->Some_0
                        < scores@[at as int]->Some_0
            },
            None => forall|j: int| 0 <= j < scores@.len() ==> (#[trigger] scores@[j]) is None,
        },
{
    let mut worst: Option<usize> = None;
    let mut n: usize = 0;
    while n < scores.len()
        invariant
            n <= scores@.len(),
            match worst {
                Some(at) => {
                    &&& at < n
                    &&& scores@[at as int] is Some
                    &&& forall|j: int|
                        0 <= j < n && (#[trigger] scores@[j]) is Some ==> scores@[j]->Some_0
                            <= scores@[at as int]->Some_0
                    &&& forall|j: int|
                        0 <= j < at && (#[trigger] scores@[j]) is Some ==> scores@[j]->Some_0
                            < scores@[at as int]->Some_0
                },
                None => forall|j: int| 0 <= j < n ==> (#[trigger] scores@[j]) is None,
            },
        decreases scores@.len() - n,
    {
        if let Some(score) = scores[n] {
            let better = match worst {
                Some(at) => match scores[at] {
                    Some(best) => score > best,
                    None => true,
                },
                None => true,
            };
            if better {
                worst = Some(n);
            }
        }
        n = n + 1;
    }
    worst
}

/// Whether any attack that is scored succeeded; one that could not be made did
/// not.
pub fn adversary_won(
    size: Option<bool>,
    volume: Option<bool>,
    volume_coarse: &[bool],
    total_volume: Option<bool>,
    linking: Option<bool>,
) -> (won: bool)
    ensures
        won == (size == Some(true) || volume == Some(true) || volume_coarse@.contains(true)
            || total_volume == Some(true) || linking == Some(true)),
{
    let mut coarse = false;
    let mut n: usize = 0;
    while n < volume_coarse.len()
        invariant
            n <= volume_coarse@.len(),
            coarse == volume_coarse@.take(n as int).contains(true),
        decreases volume_coarse@.len() - n,
    {
        let ghost before = volume_coarse@.take(n as int);
        let ghost upto = volume_coarse@.take(n + 1);
        let b = volume_coarse[n];
        proof {
            assert(upto =~= before.push(b));
            if before.contains(true) {
                let k = before.index_of(true);
                assert(upto[k] == true);
            }
            if b {
                assert(upto[n as int] == true);
            }
            if upto.contains(true) {
                let k = upto.index_of(true);
                if k < n {
                    assert(before[k] == true);
                }
            }
        }
        coarse = coarse || b;
        n = n + 1;
    }
    assert(volume_coarse@.take(n as int) =~= volume_coarse@);
    holds(size) || holds(volume) || coarse || holds(total_volume) || holds(linking)
}

/// Whether something is there and holds.
fn holds(b: Option<bool>) -> (r: bool)
    ensures
        r == (b == Some(true)),
{
    match b {
        Some(v) => v,
        None => false,
    }
}

/// What is said of all attacks together.
pub open spec fn verdict_text(won: bool) -> Seq<char> {
    if won {
        "ADVERSARY GAINED AN ADVANTAGE — shaping leaked exploitable correlation."@
    } else {
        "No exploitable correlation found at this configuration."@
    }
}

/// What is said of all attacks together.
pub fn overall_verdict(won: bool) -> (s: String)
    ensures
        s@ == verdict_text(won),
{
    if won {
        String::from_str("ADVERSARY GAINED AN ADVANTAGE — shaping leaked exploitable correlation.")
    } else {
        String::from_str("No exploitable correlation found at this configuration.")
    }
}

/// The earliest instant among the first `n` records.
pub open spec fn first_instant(records: Seq<LogRecord>, n: nat) -> u128
    decreases n,
{
    if n == 0 {
        u128::MAX
    } else {
        let before = first_instant(records, (n - 1) as nat);
        if records[n - 1].unix_nanos < before {
            records[n - 1].unix_nanos
        } else {
            before
        }
    }
}

/// The records among the first `n` from `cutoff` on.
pub open spec fn records_from(records: Seq<LogRecord>, cutoff: int, n: nat) -> Seq<LogRecord>
    decreases n,
{
    if n == 0 {
        Seq::empty()
    } else {
        let before = records_from(records, cutoff, (n - 1) as nat);
        if records[n - 1].unix_nanos >= cutoff {
            before.push(records[n - 1])
        } else {
            before
        }
    }
}

/// The records without those of the first `skip_ns` nanoseconds, counted from
/// the earliest.
pub fn skip_first(records: Vec<LogRecord>, skip_ns: u128) -> (kept: Vec<LogRecord>)
    requires
        records@.len() > 0 ==> first_instant(records@, records@.len()) + skip_ns <= u128::MAX,
    ensures
        kept@ == records_from(
            records@,
            first_instant(records@, records@.len()) + skip_ns,
            records@.len(),
        ),
{
    let ghost all = records@;
    let mut first: u128 = u128::MAX;
    let mut n: usize = 0;
    while n < records.len()
        invariant
            n <= records@.len(),
            records@ == all,
            first == first_instant(all, n as nat),
        decreases records@.len() - n,
    {
        if records[n].unix_nanos < first {
            first = records[n].unix_nanos;
        }
        n = n + 1;
    }
    let mut kept: Vec<LogRecord> = Vec::new();
    if records.len() == 0 {
        return kept;
    }
    let cutoff: u128 = first + skip_ns;
    for record in it: records
        invariant
            it.seq() == all,
            kept@ == records_from(all, cutoff as int, it.index() as nat),
    {
        if record.unix_nanos >= cutoff {
            kept.push(record);
        }
    }
    kept
}

/// A direction of traffic to look at, with its label.
pub struct Direction {
    pub label: String,
    pub events: EventNames,
}

/// What a direction holds.
pub struct DirectionView {
    pub label: Seq<char>,
    pub events: EventsView,
}

impl View for Direction {
    type V = DirectionView;

    open spec fn view(&self) -> DirectionView {
        DirectionView { label: self.label@, events: self.events@ }
    }
}

/// What directions hold.
pub open spec fn direction_views(d: Seq<Direction>) -> Seq<DirectionView> {
    d.map_values(|x: Direction| x@)
}

/// The direction to the server in this side's log.
pub open spec fn uplink(server: bool) -> DirectionView {
    DirectionView {
        label: "uplink (client→server)"@,
        events: if server {
            EventsView { wire: "server_wire_input"@, real: "server_real_output"@ }
        } else {
            EventsView { wire: "client_wire_output"@, real: "client_input"@ }
        },
    }
}

/// The direction to the client in this side's log.
pub open spec fn downlink(server: bool) -> DirectionView {
    DirectionView {
        label: "downlink (server→client)"@,
        events: if server {
            EventsView { wire: "server_wire_return"@, real: "server_bridge_reply"@ }
        } else {
            EventsView { wire: "client_wire_return"@, real: "client_inbound_real"@ }
        },
    }
}

/// The directions that a side and a direction name, or a complaint about the
/// first of the two that is not known.
pub fn resolve_directions(side_name: &str, direction: &str) -> (r: Result<Vec<Direction>, String>)
    ensures
        ({
            let server = side_name@ == "server"@;
            if !server && side_name@ != "client"@ {
                r is Err && r->Err_0@ == "--side must be server or client, got "@ + side_name@
            } else if direction@ == "up"@ {
                r is Ok && direction_views(r->Ok_0@) == seq![uplink(server)]
            } else if direction@ == "down"@ {
                r is Ok && direction_views(r->Ok_0@) == seq![downlink(server)]
            } else if direction@ == "both"@ {
                r is Ok && direction_views(r->Ok_0@) == seq![uplink(server), downlink(server)]
            } else {
                r is Err && r->Err_0@ == "--direction must be up, down or both, got "@ + direction@
            }
        }),
{
    let wanted = String::from_str(side_name);
    let is_server = wanted == String::from_str("server");
    if !is_server && wanted != String::from_str("client") {
        let mut s = String::from_str("--side must be server or client, got ");
        s.append(side_name);
        return Err(s);
    }
    let up = Direction {
        label: String::from_str("uplink (client→server)"),
        events: if is_server {
            EventNames::server()
        } else {
            EventNames::client()
        },
    };
    let down = Direction {
        label: String::from_str("downlink (server→client)"),
        events: if is_server {
            EventNames::server_return()
        } else {
            EventNames::client_return()
        },
    };
    let which = String::from_str(direction);
    let mut found: Vec<Direction> = Vec::new();
    if which == String::from_str("up") {
        found.push(up);
        assert(direction_views(found@) =~= seq![uplink(is_server)]);
        return Ok(found);
    }
    if which == String::from_str("down") {
        found.push(down);
        assert(direction_views(found@) =~= seq![downlink(is_server)]);
        return Ok(found);
    }
    if which == String::from_str("both") {
        found.push(up);
        found.push(down);
        assert(direction_views(found@) =~= seq![uplink(is_server), downlink(is_server)]);
        return Ok(found);
    }
    let mut s = String::from_str("--direction must be up, down or both, got ");
    s.append(direction);
    Err(s)
}

/// When guesses mean something: two at least are right, and more than half of
/// them are. So where half or fewer are right, or only one is, they mean nothing.
pub proof fn law_most_right_guesses_beat_chance(correct: nat, flows: nat)
    requires
        correct <= flows,
    ensures
        beats_chance_spec(correct, flows) <==> correct >= 2 && correct + correct > flows,
{
    if correct >= 2 && correct + correct > flows {
        assert((correct - 1) * 1_000_000_000 > flows) by (nonlinear_arith)
            requires
                correct >= 2,
                correct + correct > flows,
        ;
    }
}

/// More right guesses among equally many flows never turn a success into a
/// failure, and neither do fewer flows with equally many right guesses.
pub proof fn law_more_right_guesses_never_hurt(correct: nat, more: nat, flows: nat, fewer: nat)
    requires
        correct <= more <= flows,
        correct <= fewer <= flows,
    ensures
        beats_chance_spec(correct, flows) ==> beats_chance_spec(more, flows),
        beats_chance_spec(correct, flows) ==> beats_chance_spec(correct, fewer),
{
    law_most_right_guesses_beat_chance(correct, flows);
    law_most_right_guesses_beat_chance(more, flows);
    law_most_right_guesses_beat_chance(correct, fewer);
}

/// The verdict depends on the share of right guesses, and not on how many flows
/// there are: where two at least are right in both, equal shares give equal
/// verdicts.
pub proof fn law_equal_accuracy_gives_equal_verdicts(
    correct_a: nat,
    flows_a: nat,
    correct_b: nat,
    flows_b: nat,
)
    requires
        2 <= correct_a <= flows_a,
        2 <= correct_b <= flows_b,
        correct_a * flows_b == correct_b * flows_a,
    ensures
        beats_chance_spec(correct_a, flows_a) == beats_chance_spec(correct_b, flows_b),
{
    law_most_right_guesses_beat_chance(correct_a, flows_a);
    law_most_right_guesses_beat_chance(correct_b, flows_b);
    if correct_a + correct_a > flows_a {
        assert(correct_b + correct_b > flows_b) by (nonlinear_arith)
            requires
                correct_a + correct_a > flows_a,
                correct_a * flows_b == correct_b * flows_a,
                2 <= correct_b <= flows_b,
                flows_a >= 2,
        ;
    }
    if correct_b + correct_b > flows_b {
        assert(correct_a + correct_a > flows_a) by (nonlinear_arith)
            requires
                correct_b + correct_b > flows_b,
                correct_a * flows_b == correct_b * flows_a,
                2 <= correct_a <= flows_a,
                flows_b >= 2,
        ;
    }
}

/// A guess takes an observed flow for a real flow that no other resembles more,
/// and no earlier one as much. Among distinct flows it is right exactly where
/// that is the flow itself. There is always one such flow.
pub proof fn law_guesses_resemble_most(
    guess: (u64, u64, bool),
    conn_ids: Seq<u64>,
    scores: Seq<u64>,
    i: int,
    own: int,
)
    requires
        is_best_guess(guess, conn_ids, scores, i),
        scores.len() == conn_ids.len(),
        0 <= i < conn_ids.len(),
        strictly_ascending(conn_ids),
        0 <= own < conn_ids.len(),
        guess.1 == conn_ids[own],
    ensures
        guess.0 == conn_ids[i],
        forall|j: int| 0 <= j < scores.len() ==> scores[j] <= scores[own],
        forall|j: int| 0 <= j < own ==> scores[j] < scores[own],
        guess.2 <==> own == i,
{
    let at = choose|at: int| #[trigger] is_first_largest(scores, at) && guess.1 == conn_ids[at];
    if at < own {
        assert(conn_ids[at] < conn_ids[own]);
    } else if own < at {
        assert(conn_ids[own] < conn_ids[at]);
    }
    if own < i {
        assert(conn_ids[own] < conn_ids[i]);
    } else if i < own {
        assert(conn_ids[i] < conn_ids[own]);
    }
}

/// The right guesses are counted one by one.
pub proof fn law_right_guesses_are_counted(guesses: Seq<(u64, u64, bool)>, n: nat)
    requires
        n <= guesses.len(),
    ensures
        right_guesses(guesses, n) == guesses.take(n as int).filter(|g: (u64, u64, bool)| g.2).len(),
        right_guesses(guesses, n) <= n,
    decreases n,
{
    let f = |g: (u64, u64, bool)| g.2;
    reveal(Seq::filter);
    if n > 0 {
        law_right_guesses_are_counted(guesses, (n - 1) as nat);
        assert(guesses.take(n as int).drop_last() =~= guesses.take(n - 1));
    }
}

/// Which records matter: those of the two events, and where a connection is asked
/// for only its own.
pub proof fn law_streams_are_told_by_their_events(
    r: LogRecord,
    events: EventsView,
    conn: Option<u64>,
)
    requires
        events.wire != events.real,
    ensures
        side_of(r, events) == Side::Wire <==> r.event@ == events.wire,
        side_of(r, events) == Side::Real <==> r.event@ == events.real,
        counts(r, events, conn) <==> (r.event@ == events.wire || r.event@ == events.real) && (
        conn is None || conn == Some(r.conn_id)),
{
}

/// What one record adds to what is known of a stream: its bytes to the total of
/// its connection, its instant to the instants of that, and its size to the sizes
/// of its kind where it was observed. To other streams it adds nothing.
pub proof fn law_records_add_to_their_stream(
    records: Seq<LogRecord>,
    events: EventsView,
    which: Side,
    conn: u64,
    kind: Seq<char>,
    n: nat,
)
    requires
        n < records.len(),
    ensures
        ({
            let r = records[n as int];
            let own = r.conn_id == conn && side_of(r, events) == which;
            let shown = r.event@ == events.wire && r.kind@ == kind;
            let bytes = bytes_of(records, events, which, conn, n);
            let times = times_of(records, events, which, conn, n);
            let sizes = sizes_of(records, events, kind, n);
            &&& own ==> bytes_of(records, events, which, conn, n + 1) == bytes + r.bytes
            &&& own ==> times_of(records, events, which, conn, n + 1) == times.push(r.unix_nanos)
            &&& !own ==> bytes_of(records, events, which, conn, n + 1) == bytes
            &&& !own ==> times_of(records, events, which, conn, n + 1) == times
            &&& shown ==> sizes_of(records, events, kind, n + 1) == sizes.push(r.bytes)
            &&& !shown ==> sizes_of(records, events, kind, n + 1) == sizes
            &&& bytes_of(records, events, which, conn, 0) == 0
            &&& times_of(records, events, which, conn, 0).len() == 0
            &&& sizes_of(records, events, kind, 0).len() == 0
        }),
{
}

/// The sum of a series.
pub open spec fn series_total(series: Seq<u128>) -> nat
    decreases series.len(),
{
    if series.len() == 0 {
        0
    } else {
        series_total(series.drop_last()) + series.last() as nat
    }
}

/// Bytes of one stream that fall into the first `bins` bins, among the first `n`
/// records.
spec fn bytes_in_bins(
    records: Seq<LogRecord>,
    events: EventsView,
    which: Side,
    conn: Option<u64>,
    grid: TimeGrid,
    bins: nat,
    n: nat,
) -> nat
    decreases bins,
{
    if bins == 0 {
        0
    } else {
        bytes_in_bins(records, events, which, conn, grid, (bins - 1) as nat, n) + bytes_in_bin(
            records,
            events,
            which,
            conn,
            grid,
            bins - 1,
            n,
        )
    }
}

proof fn lemma_no_bytes_at_first(
    records: Seq<LogRecord>,
    events: EventsView,
    which: Side,
    conn: Option<u64>,
    grid: TimeGrid,
    bins: nat,
)
    ensures
        bytes_in_bins(records, events, which, conn, grid, bins, 0) == 0,
    decreases bins,
{
    if bins > 0 {
        lemma_no_bytes_at_first(records, events, which, conn, grid, (bins - 1) as nat);
    }
}

proof fn lemma_bytes_fall_into_one_bin(
    records: Seq<LogRecord>,
    events: EventsView,
    which: Side,
    conn: Option<u64>,
    grid: TimeGrid,
    bins: nat,
    n: nat,
)
    requires
        n > 0,
    ensures
        ({
            let r = records[n - 1];
            let own = counts(r, events, conn) && side_of(r, events) == which && 0 <= grid.bin_of(
                r.unix_nanos,
            ) < bins;
            bytes_in_bins(records, events, which, conn, grid, bins, n) == bytes_in_bins(
                records,
                events,
                which,
                conn,
                grid,
                bins,
                (n - 1) as nat,
            ) + if own {
                r.bytes as nat
            } else {
                0
            }
        }),
    decreases bins,
{
    if bins > 0 {
        lemma_bytes_fall_into_one_bin(records, events, which, conn, grid, (bins - 1) as nat, n);
    }
}

proof fn lemma_bins_hold_the_bytes(
    records: Seq<LogRecord>,
    events: EventsView,
    which: Side,
    conn: u64,
    grid: TimeGrid,
    n: nat,
)
    requires
        which != Side::Other,
        n <= records.len(),
        grid.spans(records, events, Some(conn), grid.bin_ns),
    ensures
        bytes_in_bins(records, events, which, Some(conn), grid, grid.bins as nat, n) == bytes_of(
            records,
            events,
            which,
            conn,
            n,
        ),
    decreases n,
{
    let bins = grid.bins as nat;
    if n == 0 {
        lemma_no_bytes_at_first(records, events, which, Some(conn), grid, bins);
    } else {
        lemma_bins_hold_the_bytes(records, events, which, conn, grid, (n - 1) as nat);
        lemma_bytes_fall_into_one_bin(records, events, which, Some(conn), grid, bins, n);
        let r = records[n - 1];
        if counts(r, events, Some(conn)) {
            let last = choose|last: u128|
                #[trigger] is_latest(records, events, Some(conn), last) && grid.bins == grid.bin_of(
                    last,
                ) + 1;
            lemma_bin_in_grid(grid, r.unix_nanos, last);
        }
    }
}

proof fn lemma_series_total(
    series: Seq<u128>,
    records: Seq<LogRecord>,
    events: EventsView,
    which: Side,
    conn: Option<u64>,
    grid: TimeGrid,
    bins: nat,
)
    requires
        is_series(series, records, events, which, conn, grid),
        bins <= grid.bins,
    ensures
        series_total(series.take(bins as int)) == bytes_in_bins(
            records,
            events,
            which,
            conn,
            grid,
            bins,
            records.len(),
        ),
    decreases bins,
{
    if bins > 0 {
        lemma_series_total(series, records, events, which, conn, grid, (bins - 1) as nat);
        assert(series.take(bins as int).drop_last() =~= series.take(bins - 1));
        assert(series[bins - 1] == bytes_in_bin(
            records,
            events,
            which,
            conn,
            grid,
            bins - 1,
            records.len(),
        ));
    }
}

/// A series misses nothing: the bins of a connection, together, hold all the bytes
/// of its stream, and none twice.
pub proof fn law_series_miss_nothing(
    series: Seq<u128>,
    records: Seq<LogRecord>,
    events: EventsView,
    which: Side,
    conn: u64,
    grid: TimeGrid,
)
    requires
        which != Side::Other,
        grid.spans(records, events, Some(conn), grid.bin_ns),
        is_series(series, records, events, which, Some(conn), grid),
    ensures
        series_total(series) == bytes_of(records, events, which, conn, records.len()),
{
    lemma_bins_hold_the_bytes(records, events, which, conn, grid, records.len());
    lemma_series_total(series, records, events, which, Some(conn), grid, grid.bins as nat);
    assert(series.take(grid.bins as int) =~= series);
}

/// Bins are of equal width: a bin begins so many widths after the first as there
/// are bins before it, and an instant is in the bin that has begun last.
pub proof fn law_bins_are_of_equal_width(grid: TimeGrid, t: u128)
    requires
        grid.bin_ns > 0,
        grid.start <= t,
    ensures
        grid.start + grid.bin_of(t) * grid.bin_ns <= t < grid.start + (grid.bin_of(t) + 1)
            * grid.bin_ns,
{
    let w = grid.bin_ns as int;
    let x = t - grid.start;
    let q = x / w;
    assert(q * w <= x < (q + 1) * w) by (nonlinear_arith)
        requires
            q == x / w,
            w > 0,
    ;
}

/// How long a stream lasted: from the earliest of its instants to the latest, both
/// of which are among them. With fewer than two instants that is not known.
pub proof fn law_spans_reach_from_end_to_end(times: Seq<u128>, i: int)
    requires
        0 <= i < times.len(),
    ensures
        earliest(times) <= times[i] <= latest(times),
        times.contains(earliest(times)),
        times.contains(latest(times)),
        times.len() >= 2 <==> span_of(times) is Some,
        times.len() >= 2 ==> span_of(times)->Some_0 + earliest(times) == latest(times),
{
    lemma_extremes(times);
}

proof fn lemma_extremes(times: Seq<u128>)
    ensures
        forall|i: int| 0 <= i < times.len() ==> earliest(times) <= #[trigger] times[i],
        forall|i: int| 0 <= i < times.len() ==> #[trigger] times[i] <= latest(times),
        times.len() > 0 ==> times.contains(earliest(times)),
        times.len() > 0 ==> times.contains(latest(times)),
    decreases times.len(),
{
    if times.len() > 0 {
        let before = times.drop_last();
        lemma_extremes(before);
        let n = times.len();
        assert(times[n - 1] == times.last());
        assert forall|i: int| 0 <= i < n implies earliest(times) <= #[trigger] times[i]
            && times[i] <= latest(times) by {
            if i < n - 1 {
                assert(before[i] == times[i]);
            }
        }
        if earliest(times) != times.last() {
            if before.len() > 0 {
                let k = before.index_of(earliest(before));
                assert(times[k] == earliest(times));
            }
        }
        if latest(times) != times.last() {
            if before.len() > 0 {
                let k = before.index_of(latest(before));
                assert(times[k] == latest(times));
            }
        }
    }
}

/// Which connections are told of: a connection's totals are there where it carried
/// real traffic, and its spans where both of its streams have one. They are there in
/// the order in which the connections were given.
pub proof fn law_connections_are_told_in_order(
    records: Seq<LogRecord>,
    events: EventsView,
    conn_ids: Seq<u64>,
    n: nat,
)
    requires
        n < conn_ids.len(),
    ensures
        ({
            let id = conn_ids[n as int];
            let len = records.len();
            let observed = bytes_of(records, events, Side::Wire, id, len);
            let genuine = bytes_of(records, events, Side::Real, id, len);
            let long = span_of(times_of(records, events, Side::Wire, id, len));
            let short = span_of(times_of(records, events, Side::Real, id, len));
            let totals = totals_of(records, events, conn_ids, n);
            let spans = spans_of(records, events, conn_ids, n);
            &&& genuine > 0 ==> totals_of(records, events, conn_ids, n + 1) == totals.push(
                (id, observed as u128, genuine as u128),
            )
            &&& genuine == 0 ==> totals_of(records, events, conn_ids, n + 1) == totals
            &&& long is Some && short is Some ==> spans_of(records, events, conn_ids, n + 1)
                == spans.push((id, long->Some_0, short->Some_0))
            &&& long is None || short is None ==> spans_of(records, events, conn_ids, n + 1)
                == spans
            &&& totals_of(records, events, conn_ids, 0).len() == 0
            &&& spans_of(records, events, conn_ids, 0).len() == 0
        }),
{
}

/// Ranks keep the order: a larger element has a larger rank, equal elements share
/// one, and an element that occurs once has twice as many ranks below it as there
/// are smaller elements.
pub proof fn law_ranks_keep_the_order(xs: Seq<u128>, i: int, j: int)
    requires
        0 <= i < xs.len(),
        0 <= j < xs.len(),
    ensures
        ({
            let n = xs.len();
            let a = 2 * count_below(xs, xs[i], n) + count_equal(xs, xs[i], n) - 1;
            let b = 2 * count_below(xs, xs[j], n) + count_equal(xs, xs[j], n) - 1;
            &&& xs[i] < xs[j] <==> a < b
            &&& xs[i] == xs[j] <==> a == b
            &&& count_equal(xs, xs[i], n) >= 1
            &&& 0 <= a <= 2 * (n - 1)
        }),
{
    let n = xs.len();
    lemma_counts(xs, xs[i], xs[j], n);
    lemma_counts(xs, xs[j], xs[i], n);
    lemma_occurs(xs, i, n);
    lemma_occurs(xs, j, n);
}

proof fn lemma_counts(xs: Seq<u128>, x: u128, y: u128, n: nat)
    requires
        n <= xs.len(),
    ensures
        x < y ==> count_below(xs, x, n) + count_equal(xs, x, n) <= count_below(xs, y, n),
        count_below(xs, x, n) + count_equal(xs, x, n) <= n,
    decreases n,
{
    if n > 0 {
        lemma_counts(xs, x, y, (n - 1) as nat);
    }
}

proof fn lemma_occurs(xs: Seq<u128>, i: int, n: nat)
    requires
        n <= xs.len(),
        0 <= i < n,
    ensures
        count_equal(xs, xs[i], n) >= 1,
    decreases n,
{
    if i < n - 1 {
        lemma_occurs(xs, i, (n - 1) as nat);
    }
}

/// What skipping keeps: the records from the cutoff on, all of them, and no other.
pub proof fn law_skipping_keeps_what_came_later(records: Seq<LogRecord>, cutoff: int, i: int)
    requires
        0 <= i < records.len(),
    ensures
        ({
            let kept = records_from(records, cutoff, records.len());
            &&& records[i].unix_nanos >= cutoff ==> kept.contains(records[i])
            &&& forall|j: int|
                0 <= j < kept.len() ==> (#[trigger] kept[j]).unix_nanos >= cutoff
                    && records.contains(kept[j])
        }),
{
    lemma_records_from(records, cutoff, records.len());
}

proof fn lemma_records_from(records: Seq<LogRecord>, cutoff: int, n: nat)
    requires
        n <= records.len(),
    ensures
        ({
            let kept = records_from(records, cutoff, n);
            &&& forall|i: int|
                0 <= i < n && (#[trigger] records[i]).unix_nanos >= cutoff ==> kept.contains(
                    records[i],
                )
            &&& forall|j: int|
                0 <= j < kept.len() ==> (#[trigger] kept[j]).unix_nanos >= cutoff
                    && records.contains(kept[j])
        }),
    decreases n,
{
    if n > 0 {
        lemma_records_from(records, cutoff, (n - 1) as nat);
        let before = records_from(records, cutoff, (n - 1) as nat);
        let kept = records_from(records, cutoff, n);
        assert forall|i: int|
            0 <= i < n && (#[trigger] records[i]).unix_nanos >= cutoff implies kept.contains(
            records[i],
        ) by {
            if i < n - 1 {
                let k = before.index_of(records[i]);
                assert(kept[k] == records[i]);
            } else {
                assert(kept[kept.len() - 1] == records[i]);
            }
        }
    }
}

/// Skipping keeps the order, and to skip no time is to keep everything: it is
/// counted from the earliest record, which is one of them.
pub proof fn law_skipping_starts_at_the_earliest(records: Seq<LogRecord>)
    requires
        records.len() > 0,
    ensures
        records_from(records, first_instant(records, records.len()) as int, records.len())
            == records,
        forall|i: int|
            0 <= i < records.len() ==> first_instant(records, records.len()) <= (
            #[trigger] records[i]).unix_nanos,
        exists|i: int|
            0 <= i < records.len() && (#[trigger] records[i]).unix_nanos == first_instant(
                records,
                records.len(),
            ),
{
    lemma_first_instant(records, records.len());
    lemma_nothing_skipped(
        records,
        first_instant(records, records.len()) as int,
        records.len(),
    );
    assert(records.take(records.len() as int) =~= records);
}

proof fn lemma_first_instant(records: Seq<LogRecord>, n: nat)
    requires
        n <= records.len(),
    ensures
        forall|i: int|
            0 <= i < n ==> first_instant(records, n) <= (#[trigger] records[i]).unix_nanos,
        n > 0 ==> exists|i: int|
            0 <= i < n && (#[trigger] records[i]).unix_nanos == first_instant(records, n),
    decreases n,
{
    if n > 0 {
        lemma_first_instant(records, (n - 1) as nat);
        if first_instant(records, n) != records[n - 1].unix_nanos {
            if n > 1 {
                let i = choose|i: int|
                    0 <= i < n - 1 && (#[trigger] records[i]).unix_nanos == first_instant(
                        records,
                        (n - 1) as nat,
                    );
                assert(records[i].unix_nanos == first_instant(records, n));
            }
        } else {
            assert(records[n - 1].unix_nanos == first_instant(records, n));
        }
    }
}

proof fn lemma_nothing_skipped(records: Seq<LogRecord>, cutoff: int, n: nat)
    requires
        n <= records.len(),
        forall|i: int| 0 <= i < n ==> (#[trigger] records[i]).unix_nanos >= cutoff,
    ensures
        records_from(records, cutoff, n) == records.take(n as int),
    decreases n,
{
    if n > 0 {
        lemma_nothing_skipped(records, cutoff, (n - 1) as nat);
        assert(records[n - 1].unix_nanos >= cutoff);
        assert(records.take(n as int) =~= records.take(n - 1).push(records[n - 1]));
    } else {
        assert(records.take(0) =~= Seq::<LogRecord>::empty());
    }
}

/// The two directions of a log speak of different events, and so do the two ends
/// of a connection.
pub proof fn law_directions_have_their_own_events(server: bool)
    ensures
        uplink(server).events.wire != uplink(server).events.real,
        downlink(server).events.wire != downlink(server).events.real,
        uplink(server).events.wire != downlink(server).events.wire,
        uplink(server).events.real != downlink(server).events.real,
        uplink(server).events.wire != uplink(!server).events.wire,
        uplink(server).events.real != uplink(!server).events.real,
        downlink(server).events.wire != downlink(!server).events.wire,
        downlink(server).events.real != downlink(!server).events.real,
        verdict_text(true) != verdict_text(false),
{
    reveal_strlit("server_wire_input");
    reveal_strlit("server_real_output");
    reveal_strlit("client_wire_output");
    reveal_strlit("client_input");
    reveal_strlit("server_wire_return");
    reveal_strlit("server_bridge_reply");
    reveal_strlit("client_wire_return");
    reveal_strlit("client_inbound_real");
    reveal_strlit("ADVERSARY GAINED AN ADVANTAGE — shaping leaked exploitable correlation.");
    reveal_strlit("No exploitable correlation found at this configuration.");
    assert("server_wire_input"@[0] == 's' && "client_wire_output"@[0] == 'c');
    assert("server_real_output"@[0] == 's' && "client_input"@[0] == 'c');
    assert("server_wire_return"@[0] == 's' && "client_wire_return"@[0] == 'c');
    assert("server_bridge_reply"@[0] == 's' && "client_inbound_real"@[0] == 'c');
    assert("server_wire_input"@.len() != "server_real_output"@.len());
    assert("server_wire_input"@.len() != "server_wire_return"@.len());
    assert("server_wire_return"@.len() != "server_bridge_reply"@.len());
    assert("server_real_output"@.len() != "server_bridge_reply"@.len());
    assert("client_wire_output"@.len() != "client_input"@.len());
    assert("client_wire_output"@[12] != "client_wire_return"@[12]);
    assert("client_wire_return"@.len() != "client_inbound_real"@.len());
    assert("client_input"@.len() != "client_inbound_real"@.len());
    assert(verdict_text(true)[0] == 'A' && verdict_text(false)[0] == 'N');
}

} // verus!
