//! Size buckets: every length that falls into a bucket is padded to the same
//! target, so that the padded length tells only the bucket.
use crate::composer::sum_of;
use crate::self_test::{count_at_most, lemma_count_by_multiset};
use crate::sorting::{ascending, lemma_ascending, sorted_copy};
use vstd::prelude::*;

verus! {

/// A bucket: lengths from `lo` to `hi` are padded to `target`.
#[derive(Clone, Copy, Debug, PartialEq, Eq, Structural)]
pub struct SizeBucket {
    pub lo: usize,
    pub hi: usize,
    pub target: usize,
}

/// The bucket used while no length has been observed.
pub open spec fn catch_all() -> SizeBucket {
    SizeBucket { lo: 0, hi: 65535, target: 65535 }
}

/// Distinct lengths in a sample.
pub open spec fn distinct(lengths: Seq<usize>) -> nat {
    lengths.to_set().len()
}

/// Buckets made of a sample when `k` are wished for: no more than there are
/// distinct lengths.
pub open spec fn bucket_count(lengths: Seq<usize>, k: nat) -> nat {
    if k < distinct(lengths) {
        k
    } else {
        distinct(lengths)
    }
}

/// Bucket `i` of a table of `count` buckets over the sorted lengths `sorted`: a
/// run of equally many lengths, the last bucket taking what is left over.
pub open spec fn quantile_bucket(sorted: Seq<usize>, count: nat, i: int) -> SizeBucket {
    let chunk = sorted.len() / count;
    let end = if i == count - 1 {
        sorted.len() as int
    } else {
        (i + 1) * chunk
    };
    SizeBucket { lo: sorted[i * chunk], hi: sorted[end - 1], target: sorted[end - 1] }
}

/// The bucket table for a sample of lengths.
pub open spec fn buckets_for(lengths: Seq<usize>, k: nat) -> Seq<SizeBucket> {
    if lengths.len() == 0 {
        seq![catch_all()]
    } else {
        Seq::new(
            bucket_count(lengths, k),
            |i: int| quantile_bucket(ascending(lengths), bucket_count(lengths, k), i),
        )
    }
}

/// Something observed has a distinct length, and no more are distinct than were
/// observed.
proof fn lemma_distinct_bounds(lengths: Seq<usize>)
    ensures
        lengths.to_set().finite(),
        distinct(lengths) <= lengths.len(),
        lengths.len() > 0 ==> distinct(lengths) > 0,
{
    lengths.lemma_cardinality_of_set();
    vstd::seq_lib::seq_to_set_is_finite(lengths);
    if lengths.len() > 0 {
        assert(lengths.to_set().contains(lengths[0]));
        if distinct(lengths) == 0 {
            lengths.to_set().lemma_len0_is_empty();
        }
    }
}

/// Sorting keeps which lengths occur.
proof fn lemma_ascending_keeps_the_set(lengths: Seq<usize>)
    ensures
        ascending(lengths).to_set() == lengths.to_set(),
{
    lemma_ascending(lengths);
    let sorted = ascending(lengths);
    assert forall|v: usize| sorted.to_set().contains(v) == lengths.to_set().contains(v) by {
        if sorted.contains(v) {
            let i = sorted.index_of(v);
            assert(lengths.contains(sorted[i]));
        }
        if lengths.contains(v) {
            let i = lengths.index_of(v);
            assert(sorted.contains(lengths[i]));
        }
    }
    assert(sorted.to_set() =~= lengths.to_set());
}

/// Distinct lengths in a sorted sample.
fn count_distinct(sorted: &[usize]) -> (n: usize)
    requires
        forall|i: int, j: int| 0 <= i <= j < sorted@.len() ==> sorted@[i] <= sorted@[j],
    ensures
        n == distinct(sorted@),
{
    let mut n: usize = 0;
    let mut i: usize = 0;
    assert(sorted@.take(0).to_set() =~= Set::<usize>::empty());
    while i < sorted.len()
        invariant
            i <= sorted@.len(),
            n <= i,
            n == distinct(sorted@.take(i as int)),
            sorted@.take(i as int).to_set().finite(),
            forall|i: int, j: int| 0 <= i <= j < sorted@.len() ==> sorted@[i] <= sorted@[j],
        decreases sorted@.len() - i,
    {
        let ghost before = sorted@.take(i as int);
        let ghost upto = sorted@.take(i + 1);
        let ghost v = sorted@[i as int];
        proof {
            assert(upto =~= before.push(v));
            assert(upto.to_set() =~= before.to_set().insert(v)) by {
                assert forall|x: usize| upto.contains(x) == (before.contains(x) || x == v) by {
                    if before.contains(x) {
                        assert(upto[before.index_of(x)] == x);
                    }
                    assert(upto[i as int] == v);
                    if upto.contains(x) {
                        let at = upto.index_of(x);
                        if at < i {
                            assert(before[at] == x);
                        }
                    }
                }
            }
        }
        if i == 0 || sorted[i] != sorted[i - 1] {
            assert(!before.contains(v)) by {
                if before.contains(v) {
                    let at = before.index_of(v);
                    assert(sorted@[at] <= sorted@[i - 1] <= sorted@[i as int]);
                }
            }
            n = n + 1;
        } else {
            assert(before[i - 1] == v);
            assert(before.to_set().insert(v) =~= before.to_set());
        }
        i = i + 1;
    }
    assert(sorted@.take(i as int) =~= sorted@);
    n
}

/// Divides the observed lengths into `k` buckets of equally many lengths, or
/// into fewer where the lengths have fewer than `k` distinct values.
pub fn build_buckets(lengths: &[usize], k: usize) -> (buckets: Vec<SizeBucket>)
    requires
        k > 0,
    ensures
        buckets@ == buckets_for(lengths@, k as nat),
        lengths@.len() > 0 ==> buckets@.len() == bucket_count(lengths@, k as nat),
{
    if lengths.len() == 0 {
        let mut only: Vec<SizeBucket> = Vec::new();
        only.push(SizeBucket { lo: 0, hi: 65535, target: 65535 });
        assert(only@ =~= buckets_for(lengths@, k as nat));
        return only;
    }
    let sorted = sorted_copy(lengths);
    proof {
        lemma_ascending(lengths@);
    }
    let n: usize = sorted.len();
    let values: usize = count_distinct(sorted.as_slice());
    proof {
        lemma_ascending_keeps_the_set(lengths@);
        lemma_distinct_bounds(lengths@);
    }
    let k_actual: usize = if k < values {
        k
    } else {
        values
    };
    let chunk: usize = n / k_actual;
    proof {
        lemma_chunks(n as int, k_actual as int);
    }
    let mut buckets: Vec<SizeBucket> = Vec::new();
    let mut i: usize = 0;
    while i < k_actual
        invariant
            i <= k_actual,
            0 < k_actual <= n,
            n == sorted@.len(),
            sorted@ == ascending(lengths@),
            lengths@.len() == n,
            k_actual == bucket_count(lengths@, k as nat),
            chunk == n / k_actual,
            forall|j: int| 0 <= j < k_actual ==> 0 <= #[trigger] (j * chunk) && j * chunk + chunk <= n,
            chunk >= 1,
            buckets@ == buckets_for(lengths@, k as nat).take(i as int),
        decreases k_actual - i,
    {
        assert(0 <= (i as int) * (chunk as int) && (i as int) * (chunk as int) + chunk <= n);
        let start: usize = i * chunk;
        assert((i + 1) * chunk == i * chunk + chunk) by (nonlinear_arith);
        let end: usize = if i == k_actual - 1 {
            n
        } else {
            (i + 1) * chunk
        };
        let lo: usize = sorted[start];
        let hi: usize = sorted[end - 1];
        buckets.push(SizeBucket { lo, hi, target: hi });
        i = i + 1;
        assert(buckets@ =~= buckets_for(lengths@, k as nat).take(i as int));
    }
    assert(buckets@ =~= buckets_for(lengths@, k as nat));
    buckets
}

/// Runs of `n / m` elements: each of the `m` runs lies within `n` elements.
proof fn lemma_chunks(n: int, m: int)
    requires
        0 < m <= n,
    ensures
        n / m >= 1,
        forall|j: int| 0 <= j < m ==> 0 <= #[trigger] (j * (n / m)) && j * (n / m) + n / m <= n,
{
    assert(n / m >= 1) by (nonlinear_arith)
        requires
            0 < m <= n,
    ;
    assert forall|j: int| 0 <= j < m implies 0 <= #[trigger] (j * (n / m)) && j * (n / m) + n / m
        <= n by {
        let q = n / m;
        assert(m * q <= n) by (nonlinear_arith)
            requires
                q == n / m,
                m > 0,
        ;
        assert(0 <= j * q && j * q + q <= m * q) by (nonlinear_arith)
            requires
                0 <= j < m,
                q >= 1,
        ;
    }
}

/// The position of the first bucket that reaches up to `len`, or the number of
/// buckets if none does.
pub open spec fn first_covering(buckets: Seq<SizeBucket>, len: usize) -> nat
    decreases buckets.len(),
{
    if buckets.len() == 0 {
        0
    } else if buckets[0].hi >= len {
        0
    } else {
        1 + first_covering(buckets.drop_first(), len)
    }
}

/// The padded length: the target of the first bucket that reaches up to `len`,
/// or of the last bucket if none does, or `len` itself if there is no bucket.
pub open spec fn padded(len: usize, buckets: Seq<SizeBucket>) -> usize {
    let at = first_covering(buckets, len);
    if at < buckets.len() {
        buckets[at as int].target
    } else if buckets.len() > 0 {
        buckets.last().target
    } else {
        len
    }
}

proof fn lemma_first_covering(buckets: Seq<SizeBucket>, len: usize, at: nat)
    requires
        at <= buckets.len(),
        forall|j: int| 0 <= j < at ==> buckets[j].hi < len,
        at < buckets.len() ==> buckets[at as int].hi >= len,
    ensures
        first_covering(buckets, len) == at,
    decreases buckets.len(),
{
    if buckets.len() > 0 && buckets[0].hi < len {
        lemma_first_covering(buckets.drop_first(), len, (at - 1) as nat);
    }
}

/// The length a packet of `true_len` bytes is padded to.
pub fn optimal_pad_length(true_len: usize, buckets: &[SizeBucket]) -> (n: usize)
    ensures
        n == padded(true_len, buckets@),
{
    let mut i: usize = 0;
    while i < buckets.len()
        invariant
            i <= buckets@.len(),
            forall|j: int| 0 <= j < i ==> buckets@[j].hi < true_len,
        decreases buckets@.len() - i,
    {
        if buckets[i].hi >= true_len {
            proof {
                lemma_first_covering(buckets@, true_len, i as nat);
            }
            return buckets[i].target;
        }
        i = i + 1;
    }
    proof {
        lemma_first_covering(buckets@, true_len, i as nat);
    }
    if buckets.len() > 0 {
        buckets[buckets.len() - 1].target
    } else {
        true_len
    }
}

/// A table has as many buckets as wished for, or as there are distinct lengths
/// where these are fewer, and always at least one.
pub proof fn law_buckets_are_as_many_as_wished(lengths: Seq<usize>, k: nat)
    requires
        k > 0,
    ensures
        buckets_for(lengths, k).len() > 0,
        buckets_for(lengths, k).len() <= k,
        distinct(lengths) >= k ==> buckets_for(lengths, k).len() == k,
        0 < distinct(lengths) < k ==> buckets_for(lengths, k).len() == distinct(lengths),
{
    lemma_distinct_bounds(lengths);
}

/// Padding never shrinks an observed length: in the table made of a sample,
/// every length of the sample is padded to at least itself.
pub proof fn law_observed_lengths_never_shrink(lengths: Seq<usize>, k: nat, i: int)
    requires
        k > 0,
        0 <= i < lengths.len(),
    ensures
        padded(lengths[i], buckets_for(lengths, k)) >= lengths[i],
{
    let buckets = buckets_for(lengths, k);
    lemma_ascending(lengths);
    let sorted = ascending(lengths);
    let at = sorted.index_of(lengths[i]);
    lemma_distinct_bounds(lengths);
    assert(sorted.contains(lengths[i]));
    let n = sorted.len() as int;
    assert(buckets.last().hi == sorted[n - 1]);
    assert(sorted[at] <= sorted[n - 1]);
    lemma_covering_exists(buckets, lengths[i]);
    assert forall|j: int| 0 <= j < buckets.len() implies #[trigger] buckets[j].target
        == buckets[j].hi by {}
}

proof fn lemma_covering_exists(buckets: Seq<SizeBucket>, len: usize)
    requires
        buckets.len() > 0,
        buckets.last().hi >= len,
    ensures
        first_covering(buckets, len) < buckets.len(),
        buckets[first_covering(buckets, len) as int].hi >= len,
    decreases buckets.len(),
{
    if buckets[0].hi < len {
        lemma_covering_exists(buckets.drop_first(), len);
    }
}

/// Every bucket of a table pads to its own upper end, and the table's last
/// bucket reaches the longest observed length.
pub proof fn law_targets_are_upper_ends(lengths: Seq<usize>, k: nat, i: int)
    requires
        k > 0,
        0 <= i < buckets_for(lengths, k).len(),
    ensures
        buckets_for(lengths, k)[i].target == buckets_for(lengths, k)[i].hi,
        forall|j: int|
            0 <= j < lengths.len() ==> #[trigger] lengths[j] <= buckets_for(
                lengths,
                k,
            ).last().hi,
{
    lemma_ascending(lengths);
    lemma_distinct_bounds(lengths);
    let sorted = ascending(lengths);
    assert forall|j: int| 0 <= j < lengths.len() implies #[trigger] lengths[j] <= buckets_for(
        lengths,
        k,
    ).last().hi by {
        let at = sorted.index_of(lengths[j]);
        assert(sorted.contains(lengths[j]));
        assert(sorted[at] <= sorted[sorted.len() - 1]);
    }
}

/// The buckets of a table are in order and do not cross: each reaches from its
/// lower to its upper end, and the next begins no lower than that.
pub proof fn law_buckets_are_in_order(lengths: Seq<usize>, k: nat, i: int, j: int)
    requires
        k > 0,
        0 <= i < j < buckets_for(lengths, k).len(),
    ensures
        buckets_for(lengths, k)[i].lo <= buckets_for(lengths, k)[i].hi,
        buckets_for(lengths, k)[i].hi <= buckets_for(lengths, k)[j].lo,
        buckets_for(lengths, k)[j].lo <= buckets_for(lengths, k)[j].hi,
{
    lemma_ascending(lengths);
    let sorted = ascending(lengths);
    let n = sorted.len() as int;
    let count = bucket_count(lengths, k) as int;
    lemma_distinct_bounds(lengths);
    lemma_chunks(n, count);
    let chunk = n / count;
    assert(0 <= i * chunk && i * chunk + chunk <= n);
    assert(0 <= j * chunk && j * chunk + chunk <= n);
    assert((i + 1) * chunk == i * chunk + chunk) by (nonlinear_arith);
    assert((j + 1) * chunk == j * chunk + chunk) by (nonlinear_arith);
    assert((i + 1) * chunk <= j * chunk) by (nonlinear_arith)
        requires
            i + 1 <= j,
            chunk >= 1,
    ;
    assert(sorted[i * chunk] <= sorted[(i + 1) * chunk - 1]);
    assert(sorted[(i + 1) * chunk - 1] <= sorted[j * chunk]);
}

/// Bytes that padding adds to the first `n` lengths.
pub open spec fn overhead_of(buckets: Seq<SizeBucket>, lengths: Seq<usize>, n: nat) -> int
    decreases n,
{
    if n == 0 {
        0
    } else {
        overhead_of(buckets, lengths, (n - 1) as nat) + padded(lengths[n - 1], buckets)
            - lengths[n - 1]
    }
}

/// Bytes that padding adds to all of `lengths`, each of which some bucket must
/// reach.
pub fn total_overhead(buckets: &[SizeBucket], lengths: &[usize]) -> (total: u128)
    requires
        forall|i: int| 0 <= i < lengths@.len() ==> padded(#[trigger] lengths@[i], buckets@)
            >= lengths@[i],
    ensures
        total == overhead_of(buckets@, lengths@, lengths@.len()),
{
    let mut total: u128 = 0;
    let mut i: usize = 0;
    while i < lengths.len()
        invariant
            i <= lengths@.len(),
            forall|j: int| 0 <= j < lengths@.len() ==> padded(#[trigger] lengths@[j], buckets@)
                >= lengths@[j],
            total == overhead_of(buckets@, lengths@, i as nat),
            total <= i * usize::MAX,
        decreases lengths@.len() - i,
    {
        let len: usize = lengths[i];
        let added: usize = optimal_pad_length(len, buckets) - len;
        assert(i * usize::MAX + usize::MAX <= usize::MAX * usize::MAX + usize::MAX) by (nonlinear_arith)
            requires
                i <= usize::MAX,
        ;
        assert((i + 1) * usize::MAX == i * usize::MAX + usize::MAX) by (nonlinear_arith);
        assert(usize::MAX * usize::MAX + usize::MAX <= u128::MAX) by (nonlinear_arith)
            requires
                usize::MAX <= 0xffff_ffff_ffff_ffff,
        ;
        total = total + added as u128;
        i = i + 1;
    }
    total
}

/// What a padder holds.
pub struct PadderState {
    pub k: nat,
    pub rebuild_interval: nat,
    pub seen: Seq<usize>,
    pub built_at: nat,
    pub buckets: Seq<SizeBucket>,
}

/// Whether buckets make a table of at most `k`: there is one at least, each
/// reaches from its lower end up to its target, and the upper ends ascend.
pub open spec fn is_table(buckets: Seq<SizeBucket>, k: nat) -> bool {
    &&& 1 <= buckets.len() <= k
    &&& forall|i: int|
        0 <= i < buckets.len() ==> (#[trigger] buckets[i]).lo <= buckets[i].hi && buckets[i].hi
            == buckets[i].target
    &&& forall|i: int, j: int|
        0 <= i < j < buckets.len() ==> (#[trigger] buckets[i]).hi <= (#[trigger] buckets[j]).hi
}

/// What is made of a sample is a table.
pub proof fn law_buckets_make_a_table(lengths: Seq<usize>, k: nat)
    requires
        k > 0,
    ensures
        is_table(buckets_for(lengths, k), k),
{
    let buckets = buckets_for(lengths, k);
    law_buckets_are_as_many_as_wished(lengths, k);
    if lengths.len() > 0 {
        lemma_ascending(lengths);
        lemma_distinct_bounds(lengths);
        let sorted = ascending(lengths);
        let n = sorted.len() as int;
        let count = bucket_count(lengths, k) as int;
        let chunk = n / count;
        lemma_chunks(n, count);
        assert forall|i: int| 0 <= i < buckets.len() implies (#[trigger] buckets[i]).lo
            <= buckets[i].hi && buckets[i].hi == buckets[i].target by {
            assert(0 <= i * chunk && i * chunk + chunk <= n);
            assert((i + 1) * chunk == i * chunk + chunk) by (nonlinear_arith);
            assert(buckets[i] == quantile_bucket(sorted, count as nat, i));
        }
        assert forall|i: int, j: int| 0 <= i < j < buckets.len() implies (#[trigger] buckets[i]).hi
            <= (#[trigger] buckets[j]).hi by {
            law_buckets_are_in_order(lengths, k, i, j);
        }
    }
}

impl PadderState {
    /// There is at least one bucket to aim for, the table is not newer than the
    /// sample, and it is a table of no more buckets than wished for.
    pub open spec fn wf(self) -> bool {
        &&& self.k > 0
        &&& self.built_at <= self.seen.len()
        &&& is_table(self.buckets, self.k)
    }

    /// The padder with one more observed length.
    pub open spec fn observed(self, len: usize) -> PadderState {
        PadderState { seen: self.seen.push(len), ..self }
    }

    /// The padder that the next padding uses: its table is made anew once the
    /// sample has grown by the rebuild interval.
    pub open spec fn refreshed(self) -> PadderState {
        if self.seen.len() - self.built_at >= self.rebuild_interval {
            PadderState {
                buckets: buckets_for(self.seen, self.k),
                built_at: self.seen.len(),
                ..self
            }
        } else {
            self
        }
    }
}

/// Something that happens to a padder.
pub enum PadderEvent {
    Observe(usize),
    Pad,
}

impl PadderState {
    /// The padder after a run of events.
    pub open spec fn run(self, events: Seq<PadderEvent>) -> PadderState
        decreases events.len(),
    {
        if events.len() == 0 {
            self
        } else {
            let before = self.run(events.drop_last());
            match events.last() {
                PadderEvent::Observe(len) => before.observed(len),
                PadderEvent::Pad => before.refreshed(),
            }
        }
    }
}

/// Making the table anew keeps a padder well-formed.
pub proof fn lemma_refreshed_keeps(padder: PadderState)
    requires
        padder.wf(),
    ensures
        padder.refreshed().wf(),
        padder.refreshed().k == padder.k,
{
    law_buckets_make_a_table(padder.seen, padder.k);
}

/// Whatever is observed and padded, a padder has a table: never empty, of no more
/// buckets than wished for, each reaching from its lower end up to its target,
/// in ascending order. An observation alone does not change it.
pub proof fn law_padders_keep_a_table(padder: PadderState, events: Seq<PadderEvent>, len: usize)
    requires
        padder.wf(),
    ensures
        padder.run(events).wf(),
        padder.run(events).k == padder.k,
        is_table(padder.run(events).buckets, padder.k),
        padder.run(events).observed(len).buckets == padder.run(events).buckets,
    decreases events.len(),
{
    if events.len() > 0 {
        law_padders_keep_a_table(padder, events.drop_last(), len);
        lemma_refreshed_keeps(padder.run(events.drop_last()));
    }
}

/// A bucket table that follows the observed lengths.
#[derive(Debug)]
pub struct OptimalPadder {
    k: usize,
    length_pool: Vec<usize>,
    buckets: Vec<SizeBucket>,
    pool_version_at_last_build: usize,
    rebuild_interval: usize,
}

impl View for OptimalPadder {
    type V = PadderState;

    closed spec fn view(&self) -> PadderState {
        PadderState {
            k: self.k as nat,
            rebuild_interval: self.rebuild_interval as nat,
            seen: self.length_pool@,
            built_at: self.pool_version_at_last_build as nat,
            buckets: self.buckets@,
        }
    }
}

impl OptimalPadder {
    /// A padder of `k` buckets whose table is made anew every
    /// `rebuild_interval` observations. Either number counts as at least one.
    pub fn new(k: usize, rebuild_interval: usize) -> (p: OptimalPadder)
        ensures
            p@.wf(),
            p@ == (PadderState {
                k: if k == 0 {
                    1
                } else {
                    k as nat
                },
                rebuild_interval: if rebuild_interval == 0 {
                    1
                } else {
                    rebuild_interval as nat
                },
                seen: Seq::empty(),
                built_at: 0,
                buckets: seq![catch_all()],
            }),
    {
        let mut buckets: Vec<SizeBucket> = Vec::new();
        buckets.push(SizeBucket { lo: 0, hi: 65535, target: 65535 });
        assert(buckets@ =~= seq![catch_all()]);
        OptimalPadder {
            k: if k == 0 {
                1
            } else {
                k
            },
            length_pool: Vec::new(),
            buckets,
            pool_version_at_last_build: 0,
            rebuild_interval: if rebuild_interval == 0 {
                1
            } else {
                rebuild_interval
            },
        }
    }

    /// Records an observed length.
    pub fn observe_length(&mut self, len: usize)
        requires
            old(self)@.wf(),
        ensures
            final(self)@.wf(),
            final(self)@ == old(self)@.observed(len),
    {
        self.length_pool.push(len);
    }

    /// The length a packet of `true_len` bytes is padded to.
    pub fn pad_length(&mut self, true_len: usize) -> (n: usize)
        requires
            old(self)@.wf(),
        ensures
            final(self)@.wf(),
            final(self)@ == old(self)@.refreshed(),
            n == padded(true_len, final(self)@.buckets),
    {
        proof {
            lemma_refreshed_keeps(self@);
        }
        if self.length_pool.len() - self.pool_version_at_last_build >= self.rebuild_interval {
            self.rebuild();
        }
        optimal_pad_length(true_len, self.buckets.as_slice())
    }

    fn rebuild(&mut self)
        requires
            old(self)@.wf(),
        ensures
            final(self)@ == (PadderState {
                buckets: buckets_for(old(self)@.seen, old(self)@.k),
                built_at: old(self)@.seen.len(),
                ..old(self)@
            }),
    {
        self.buckets = build_buckets(self.length_pool.as_slice(), self.k);
        self.pool_version_at_last_build = self.length_pool.len();
    }

    /// The bucket table as it stands.
    pub fn buckets(&self) -> (b: &[SizeBucket])
        ensures
            b@ == self@.buckets,
    {
        self.buckets.as_slice()
    }

    /// Buckets wished for.
    pub fn k(&self) -> (k: usize)
        ensures
            k == self@.k,
    {
        self.k
    }
}

/// What a length is padded to: the least target of the table that the length does
/// not exceed, or the largest target where it exceeds them all. Where there is no
/// table, it stays as it is.
pub proof fn law_lengths_take_the_least_target(len: usize, buckets: Seq<SizeBucket>, k: nat, i: int)
    requires
        is_table(buckets, k),
        0 <= i < buckets.len(),
    ensures
        exists|j: int|
            0 <= j < buckets.len() && padded(len, buckets) == (#[trigger] buckets[j]).target,
        len <= buckets[i].target ==> len <= padded(len, buckets) <= buckets[i].target,
        buckets.last().target < len ==> padded(len, buckets) == buckets.last().target
            && buckets[i].target <= padded(len, buckets),
        padded(len, Seq::empty()) == len,
{
    lemma_first_covering_is_first(buckets, len);
    let at = first_covering(buckets, len);
    if at < buckets.len() {
        assert(padded(len, buckets) == buckets[at as int].target);
    } else {
        assert(padded(len, buckets) == buckets[buckets.len() - 1].target);
    }
}

proof fn lemma_first_covering_is_first(buckets: Seq<SizeBucket>, len: usize)
    ensures
        first_covering(buckets, len) <= buckets.len(),
        forall|j: int|
            0 <= j < first_covering(buckets, len) ==> (#[trigger] buckets[j]).hi < len,
        first_covering(buckets, len) < buckets.len() ==> buckets[first_covering(
            buckets,
            len,
        ) as int].hi >= len,
    decreases buckets.len(),
{
    if buckets.len() > 0 && buckets[0].hi < len {
        let rest = buckets.drop_first();
        lemma_first_covering_is_first(rest, len);
        assert forall|j: int| 0 <= j < first_covering(buckets, len) implies (
        #[trigger] buckets[j]).hi < len by {
            if j > 0 {
                assert(rest[j - 1] == buckets[j]);
            }
        }
    }
}

proof fn lemma_many_at_most(s: Seq<usize>, x: usize, n: int)
    requires
        0 <= n <= s.len(),
        forall|i: int| 0 <= i < n ==> #[trigger] s[i] <= x,
    ensures
        count_at_most(s, x) >= n,
    decreases s.len(),
{
    if s.len() > 0 {
        let t = s.drop_last();
        if n == s.len() {
            lemma_many_at_most(t, x, n - 1);
            assert(s[n - 1] <= x);
        } else {
            lemma_many_at_most(t, x, n);
        }
    }
}

proof fn lemma_few_at_most(s: Seq<usize>, x: usize, n: int)
    requires
        0 <= n <= s.len(),
        forall|i: int| n <= i < s.len() ==> #[trigger] s[i] > x,
    ensures
        count_at_most(s, x) <= n,
    decreases s.len(),
{
    if s.len() > 0 {
        let t = s.drop_last();
        if n == s.len() {
            lemma_few_at_most(t, x, n - 1);
        } else {
            lemma_few_at_most(t, x, n);
            assert(s[s.len() - 1] > x);
        }
    }
}

/// A rank among lengths in order is one in the sample.
proof fn lemma_rank(s: Seq<usize>, m: int)
    requires
        0 <= m < s.len(),
    ensures
        count_at_most(s, ascending(s)[m]) > m,
        ascending(s)[m] > 0 ==> count_at_most(s, (ascending(s)[m] - 1) as usize) <= m,
{
    let sorted = ascending(s);
    lemma_ascending(s);
    lemma_count_by_multiset(s, sorted[m]);
    lemma_count_by_multiset(sorted, sorted[m]);
    lemma_many_at_most(sorted, sorted[m], m + 1);
    if sorted[m] > 0 {
        let below = (sorted[m] - 1) as usize;
        lemma_count_by_multiset(s, below);
        lemma_count_by_multiset(sorted, below);
        lemma_few_at_most(sorted, below, m);
    }
}

/// How a sample is divided: with `n` lengths in `m` buckets, each bucket is a run
/// of `n / m` of them in ascending order, and the last takes what is left. A bucket
/// begins with the length that has all lengths of the buckets before it below, and
/// ends with the length that is the last of its run.
pub proof fn law_buckets_share_the_sample(lengths: Seq<usize>, k: nat, i: int)
    requires
        k > 0,
        lengths.len() > 0,
        0 <= i < buckets_for(lengths, k).len(),
    ensures
        ({
            let buckets = buckets_for(lengths, k);
            let m = buckets.len() as int;
            let run = lengths.len() as int / m;
            let end = if i == m - 1 {
                lengths.len() as int
            } else {
                (i + 1) * run
            };
            let lo = buckets[i].lo;
            let hi = buckets[i].hi;
            &&& lengths.contains(lo) && lengths.contains(hi)
            &&& count_at_most(lengths, lo) > i * run
            &&& lo > 0 ==> count_at_most(lengths, (lo - 1) as usize) <= i * run
            &&& count_at_most(lengths, hi) >= end
            &&& hi > 0 ==> count_at_most(lengths, (hi - 1) as usize) < end
        }),
{
    lemma_ascending(lengths);
    lemma_distinct_bounds(lengths);
    let sorted = ascending(lengths);
    let n = sorted.len() as int;
    let m = bucket_count(lengths, k) as int;
    let run = n / m;
    lemma_chunks(n, m);
    assert(0 <= i * run && i * run + run <= n);
    assert((i + 1) * run == i * run + run) by (nonlinear_arith);
    let end = if i == m - 1 {
        n
    } else {
        (i + 1) * run
    };
    lemma_rank(lengths, i * run);
    lemma_rank(lengths, end - 1);
}

/// Every length of a sample lies within one of the buckets made of it.
pub proof fn law_observed_lengths_have_a_bucket(lengths: Seq<usize>, k: nat, i: int)
    requires
        k > 0,
        0 <= i < lengths.len(),
    ensures
        exists|j: int|
            0 <= j < buckets_for(lengths, k).len() && (#[trigger] buckets_for(lengths, k)[j]).lo
                <= lengths[i] <= buckets_for(lengths, k)[j].hi,
{
    lemma_ascending(lengths);
    lemma_distinct_bounds(lengths);
    let buckets = buckets_for(lengths, k);
    let sorted = ascending(lengths);
    let n = sorted.len() as int;
    let m = bucket_count(lengths, k) as int;
    let run = n / m;
    lemma_chunks(n, m);
    assert(sorted.contains(lengths[i]));
    let at = sorted.index_of(lengths[i]);
    let q = at / run;
    let j = if q < m - 1 {
        q
    } else {
        m - 1
    };
    assert(q >= 0 && q * run <= at < (q + 1) * run) by (nonlinear_arith)
        requires
            q == at / run,
            run >= 1,
            at >= 0,
    ;
    assert(0 <= j * run && j * run + run <= n);
    assert(j * run <= q * run) by (nonlinear_arith)
        requires
            j <= q,
            run >= 1,
    ;
    assert(buckets[j].lo <= lengths[i] <= buckets[j].hi);
}

/// Padding's overhead is what the padded lengths have more than the lengths.
pub proof fn law_overhead_is_the_difference(buckets: Seq<SizeBucket>, lengths: Seq<usize>)
    ensures
        overhead_of(buckets, lengths, lengths.len()) == sum_of(
            lengths.map_values(|len: usize| padded(len, buckets)),
        ) - sum_of(lengths),
    decreases lengths.len(),
{
    let pad = |len: usize| padded(len, buckets);
    if lengths.len() > 0 {
        let before = lengths.drop_last();
        law_overhead_is_the_difference(buckets, before);
        lemma_overhead_of_prefix(buckets, before, lengths, before.len());
        assert(lengths.map_values(pad).drop_last() =~= before.map_values(pad));
        assert(lengths.map_values(pad).last() == padded(lengths.last(), buckets));
    } else {
        assert(lengths.map_values(pad) =~= Seq::<usize>::empty());
    }
}

proof fn lemma_overhead_of_prefix(buckets: Seq<SizeBucket>, a: Seq<usize>, b: Seq<usize>, n: nat)
    requires
        n <= a.len(),
        n <= b.len(),
        forall|i: int| 0 <= i < n ==> a[i] == b[i],
    ensures
        overhead_of(buckets, a, n) == overhead_of(buckets, b, n),
    decreases n,
{
    if n > 0 {
        lemma_overhead_of_prefix(buckets, a, b, (n - 1) as nat);
    }
}

/// The padder once these lengths were observed.
pub open spec fn with_observed(padder: PadderState, lengths: Seq<usize>) -> PadderState
    decreases lengths.len(),
{
    if lengths.len() == 0 {
        padder
    } else {
        with_observed(padder, lengths.drop_last()).observed(lengths.last())
    }
}

/// When the table is made anew: with the first padding once the rebuild interval
/// has passed since it was last made, counted in observed lengths, and then of all
/// lengths observed so far. Until then it stays.
pub proof fn law_tables_follow_the_sample(padder: PadderState, lengths: Seq<usize>)
    requires
        padder.built_at == padder.seen.len(),
    ensures
        ({
            let after = with_observed(padder, lengths);
            &&& after.seen == padder.seen + lengths
            &&& after.buckets == padder.buckets
            &&& lengths.len() >= padder.rebuild_interval ==> after.refreshed().buckets
                == buckets_for(padder.seen + lengths, padder.k) && after.refreshed().built_at
                == padder.seen.len() + lengths.len()
            &&& lengths.len() < padder.rebuild_interval ==> after.refreshed() == after
            &&& after.refreshed().seen == after.seen
        }),
{
    lemma_with_observed(padder, lengths);
}

proof fn lemma_with_observed(padder: PadderState, lengths: Seq<usize>)
    ensures
        with_observed(padder, lengths) == (PadderState { seen: padder.seen + lengths, ..padder }),
    decreases lengths.len(),
{
    if lengths.len() > 0 {
        lemma_with_observed(padder, lengths.drop_last());
        assert((padder.seen + lengths.drop_last()).push(lengths.last()) =~= padder.seen + lengths);
    } else {
        assert(padder.seen + lengths =~= padder.seen);
    }
}

} // verus!
