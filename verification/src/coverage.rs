//! Coverage bookkeeping across rollouts.
//!
//! A [`CoverageTracker`] remembers which counters have ever been seen non-zero
//! and, at the end of each rollout, reports the counters newly covered by it,
//! optionally restricted by a filter and fed to a [`RarityTracker`]. The
//! counter values themselves are read from the running binary by the caller.
use vstd::prelude::*;

verus! {

/// Whether coverage counters are available at runtime.
#[derive(Debug, Clone, Copy, PartialEq, Eq, Structural)]
pub enum CoverageStatus {
    /// Counters are available.
    Available { num_counters: usize },
    /// The binary was not built with coverage instrumentation.
    Unavailable,
}

impl CoverageStatus {
    /// The status given the addresses of the start and end of the counter
    /// section (0 for a symbol that is missing): available when both are
    /// present, in order, and hold at least one counter (one per 8 bytes).
    pub fn from_counter_bounds(begin: usize, end: usize) -> (r: Self)
        ensures
            r == (if begin != 0 && end != 0 && begin <= end && (end - begin) / 8 > 0 {
                CoverageStatus::Available { num_counters: ((end - begin) / 8) as usize }
            } else {
                CoverageStatus::Unavailable
            }),
            r matches CoverageStatus::Available { num_counters } ==> num_counters > 0,
    {
        if begin != 0 && end != 0 && begin <= end && (end - begin) / 8 > 0 {
            CoverageStatus::Available { num_counters: (end - begin) / 8 }
        } else {
            CoverageStatus::Unavailable
        }
    }
}

/// Whether coverage is available.
pub fn is_coverage_available(status: CoverageStatus) -> (r: bool)
    ensures
        r == (status is Available),
{
    match status {
        CoverageStatus::Available { .. } => true,
        CoverageStatus::Unavailable => false,
    }
}

/// The number of counters, when coverage is available.
pub fn get_num_counters(status: CoverageStatus) -> (r: Option<usize>)
    ensures
        r == (match status {
            CoverageStatus::Available { num_counters } => Some(num_counters),
            CoverageStatus::Unavailable => None,
        }),
{
    match status {
        CoverageStatus::Available { num_counters } => Some(num_counters),
        CoverageStatus::Unavailable => None,
    }
}

/// Reward equal to the number of newly covered sites.
#[derive(Debug, Clone, Copy, Default)]
pub struct CountReward;

/// How many times `v` occurs among the first `k` elements of `s`.
pub open spec fn occurrences(s: Seq<usize>, v: int, k: nat) -> nat
    decreases k,
{
    if k == 0 || k > s.len() {
        0
    } else {
        occurrences(s, v, (k - 1) as nat) + if s[k - 1] == v {
            1nat
        } else {
            0nat
        }
    }
}

/// Per-counter hit counts across rollouts, for rarity-based biasing.
#[derive(Debug)]
pub struct RarityTracker {
    hit_counts: Vec<u64>,
    total_rollouts: u64,
}

impl RarityTracker {
    /// Hit count of each counter.
    pub closed spec fn hits(&self) -> Seq<u64> {
        self.hit_counts@
    }

    /// Number of rollouts recorded.
    pub closed spec fn rollouts(&self) -> u64 {
        self.total_rollouts
    }

    /// A tracker for `num_counters` counters (`None` without coverage), all
    /// counts zero.
    pub fn new(num_counters: Option<usize>) -> (r: Option<Self>)
        ensures
            match num_counters {
                Some(n) => r matches Some(t) && t.hits() == Seq::new(n as nat, |i: int| 0u64)
                    && t.rollouts() == 0,
                None => r is None,
            },
    {
        let n = match num_counters {
            Some(n) => n,
            None => {
                return None;
            },
        };
        let mut hit_counts: Vec<u64> = Vec::new();
        let mut i: usize = 0;
        while i < n
            invariant
                i <= n,
                hit_counts@ == Seq::new(i as nat, |k: int| 0u64),
            decreases n - i,
        {
            hit_counts.push(0);
            assert(hit_counts@ =~= Seq::new((i + 1) as nat, |k: int| 0u64));
            i = i + 1;
        }
        Some(RarityTracker { hit_counts, total_rollouts: 0 })
    }

    /// Records one rollout that hit the given counters: each listed counter
    /// (that exists) gains one hit per listing, and the rollout count grows by
    /// one; counts wrap around at 2^64.
    pub fn record_hits(&mut self, indices: &[usize])
        ensures
            final(self).hits().len() == old(self).hits().len(),
            forall|i: int|
                0 <= i < old(self).hits().len() ==> #[trigger] final(self).hits()[i] == (old(
                    self,
                ).hits()[i] + occurrences(indices@, i, indices@.len())) % 0x1_0000_0000_0000_0000,
            final(self).rollouts() == (old(self).rollouts() + 1) % 0x1_0000_0000_0000_0000,
    {
        let ghost old_hits = self.hit_counts@;
        let ghost old_total = self.total_rollouts;
        let mut k: usize = 0;
        while k < indices.len()
            invariant
                k <= indices@.len(),
                self.total_rollouts == old_total,
                self.hit_counts@.len() == old_hits.len(),
                forall|i: int|
                    0 <= i < old_hits.len() ==> #[trigger] self.hit_counts@[i] == (old_hits[i]
                        + occurrences(indices@, i, k as nat)) % 0x1_0000_0000_0000_0000,
            decreases indices@.len() - k,
        {
            let idx = indices[k];
            if idx < self.hit_counts.len() {
                let v = self.hit_counts[idx];
                self.hit_counts.set(idx, v.wrapping_add(1));
            }
            assert forall|i: int| 0 <= i < old_hits.len() implies #[trigger] self.hit_counts@[i] == (
            old_hits[i] + occurrences(indices@, i, (k + 1) as nat)) % 0x1_0000_0000_0000_0000 by {
                let o = occurrences(indices@, i, k as nat);
                if i == idx {
                    assert(((old_hits[i] + o) % 0x1_0000_0000_0000_0000 + 1) % 0x1_0000_0000_0000_0000
                        == (old_hits[i] + o + 1) % 0x1_0000_0000_0000_0000) by (nonlinear_arith);
                }
            }
            k = k + 1;
        }
        self.total_rollouts = self.total_rollouts.wrapping_add(1);
    }

    /// Hit count of a counter; 0 for a counter that does not exist.
    pub fn hit_count(&self, idx: usize) -> (r: u64)
        ensures
            r == (if idx < self.hits().len() {
                self.hits()[idx as int]
            } else {
                0
            }),
    {
        if idx < self.hit_counts.len() {
            self.hit_counts[idx]
        } else {
            0
        }
    }

    /// Number of counters tracked.
    pub fn num_counters(&self) -> (r: usize)
        ensures
            r == self.hits().len(),
    {
        self.hit_counts.len()
    }

    /// Number of rollouts recorded.
    pub fn total_rollouts(&self) -> (r: u64)
        ensures
            r == self.rollouts(),
    {
        self.total_rollouts
    }

    /// Clears all counts.
    pub fn reset(&mut self)
        ensures
            final(self).hits() == Seq::new(old(self).hits().len(), |i: int| 0u64),
            final(self).rollouts() == 0,
    {
        let n = self.hit_counts.len();
        let mut i: usize = 0;
        while i < n
            invariant
                i <= n,
                n == self.hit_counts@.len(),
                forall|k: int| 0 <= k < i ==> self.hit_counts@[k] == 0,
            decreases n - i,
        {
            self.hit_counts.set(i, 0);
            i = i + 1;
        }
        assert(self.hit_counts@ =~= Seq::new(n as nat, |i: int| 0u64));
        self.total_rollouts = 0;
    }
}

/// How many times `v` is listed over the first `j` batches.
pub open spec fn total_occurrences(batches: Seq<Seq<usize>>, v: int, j: nat) -> nat
    decreases j,
{
    if j == 0 || j > batches.len() {
        0
    } else {
        total_occurrences(batches, v, (j - 1) as nat) + occurrences(batches[j - 1], v, batches[j - 1].len())
    }
}

/// Hit counts of successive tracker states, from all zero, each state
/// recording one batch as `record_hits` does.
pub open spec fn recorded_history(states: Seq<Seq<u64>>, batches: Seq<Seq<usize>>) -> bool {
    &&& states.len() == batches.len() + 1
    &&& forall|j: int| 0 <= j < states.len() ==> #[trigger] states[j].len() == states[0].len()
    &&& forall|i: int| 0 <= i < states[0].len() ==> states[0][i] == 0
    &&& forall|j: int, i: int|
        1 <= j < states.len() && 0 <= i < states[0].len() ==> #[trigger] states[j][i] == (states[j - 1][i]
            + occurrences(batches[j - 1], i, batches[j - 1].len())) % 0x1_0000_0000_0000_0000
}

proof fn lemma_history_prefix(states: Seq<Seq<u64>>, batches: Seq<Seq<usize>>, i: int, j: int)
    requires
        recorded_history(states, batches),
        0 <= i < states[0].len(),
        0 <= j < states.len(),
    ensures
        states[j][i] == total_occurrences(batches, i, j as nat) % 0x1_0000_0000_0000_0000,
    decreases j,
{
    if j > 0 {
        lemma_history_prefix(states, batches, i, j - 1);
        let t = total_occurrences(batches, i, (j - 1) as nat);
        let o = occurrences(batches[j - 1], i, batches[j - 1].len());
        assert(states[j][i] == (states[j - 1][i] + o) % 0x1_0000_0000_0000_0000);
        vstd::arithmetic::div_mod::lemma_add_mod_noop_right(o as int, t as int, 0x1_0000_0000_0000_0000);
    }
}

/// Successive count sequences that each record one batch hold the number
/// of listings so far, modulo 2^64.
proof fn lemma_history_counts(states: Seq<Seq<u64>>, batches: Seq<Seq<usize>>)
    requires
        recorded_history(states, batches),
    ensures
        forall|j: int, i: int|
            0 <= j < states.len() && 0 <= i < states[0].len() ==> #[trigger] states[j][i]
                == total_occurrences(batches, i, j as nat) % 0x1_0000_0000_0000_0000,
{
    assert forall|j: int, i: int| 0 <= j < states.len() && 0 <= i < states[0].len() implies #[trigger] states[j][i]
        == total_occurrences(batches, i, j as nat) % 0x1_0000_0000_0000_0000 by {
        lemma_history_prefix(states, batches, i, j);
    }
}

/// Successive states of a rarity tracker, from a new or reset one (all
/// counts zero, no rollout), each recording one batch of hit counters as
/// `record_hits` does.
pub open spec fn recorded_rollouts(ts: Seq<RarityTracker>, batches: Seq<Seq<usize>>) -> bool {
    &&& ts.len() == batches.len() + 1
    &&& ts[0].hits() == Seq::new(ts[0].hits().len(), |i: int| 0u64)
    &&& ts[0].rollouts() == 0
    &&& forall|j: int|
        1 <= j < ts.len() ==> {
            &&& (#[trigger] ts[j]).hits().len() == ts[j - 1].hits().len()
            &&& ts[j].rollouts() == (ts[j - 1].rollouts() + 1) % 0x1_0000_0000_0000_0000
            &&& forall|i: int|
                0 <= i < ts[j - 1].hits().len() ==> #[trigger] ts[j].hits()[i] == (ts[j - 1].hits()[i]
                    + occurrences(batches[j - 1], i, batches[j - 1].len())) % 0x1_0000_0000_0000_0000
        }
}

proof fn lemma_rollouts_prefix(ts: Seq<RarityTracker>, batches: Seq<Seq<usize>>, j: int)
    requires
        recorded_rollouts(ts, batches),
        0 <= j < ts.len(),
    ensures
        ts[j].hits().len() == ts[0].hits().len(),
        ts[j].rollouts() == j % 0x1_0000_0000_0000_0000,
    decreases j,
{
    if j > 0 {
        lemma_rollouts_prefix(ts, batches, j - 1);
        assert(ts[j].rollouts() == (ts[j - 1].rollouts() + 1) % 0x1_0000_0000_0000_0000);
        vstd::arithmetic::div_mod::lemma_add_mod_noop_right(1, j - 1, 0x1_0000_0000_0000_0000);
    }
}

/// Hit counts over a history of rollouts: from a new or reset tracker, when
/// every rollout is recorded with `record_hits`, each counter's count is the
/// number of times it was listed over the whole history, and the rollout
/// count the number of rollouts, both modulo 2^64. (`hit_count` reads 0 for
/// a counter the tracker does not have.)
pub proof fn lemma_hit_counts_sum_history(ts: Seq<RarityTracker>, batches: Seq<Seq<usize>>)
    requires
        recorded_rollouts(ts, batches),
    ensures
        forall|j: int|
            0 <= j < ts.len() ==> (#[trigger] ts[j]).hits().len() == ts[0].hits().len() && ts[j].rollouts()
                == j % 0x1_0000_0000_0000_0000,
        forall|j: int, i: int|
            0 <= j < ts.len() && 0 <= i < ts[0].hits().len() ==> #[trigger] ts[j].hits()[i]
                == total_occurrences(batches, i, j as nat) % 0x1_0000_0000_0000_0000,
{
    assert forall|j: int| 0 <= j < ts.len() implies (#[trigger] ts[j]).hits().len() == ts[0].hits().len()
        && ts[j].rollouts() == j % 0x1_0000_0000_0000_0000 by {
        lemma_rollouts_prefix(ts, batches, j);
    }
    let states = Seq::new(ts.len(), |j: int| ts[j].hits());
    assert forall|j: int, i: int|
        1 <= j < states.len() && 0 <= i < states[0].len() implies #[trigger] states[j][i] == (states[j
        - 1][i] + occurrences(batches[j - 1], i, batches[j - 1].len())) % 0x1_0000_0000_0000_0000 by {
        lemma_rollouts_prefix(ts, batches, j - 1);
        assert(ts[j].hits()[i] == (ts[j - 1].hits()[i] + occurrences(batches[j - 1], i, batches[j - 1].len()))
            % 0x1_0000_0000_0000_0000);
    }
    assert forall|j: int| 0 <= j < states.len() implies #[trigger] states[j].len() == states[0].len() by {
        lemma_rollouts_prefix(ts, batches, j);
    }
    assert(recorded_history(states, batches));
    lemma_history_counts(states, batches);
    assert forall|j: int, i: int| 0 <= j < ts.len() && 0 <= i < ts[0].hits().len() implies #[trigger] ts[j].hits()[i]
        == total_occurrences(batches, i, j as nat) % 0x1_0000_0000_0000_0000 by {
        assert(states[j][i] == ts[j].hits()[i]);
    }
}

/// Whether counter `i` passes the filter (every counter does without one).
pub open spec fn passes(filter: Option<Seq<bool>>, i: int) -> bool {
    match filter {
        Some(mask) => mask[i],
        None => true,
    }
}

/// The counters among the first `k` that are hit, not yet seen and pass the
/// filter, in increasing order.
pub open spec fn newly_covered(
    counters: Seq<u64>,
    seen: Seq<bool>,
    filter: Option<Seq<bool>>,
    k: nat,
) -> Seq<usize>
    decreases k,
{
    if k == 0 || k > counters.len() {
        seq![]
    } else {
        let i = k - 1;
        newly_covered(counters, seen, filter, (k - 1) as nat) + if counters[i] > 0 && !seen[i]
            && passes(filter, i) {
            seq![i as usize]
        } else {
            seq![]
        }
    }
}

/// Number of `true` among the first `k` flags.
pub open spec fn count_true(s: Seq<bool>, k: nat) -> nat
    decreases k,
{
    if k == 0 || k > s.len() {
        0
    } else {
        count_true(s, (k - 1) as nat) + if s[k - 1] {
            1nat
        } else {
            0nat
        }
    }
}

/// The counters among the first `k` that are hit and pass the filter, in
/// increasing order.
pub open spec fn covered_in_rollout(counters: Seq<u64>, filter: Option<Seq<bool>>, k: nat) -> Seq<usize>
    decreases k,
{
    if k == 0 || k > counters.len() {
        seq![]
    } else {
        let i = k - 1;
        covered_in_rollout(counters, filter, (k - 1) as nat) + if counters[i] > 0 && passes(filter, i) {
            seq![i as usize]
        } else {
            seq![]
        }
    }
}

/// `mask` holds a filter's answers for the counters `0..k`, one call each.
pub open spec fn answers<F: Fn(usize) -> bool>(filter: F, mask: Seq<bool>, k: nat) -> bool {
    &&& mask.len() == k
    &&& forall|i: int| 0 <= i < k ==> filter.ensures((i as usize,), #[trigger] mask[i])
}

/// The filter as the mask of its answers, when there is a filter.
pub open spec fn filter_mask<F>(filter: Option<F>, mask: Seq<bool>) -> Option<Seq<bool>> {
    match filter {
        Some(_) => Some(mask),
        None => None,
    }
}

/// The filter can be asked about every counter below `k`.
pub open spec fn filter_callable<F: Fn(usize) -> bool>(filter: Option<F>, k: nat) -> bool {
    match filter {
        Some(f) => forall|i: usize| i < k ==> f.requires((i,)),
        None => true,
    }
}

/// The filter's answers are in `mask`, when there is a filter.
pub open spec fn filter_answered<F: Fn(usize) -> bool>(filter: Option<F>, mask: Seq<bool>, k: nat) -> bool {
    match filter {
        Some(f) => answers(f, mask, k),
        None => mask.len() == k,
    }
}

/// Two filter masks that agree below `k` select the same counters below `k`.
proof fn lemma_masks_agree(counters: Seq<u64>, seen: Seq<bool>, m1: Option<Seq<bool>>, m2: Option<Seq<bool>>, k: nat)
    requires
        m1 is Some <==> m2 is Some,
        forall|i: int| 0 <= i < k ==> passes(m1, i) == passes(m2, i),
    ensures
        newly_covered(counters, seen, m1, k) == newly_covered(counters, seen, m2, k),
        covered_in_rollout(counters, m1, k) == covered_in_rollout(counters, m2, k),
    decreases k,
{
    if k > 0 {
        lemma_masks_agree(counters, seen, m1, m2, (k - 1) as nat);
    }
}

/// The first `k` flags hold at most `k` that are true, and none when all are
/// false.
pub proof fn lemma_count_true_bounds(s: Seq<bool>, k: nat)
    requires
        k <= s.len(),
    ensures
        count_true(s, k) <= k,
        (forall|i: int| 0 <= i < k ==> !#[trigger] s[i]) ==> count_true(s, k) == 0,
    decreases k,
{
    if k > 0 {
        lemma_count_true_bounds(s, (k - 1) as nat);
    }
}

/// Counting the covered flags over the first `k` counters after a rollout.
proof fn lemma_covered_prefix(counters: Seq<u64>, seen: Seq<bool>, fm: Option<Seq<bool>>, seen2: Seq<bool>, k: nat)
    requires
        counters.len() <= seen.len(),
        seen2.len() == seen.len(),
        k <= seen.len(),
        forall|i: int|
            0 <= i < seen.len() ==> #[trigger] seen2[i] == (seen[i] || (i < counters.len() && counters[i] > 0
                && passes(fm, i))),
    ensures
        count_true(seen2, k) == count_true(seen, k) + newly_covered(
            counters,
            seen,
            fm,
            if k <= counters.len() { k } else { counters.len() },
        ).len(),
    decreases k,
{
    if k > 0 {
        lemma_covered_prefix(counters, seen, fm, seen2, (k - 1) as nat);
        let i = k - 1;
        assert(seen2[i] == (seen[i] || (i < counters.len() && counters[i] > 0 && passes(fm, i))));
    }
}

/// What one rollout does to the covered count: it grows by exactly the
/// number of counters newly covered, and stays within the number of
/// counters. Starting from nothing covered, the covered count is therefore
/// the sum of the newly covered counts of the rollouts since.
pub proof fn lemma_covered_count_grows_by_newly(
    counters: Seq<u64>,
    seen: Seq<bool>,
    fm: Option<Seq<bool>>,
    seen2: Seq<bool>,
)
    requires
        counters.len() <= seen.len(),
        seen2.len() == seen.len(),
        forall|i: int|
            0 <= i < seen.len() ==> #[trigger] seen2[i] == (seen[i] || (i < counters.len() && counters[i] > 0
                && passes(fm, i))),
    ensures
        count_true(seen2, seen2.len()) == count_true(seen, seen.len()) + newly_covered(
            counters,
            seen,
            fm,
            counters.len(),
        ).len(),
        count_true(seen2, seen2.len()) <= seen2.len(),
{
    lemma_covered_prefix(counters, seen, fm, seen2, seen.len());
    lemma_count_true_bounds(seen2, seen2.len());
}

/// Coverage across rollouts: which counters have been seen non-zero, with
/// an optional filter that is asked about each counter on every rollout.
pub struct CoverageTracker<F> {
    num_counters: usize,
    seen: Vec<bool>,
    rarity_tracker: Option<RarityTracker>,
    filter: Option<F>,
}

impl<F> CoverageTracker<F> {
    /// Counters seen non-zero so far.
    pub closed spec fn seen_view(&self) -> Seq<bool> {
        self.seen@
    }

    /// Number of counters.
    pub closed spec fn counters_view(&self) -> usize {
        self.num_counters
    }

    /// The filter, if there is one.
    pub closed spec fn filter_view(&self) -> Option<F> {
        self.filter
    }

    /// The rarity tracker, if any.
    pub closed spec fn rarity_view(&self) -> Option<RarityTracker> {
        self.rarity_tracker
    }

    /// The tracker's invariant: one flag per counter.
    pub closed spec fn wf(&self) -> bool {
        self.seen@.len() == self.num_counters
    }

    /// A tracker for the counters described by `status`: `None` without
    /// coverage or without counters; otherwise nothing seen, no filter and no
    /// rarity tracker.
    pub fn new(status: CoverageStatus) -> (r: Option<Self>)
        ensures
            match status {
                CoverageStatus::Available { num_counters } => if num_counters == 0 {
                    r is None
                } else {
                    r matches Some(t) && t.wf() && t.counters_view() == num_counters
                        && t.seen_view() == Seq::new(num_counters as nat, |i: int| false)
                        && t.filter_view() is None && t.rarity_view() is None
                },
                CoverageStatus::Unavailable => r is None,
            },
    {
        match status {
            CoverageStatus::Available { num_counters } => {
                if num_counters == 0 {
                    return None;
                }
                let mut seen: Vec<bool> = Vec::new();
                let mut i: usize = 0;
                while i < num_counters
                    invariant
                        i <= num_counters,
                        seen@ == Seq::new(i as nat, |k: int| false),
                    decreases num_counters - i,
                {
                    seen.push(false);
                    assert(seen@ =~= Seq::new((i + 1) as nat, |k: int| false));
                    i = i + 1;
                }
                Some(CoverageTracker { num_counters, seen, rarity_tracker: None, filter: None })
            },
            CoverageStatus::Unavailable => None,
        }
    }

    /// Enables rarity tracking with the given tracker.
    pub fn with_rarity_tracker(self, tracker: RarityTracker) -> (r: Self)
        requires
            self.wf(),
        ensures
            r.wf(),
            r.rarity_view() == Some(tracker),
            r.seen_view() == self.seen_view(),
            r.counters_view() == self.counters_view(),
            r.filter_view() == self.filter_view(),
    {
        CoverageTracker { rarity_tracker: Some(tracker), ..self }
    }

    /// Restricts coverage to the counters for which `filter` answers `true`.
    /// The filter replaces any earlier one; it is not called here, but once
    /// per counter on every rollout.
    pub fn with_filter<G: Fn(usize) -> bool>(self, filter: G) -> (r: CoverageTracker<G>)
        requires
            self.wf(),
        ensures
            r.wf(),
            r.filter_view() == Some(filter),
            r.seen_view() == self.seen_view(),
            r.counters_view() == self.counters_view(),
            r.rarity_view() == self.rarity_view(),
    {
        CoverageTracker {
            num_counters: self.num_counters,
            seen: self.seen,
            rarity_tracker: self.rarity_tracker,
            filter: Some(filter),
        }
    }
}

/// Number of counters newly covered by the first `j` rollouts.
pub open spec fn newly_total(newly: Seq<Seq<usize>>, j: nat) -> nat
    decreases j,
{
    if j == 0 || j > newly.len() {
        0
    } else {
        newly_total(newly, (j - 1) as nat) + newly[j - 1].len()
    }
}

/// Successive states of a coverage tracker, from a new or reset one
/// (nothing covered), each ending one rollout as `end_rollout_with` does
/// and reporting the counters it newly covered.
pub open spec fn covered_rollouts<F>(ts: Seq<CoverageTracker<F>>, newly: Seq<Seq<usize>>) -> bool {
    &&& ts.len() == newly.len() + 1
    &&& ts[0].wf()
    &&& ts[0].seen_view() == Seq::new(ts[0].seen_view().len(), |i: int| false)
    &&& forall|j: int|
        1 <= j < ts.len() ==> {
            &&& (#[trigger] ts[j]).wf()
            &&& ts[j].counters_view() == ts[j - 1].counters_view()
            &&& ts[j].seen_view().len() == ts[j - 1].seen_view().len()
            &&& count_true(ts[j].seen_view(), ts[j].seen_view().len()) == count_true(
                ts[j - 1].seen_view(),
                ts[j - 1].seen_view().len(),
            ) + newly[j - 1].len()
        }
}

proof fn lemma_covered_prefix_sum<F>(ts: Seq<CoverageTracker<F>>, newly: Seq<Seq<usize>>, j: int)
    requires
        covered_rollouts(ts, newly),
        0 <= j < ts.len(),
    ensures
        ts[j].wf(),
        ts[j].counters_view() == ts[0].counters_view(),
        count_true(ts[j].seen_view(), ts[j].seen_view().len()) == newly_total(newly, j as nat),
        count_true(ts[j].seen_view(), ts[j].seen_view().len()) <= ts[j].counters_view(),
    decreases j,
{
    if j > 0 {
        lemma_covered_prefix_sum(ts, newly, j - 1);
        assert(ts[j].wf());
    } else {
        lemma_count_true_bounds(ts[0].seen_view(), ts[0].seen_view().len());
    }
    lemma_count_true_bounds(ts[j].seen_view(), ts[j].seen_view().len());
}

/// The covered count over a history of rollouts: from a new or reset
/// tracker, after any rollouts ended with `end_rollout_with`, the covered
/// count is the sum of the numbers of counters each rollout newly covered,
/// and at most the number of counters.
pub proof fn lemma_covered_count_sums_rollouts<F>(ts: Seq<CoverageTracker<F>>, newly: Seq<Seq<usize>>)
    requires
        covered_rollouts(ts, newly),
    ensures
        forall|j: int|
            0 <= j < ts.len() ==> count_true((#[trigger] ts[j]).seen_view(), ts[j].seen_view().len())
                == newly_total(newly, j as nat) && newly_total(newly, j as nat) <= ts[j].counters_view(),
{
    assert forall|j: int| 0 <= j < ts.len() implies count_true((#[trigger] ts[j]).seen_view(), ts[j].seen_view().len())
        == newly_total(newly, j as nat) && newly_total(newly, j as nat) <= ts[j].counters_view() by {
        lemma_covered_prefix_sum(ts, newly, j);
    }
}

impl<F: Fn(usize) -> bool> CoverageTracker<F> {
    /// Ends a rollout given the counter values it left. The filter, if any,
    /// is asked about each counter once, in increasing order. The counters
    /// that are hit, pass the filter and had not been seen become seen and
    /// are returned in increasing order; the rarity tracker, if any, records
    /// every counter the rollout hit that passes the filter, as one rollout.
    pub fn end_rollout_with(&mut self, counters: &[u64]) -> (newly: Vec<usize>)
        requires
            old(self).wf(),
            counters@.len() <= old(self).counters_view(),
            filter_callable(old(self).filter_view(), counters@.len()),
        ensures
            final(self).wf(),
            final(self).counters_view() == old(self).counters_view(),
            final(self).filter_view() == old(self).filter_view(),
            final(self).seen_view().len() == old(self).seen_view().len(),
            count_true(final(self).seen_view(), final(self).seen_view().len()) == count_true(
                old(self).seen_view(),
                old(self).seen_view().len(),
            ) + newly@.len(),
            count_true(final(self).seen_view(), final(self).seen_view().len()) <= final(self).counters_view(),
            exists|mask: Seq<bool>|
                {
                    let fm = filter_mask(old(self).filter_view(), mask);
                    let hit = covered_in_rollout(counters@, fm, counters@.len());
                    &&& #[trigger] filter_answered(old(self).filter_view(), mask, counters@.len())
                    &&& newly@ == newly_covered(counters@, old(self).seen_view(), fm, counters@.len())
                    &&& forall|i: int|
                        0 <= i < old(self).seen_view().len() ==> #[trigger] final(self).seen_view()[i] == (
                        old(self).seen_view()[i] || (i < counters@.len() && counters@[i] > 0 && passes(
                            fm,
                            i,
                        )))
                    &&& match old(self).rarity_view() {
                        Some(t) => final(self).rarity_view() matches Some(t2) && t2.hits().len()
                            == t.hits().len() && (forall|i: int|
                            0 <= i < t.hits().len() ==> #[trigger] t2.hits()[i] == (t.hits()[i]
                                + occurrences(hit, i, hit.len())) % 0x1_0000_0000_0000_0000)
                            && t2.rollouts() == (t.rollouts() + 1) % 0x1_0000_0000_0000_0000,
                        None => final(self).rarity_view() is None,
                    }
                },
    {
        let ghost old_seen = self.seen@;
        let ghost fv = self.filter_view();
        let ghost old_rt = self.rarity_tracker;
        let ghost old_n = self.num_counters;
        let ghost mut mask: Seq<bool> = Seq::empty();
        let mut newly: Vec<usize> = Vec::new();
        let mut hit: Vec<usize> = Vec::new();
        let mut idx: usize = 0;
        while idx < counters.len()
            invariant
                idx <= counters@.len(),
                self.rarity_tracker == old_rt,
                self.num_counters == old_n,
                counters@.len() <= self.num_counters,
                self.wf(),
                fv == self.filter_view(),
                filter_callable(fv, counters@.len()),
                filter_answered(fv, mask, idx as nat),
                self.seen@.len() == old_seen.len(),
                newly@ == newly_covered(counters@, old_seen, filter_mask(fv, mask), idx as nat),
                hit@ == covered_in_rollout(counters@, filter_mask(fv, mask), idx as nat),
                forall|i: int|
                    0 <= i < old_seen.len() ==> #[trigger] self.seen@[i] == (old_seen[i] || (i < idx
                        && counters@[i] > 0 && passes(filter_mask(fv, mask), i))),
            decreases counters@.len() - idx,
        {
            let ghost prev = mask;
            let allowed = match &self.filter {
                Some(f) => f(idx),
                None => true,
            };
            proof {
                mask = mask.push(allowed);
                assert(filter_mask(fv, mask) matches Some(m) ==> m.take(idx as int) =~= prev);
                assert forall|k: nat| k <= idx implies newly_covered(counters@, old_seen, filter_mask(fv, mask), k)
                    == newly_covered(counters@, old_seen, filter_mask(fv, prev), k)
                    && covered_in_rollout(counters@, filter_mask(fv, mask), k)
                    == covered_in_rollout(counters@, filter_mask(fv, prev), k) by {
                    lemma_masks_agree(counters@, old_seen, filter_mask(fv, prev), filter_mask(fv, mask), k);
                }
                assert forall|i: int| 0 <= i < idx implies passes(filter_mask(fv, mask), i) == passes(
                    filter_mask(fv, prev), i) by {}
            }
            if allowed && counters[idx] > 0 {
                hit.push(idx);
                if !self.seen[idx] {
                    self.seen.set(idx, true);
                    newly.push(idx);
                }
            }
            assert(newly_covered(counters@, old_seen, filter_mask(fv, mask), (idx + 1) as nat) =~= newly_covered(
                counters@,
                old_seen,
                filter_mask(fv, mask),
                idx as nat,
            ) + if counters@[idx as int] > 0 && !old_seen[idx as int] && passes(filter_mask(fv, mask), idx as int) {
                seq![idx]
            } else {
                seq![]
            });
            assert(covered_in_rollout(counters@, filter_mask(fv, mask), (idx + 1) as nat) =~= covered_in_rollout(
                counters@,
                filter_mask(fv, mask),
                idx as nat,
            ) + if counters@[idx as int] > 0 && passes(filter_mask(fv, mask), idx as int) {
                seq![idx]
            } else {
                seq![]
            });
            idx = idx + 1;
        }
        match &mut self.rarity_tracker {
            Some(t) => {
                t.record_hits(&hit);
            },
            None => {},
        }
        assert(filter_answered(old(self).filter_view(), mask, counters@.len()));
        proof {
            lemma_covered_count_grows_by_newly(counters@, old_seen, filter_mask(fv, mask), self.seen@);
        }
        newly
    }

    /// Number of counters.
    pub fn num_counters(&self) -> (r: usize)
        ensures
            r == self.counters_view(),
    {
        self.num_counters
    }

    /// Number of counters seen so far.
    pub fn covered_count(&self) -> (r: usize)
        requires
            self.wf(),
        ensures
            r == count_true(self.seen_view(), self.seen_view().len()),
    {
        let mut c: usize = 0;
        let mut i: usize = 0;
        while i < self.seen.len()
            invariant
                i <= self.seen@.len(),
                c == count_true(self.seen@, i as nat),
                c <= i,
            decreases self.seen@.len() - i,
        {
            if self.seen[i] {
                c = c + 1;
            }
            i = i + 1;
        }
        c
    }

    /// The rarity tracker, if any.
    pub fn rarity_tracker(&self) -> (r: Option<&RarityTracker>)
        ensures
            r == match self.rarity_view() {
                Some(t) => Some(&t),
                None => None,
            },
    {
        match &self.rarity_tracker {
            Some(t) => Some(t),
            None => None,
        }
    }

    /// Forgets all coverage (and clears the rarity tracker).
    pub fn reset(&mut self)
        requires
            old(self).wf(),
        ensures
            final(self).wf(),
            final(self).seen_view() == Seq::new(old(self).seen_view().len(), |i: int| false),
            final(self).counters_view() == old(self).counters_view(),
            final(self).filter_view() == old(self).filter_view(),
            match old(self).rarity_view() {
                Some(t) => final(self).rarity_view() matches Some(t2) && t2.hits() == Seq::new(
                    t.hits().len(),
                    |i: int| 0u64,
                ) && t2.rollouts() == 0,
                None => final(self).rarity_view() is None,
            },
    {
        let n = self.seen.len();
        let ghost old_rt = self.rarity_tracker;
        let ghost fv = self.filter_view();
        let ghost old_n = self.num_counters;
        let mut i: usize = 0;
        while i < n
            invariant
                i <= n,
                n == self.seen@.len(),
                self.wf(),
                self.rarity_tracker == old_rt,
                self.filter_view() == fv,
                self.num_counters == old_n,
                forall|k: int| 0 <= k < i ==> !self.seen@[k],
            decreases n - i,
        {
            self.seen.set(i, false);
            i = i + 1;
        }
        assert(self.seen@ =~= Seq::new(n as nat, |i: int| false));
        match &mut self.rarity_tracker {
            Some(t) => {
                t.reset();
            },
            None => {},
        }
    }
}

/// A counter is reported as newly covered at most once: one that was seen
/// is never among the newly covered, and one that is newly covered was
/// hit, passes the filter and had not been seen.
pub proof fn lemma_reported_once(counters: Seq<u64>, seen: Seq<bool>, filter: Option<Seq<bool>>, k: nat, i: usize)
    requires
        k <= counters.len(),
        counters.len() <= seen.len(),
        counters.len() <= usize::MAX,
    ensures
        i < seen.len() && seen[i as int] ==> !newly_covered(counters, seen, filter, k).contains(i),
        newly_covered(counters, seen, filter, k).contains(i) ==> i < k && counters[i as int] > 0
            && !seen[i as int] && passes(filter, i as int),
    decreases k,
{
    if k > 0 {
        lemma_reported_once(counters, seen, filter, (k - 1) as nat, i);
        let prev = newly_covered(counters, seen, filter, (k - 1) as nat);
        let j = k - 1;
        let tail = if counters[j] > 0 && !seen[j] && passes(filter, j) {
            seq![j as usize]
        } else {
            seq![]
        };
        assert(newly_covered(counters, seen, filter, k) == prev + tail);
        if (prev + tail).contains(i) {
            let w = choose|w: int| 0 <= w < (prev + tail).len() && (prev + tail)[w] == i;
            if w < prev.len() {
                assert(prev[w] == i);
            } else {
                assert(tail[w - prev.len()] == i);
            }
        }
    }
}

} // verus!
