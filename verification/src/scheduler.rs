//! Scheduling strategies for replay-based exploration: depth-first,
//! breadth-first, seeded random, and coverage-guided (new branch sites first,
//! then deeper work, then older work).
use vstd::prelude::*;
use std::collections::{HashSet, VecDeque};
use crate::engine::{RunResult, WorkItem};

verus! {

broadcast use vstd::std_specs::hash::group_hash_axioms;

/// The built-in schedulers.
#[derive(Debug, Clone, Copy, PartialEq, Eq, Structural)]
pub enum SchedulerKind {
    Dfs,
    Bfs,
    Random { seed: u64 },
    CoverageGuided,
}

/// Last in, first out.
pub struct DfsScheduler {
    stack: Vec<WorkItem>,
}

impl View for DfsScheduler {
    type V = Seq<WorkItem>;

    closed spec fn view(&self) -> Seq<WorkItem> {
        self.stack@
    }
}

impl DfsScheduler {
    pub fn new() -> (r: Self)
        ensures
            r@ == Seq::<WorkItem>::empty(),
    {
        DfsScheduler { stack: Vec::new() }
    }

    pub fn push(&mut self, work: WorkItem)
        ensures
            final(self)@ == old(self)@.push(work),
    {
        self.stack.push(work);
    }

    /// The most recently pushed work.
    pub fn pop(&mut self) -> (r: Option<WorkItem>)
        ensures
            match r {
                Some(w) => old(self)@.len() > 0 && w == old(self)@.last() && final(self)@
                    == old(self)@.drop_last(),
                None => old(self)@.len() == 0 && final(self)@ == old(self)@,
            },
    {
        self.stack.pop()
    }
}

/// First in, first out.
pub struct BfsScheduler {
    queue: VecDeque<WorkItem>,
}

impl View for BfsScheduler {
    type V = Seq<WorkItem>;

    closed spec fn view(&self) -> Seq<WorkItem> {
        self.queue@
    }
}

impl BfsScheduler {
    pub fn new() -> (r: Self)
        ensures
            r@ == Seq::<WorkItem>::empty(),
    {
        BfsScheduler { queue: VecDeque::new() }
    }

    pub fn push(&mut self, work: WorkItem)
        ensures
            final(self)@ == old(self)@.push(work),
    {
        self.queue.push_back(work);
    }

    /// The least recently pushed work.
    pub fn pop(&mut self) -> (r: Option<WorkItem>)
        ensures
            match r {
                Some(w) => old(self)@.len() > 0 && w == old(self)@[0] && final(self)@ == old(
                    self,
                )@.drop_first(),
                None => old(self)@.len() == 0 && final(self)@ == old(self)@,
            },
    {
        let r = self.queue.pop_front();
        proof {
            if r is Some {
                assert(old(self)@.subrange(1, old(self)@.len() as int) == old(self)@.drop_first());
            }
        }
        r
    }
}

/// One step of the xorshift64 generator (shifts 13, 7, 17).
pub open spec fn xorshift_step(x: u64) -> u64 {
    let a = x ^ (x << 13u64);
    let b = a ^ (a >> 7u64);
    b ^ (b << 17u64)
}

/// A xorshift64 pseudo-random generator.
#[derive(Debug, Clone, Copy)]
pub struct XorShift64 {
    state: u64,
}

impl XorShift64 {
    pub closed spec fn state_view(&self) -> u64 {
        self.state
    }

    /// A generator seeded with `seed` (a zero seed is replaced, as zero is a
    /// fixed point).
    pub fn new(seed: u64) -> (r: Self)
        ensures
            r.state_view() == if seed == 0 { 0xdead_beef_u64 } else { seed },
    {
        XorShift64 { state: if seed == 0 { 0xdead_beef_u64 } else { seed } }
    }

    /// The next number, which becomes the state.
    pub fn next_u64(&mut self) -> (r: u64)
        ensures
            r == xorshift_step(old(self).state_view()),
            final(self).state_view() == r,
    {
        let mut x = self.state;
        x = x ^ (x << 13u64);
        x = x ^ (x >> 7u64);
        x = x ^ (x << 17u64);
        self.state = x;
        x
    }
}

/// Picks pending work uniformly at random (by a seeded generator).
pub struct RandomScheduler {
    pending: Vec<WorkItem>,
    rng: XorShift64,
}

impl RandomScheduler {
    pub closed spec fn pending_view(&self) -> Seq<WorkItem> {
        self.pending@
    }

    pub closed spec fn rng_view(&self) -> u64 {
        self.rng.state_view()
    }

    pub fn new(seed: u64) -> (r: Self)
        ensures
            r.pending_view() == Seq::<WorkItem>::empty(),
            r.rng_view() == if seed == 0 { 0xdead_beef_u64 } else { seed },
    {
        RandomScheduler { pending: Vec::new(), rng: XorShift64::new(seed) }
    }

    pub fn push(&mut self, work: WorkItem)
        ensures
            final(self).pending_view() == old(self).pending_view().push(work),
            final(self).rng_view() == old(self).rng_view(),
    {
        self.pending.push(work);
    }

    /// Removes the pending work at the position given by the next random
    /// number modulo the number pending; the last pending work takes its
    /// place.
    pub fn pop(&mut self) -> (r: Option<WorkItem>)
        ensures
            old(self).pending_view().len() == 0 ==> r is None && final(self).pending_view() == old(
                self,
            ).pending_view() && final(self).rng_view() == old(self).rng_view(),
            old(self).pending_view().len() > 0 ==> {
                let x = xorshift_step(old(self).rng_view());
                let p = old(self).pending_view();
                let i = (x as usize) as int % p.len() as int;
                &&& final(self).rng_view() == x
                &&& r == Some(p[i])
                &&& final(self).pending_view() == p.update(i, p.last()).drop_last()
            },
    {
        if self.pending.len() == 0 {
            return None;
        }
        let x = self.rng.next_u64();
        let idx = (x as usize) % self.pending.len();
        Some(self.pending.swap_remove(idx))
    }
}

/// Work with its priority: `score`, then the order of arrival `seq`.
#[derive(Debug)]
pub struct ScoredWork {
    pub score: i64,
    pub seq: u64,
    pub work: WorkItem,
}

/// `a` is served before `b`: higher score, then earlier arrival.
pub open spec fn served_before(a: ScoredWork, b: ScoredWork) -> bool {
    a.score > b.score || (a.score == b.score && a.seq < b.seq)
}

/// `s[i]` is the work served first: nothing is served before it, and it is
/// served before every earlier entry.
pub open spec fn served_first(s: Seq<ScoredWork>, i: int) -> bool {
    &&& 0 <= i < s.len()
    &&& (forall|j: int| 0 <= j < s.len() ==> !served_before(#[trigger] s[j], s[i]))
    &&& (forall|j: int| 0 <= j < i ==> served_before(s[i], #[trigger] s[j]))
}

/// Serves work at new branch sites first, then deeper work, then older work.
pub struct CoverageGuidedScheduler {
    items: Vec<ScoredWork>,
    seen_sites: HashSet<u64>,
    seq: u64,
}

/// Priority of work: 10000 when it forks at a site not seen yet, plus its
/// depth (in 64-bit arithmetic, wrapping).
pub open spec fn work_score(work: WorkItem, seen: Set<u64>) -> i64 {
    let novelty: int = match work.fork_site_id {
        Some(id) => if !seen.contains(id) { 1 } else { 0 },
        None => 0,
    };
    vstd::wrapping::i64_specs::wrapping_add((novelty * 10_000) as i64, work.forced@.len() as i64)
}

/// Whether work forks at a branch site not in `seen`.
pub open spec fn forks_at_new_site(work: WorkItem, seen: Set<u64>) -> bool {
    work.fork_site_id matches Some(id) && !seen.contains(id)
}

/// Novelty comes first: of two pieces of work of the same depth (below
/// 2^62), one that forks at a site not yet seen scores higher than one that
/// does not, and two that agree on novelty score the same; among work of
/// equal novelty, deeper work scores higher.
pub proof fn lemma_novel_work_scores_higher(a: WorkItem, b: WorkItem, seen: Set<u64>)
    requires
        a.forced@.len() < 0x4000_0000_0000_0000,
        b.forced@.len() < 0x4000_0000_0000_0000,
    ensures
        a.forced@.len() == b.forced@.len() && forks_at_new_site(a, seen) && !forks_at_new_site(b, seen)
            ==> work_score(a, seen) > work_score(b, seen),
        forks_at_new_site(a, seen) == forks_at_new_site(b, seen) ==> (work_score(a, seen) < work_score(
            b,
            seen,
        ) <==> a.forced@.len() < b.forced@.len()),
        forks_at_new_site(a, seen) && !forks_at_new_site(b, seen) && b.forced@.len() < a.forced@.len()
            + 10_000 ==> work_score(a, seen) > work_score(b, seen),
{
}

/// Of two pieces of work pending in a coverage-guided scheduler, with the
/// same depth, the one that forks at a site not yet seen is served first
/// whatever their order of arrival.
pub proof fn lemma_novel_work_served_first(s: Seq<ScoredWork>, seen: Set<u64>, i: int, j: int)
    requires
        0 <= i < s.len(),
        0 <= j < s.len(),
        s[i].score == work_score(s[i].work, seen),
        s[j].score == work_score(s[j].work, seen),
        s[i].work.forced@.len() == s[j].work.forced@.len(),
        s[i].work.forced@.len() < 0x4000_0000_0000_0000,
        forks_at_new_site(s[i].work, seen),
        !forks_at_new_site(s[j].work, seen),
    ensures
        !served_first(s, j),
{
    lemma_novel_work_scores_higher(s[i].work, s[j].work, seen);
    assert(served_before(s[i], s[j]));
}

impl CoverageGuidedScheduler {
    pub closed spec fn items_view(&self) -> Seq<ScoredWork> {
        self.items@
    }

    pub closed spec fn seen_view(&self) -> Set<u64> {
        self.seen_sites@
    }

    pub closed spec fn seq_view(&self) -> u64 {
        self.seq
    }

    pub fn new() -> (r: Self)
        ensures
            r.items_view() == Seq::<ScoredWork>::empty(),
            r.seen_view() == Set::<u64>::empty(),
            r.seq_view() == 0,
    {
        CoverageGuidedScheduler { items: Vec::new(), seen_sites: HashSet::new(), seq: 0 }
    }

    /// Priority of work given the sites seen so far.
    pub fn score(&self, work: &WorkItem) -> (r: i64)
        ensures
            r == work_score(*work, self.seen_view()),
    {
        let depth = work.forced.len() as i64;
        let novelty: i64 = match work.fork_site_id {
            Some(id) => if !self.seen_sites.contains(&id) {
                1
            } else {
                0
            },
            None => 0,
        };
        (novelty * 10_000).wrapping_add(depth)
    }

    pub fn push(&mut self, work: WorkItem)
        ensures
            final(self).items_view() == old(self).items_view().push(
                ScoredWork {
                    score: work_score(work, old(self).seen_view()),
                    seq: old(self).seq_view(),
                    work,
                },
            ),
            final(self).seq_view() == (old(self).seq_view() + 1) % 0x1_0000_0000_0000_0000,
            final(self).seen_view() == old(self).seen_view(),
    {
        let score = self.score(&work);
        let seq = self.seq;
        self.seq = self.seq.wrapping_add(1);
        self.items.push(ScoredWork { score, seq, work });
    }

    /// The work served first: highest score, then earliest arrival (the
    /// first such in the list if two share both).
    pub fn pop(&mut self) -> (r: Option<WorkItem>)
        ensures
            final(self).seen_view() == old(self).seen_view(),
            final(self).seq_view() == old(self).seq_view(),
            old(self).items_view().len() == 0 ==> r is None && final(self).items_view() == old(
                self,
            ).items_view(),
            old(self).items_view().len() > 0 ==> exists|i: int|
                #[trigger] served_first(old(self).items_view(), i) && r == Some(
                    old(self).items_view()[i].work,
                ) && final(self).items_view() == old(self).items_view().remove(i),
    {
        let n = self.items.len();
        if n == 0 {
            return None;
        }
        let mut best: usize = 0;
        let mut k: usize = 1;
        while k < n
            invariant
                1 <= k <= n,
                n == self.items@.len(),
                best < k,
                forall|j: int| 0 <= j < k ==> !served_before(#[trigger] self.items@[j], self.items@[best as int]),
                forall|j: int| 0 <= j < best ==> served_before(self.items@[best as int], #[trigger] self.items@[j]),
            decreases n - k,
        {
            let better = self.items[k].score > self.items[best].score || (self.items[k].score
                == self.items[best].score && self.items[k].seq < self.items[best].seq);
            if better {
                best = k;
            }
            k = k + 1;
        }
        let ghost s = self.items@;
        let item = self.items.remove(best);
        assert(served_first(s, best as int));
        Some(item.work)
    }

    /// Marks the branch sites of a finished run as seen.
    pub fn on_run_result(&mut self, result: &RunResult)
        ensures
            final(self).items_view() == old(self).items_view(),
            final(self).seq_view() == old(self).seq_view(),
            final(self).seen_view() == old(self).seen_view().union(
                Set::new(|id: u64| exists|k: int| 0 <= k < result.branches@.len() && (#[trigger] result.branches@[k]).site_id == id),
            ),
    {
        let ghost start = self.seen_sites@;
        let mut k: usize = 0;
        while k < result.branches.len()
            invariant
                k <= result.branches@.len(),
                self.items@ == old(self).items@,
                self.seq == old(self).seq,
                start == old(self).seen_sites@,
                self.seen_sites@ == start.union(
                    Set::new(|id: u64| exists|t: int| 0 <= t < k && (#[trigger] result.branches@[t]).site_id == id),
                ),
            decreases result.branches@.len() - k,
        {
            self.seen_sites.insert(result.branches[k].site_id);
            assert(self.seen_sites@ =~= start.union(
                Set::new(|id: u64| exists|t: int| 0 <= t < k + 1 && (#[trigger] result.branches@[t]).site_id == id),
            ));
            k = k + 1;
        }
    }
}

/// A scheduler of one of the built-in kinds.
pub enum AnyScheduler {
    Dfs(DfsScheduler),
    Bfs(BfsScheduler),
    Random(RandomScheduler),
    CoverageGuided(CoverageGuidedScheduler),
}

/// `s` is an empty scheduler of the given kind.
pub open spec fn fresh_scheduler(kind: SchedulerKind, s: AnyScheduler) -> bool {
    let r = s;
    match kind {
            SchedulerKind::Dfs => r matches AnyScheduler::Dfs(d) && d@.len() == 0,
            SchedulerKind::Bfs => r matches AnyScheduler::Bfs(b) && b@.len() == 0,
            SchedulerKind::Random { seed } => r matches AnyScheduler::Random(x)
                && x.pending_view().len() == 0 && x.rng_view() == if seed == 0 {
                0xdead_beef_u64
            } else {
                seed
            },
            SchedulerKind::CoverageGuided => r matches AnyScheduler::CoverageGuided(c)
                && c.items_view().len() == 0 && c.seen_view() == Set::<u64>::empty()
                && c.seq_view() == 0,
        }
}

/// A fresh scheduler of the given kind.
pub fn make_scheduler(kind: SchedulerKind) -> (r: AnyScheduler)
    ensures
        fresh_scheduler(kind, r),
{
    match kind {
        SchedulerKind::Dfs => AnyScheduler::Dfs(DfsScheduler::new()),
        SchedulerKind::Bfs => AnyScheduler::Bfs(BfsScheduler::new()),
        SchedulerKind::Random { seed } => AnyScheduler::Random(RandomScheduler::new(seed)),
        SchedulerKind::CoverageGuided => AnyScheduler::CoverageGuided(CoverageGuidedScheduler::new()),
    }
}

/// `b` is `a` with `work` added.
pub open spec fn pushed(a: AnyScheduler, b: AnyScheduler, work: WorkItem) -> bool {
            match (a, b) {
                (AnyScheduler::Dfs(a), AnyScheduler::Dfs(b)) => b@ == a@.push(work),
                (AnyScheduler::Bfs(a), AnyScheduler::Bfs(b)) => b@ == a@.push(work),
                (AnyScheduler::Random(a), AnyScheduler::Random(b)) => b.pending_view()
                    == a.pending_view().push(work) && b.rng_view() == a.rng_view(),
                (AnyScheduler::CoverageGuided(a), AnyScheduler::CoverageGuided(b)) => b.items_view()
                    == a.items_view().push(
                    ScoredWork {
                        score: work_score(work, a.seen_view()),
                        seq: a.seq_view(),
                        work,
                    },
                ) && b.seq_view() == (a.seq_view() + 1) % 0x1_0000_0000_0000_0000 && b.seen_view()
                    == a.seen_view(),
                _ => false,
            }
}

/// `b` is `a` having learned from `result`.
pub open spec fn learned(a: AnyScheduler, b: AnyScheduler, result: RunResult) -> bool {
            match (a, b) {
                (AnyScheduler::CoverageGuided(a), AnyScheduler::CoverageGuided(b)) => b.items_view()
                    == a.items_view() && b.seq_view() == a.seq_view() && b.seen_view()
                    == a.seen_view().union(
                    Set::new(
                        |id: u64|
                            exists|k: int|
                                0 <= k < result.branches@.len() && (#[trigger] result.branches@[k]).site_id
                                    == id,
                    ),
                ),
                (a, b) => !(a is CoverageGuided) && a == b,
            }
}

/// `b` and `r` are what popping `a` leaves and gives.
pub open spec fn popped(a: AnyScheduler, b: AnyScheduler, r: Option<WorkItem>) -> bool {
    match (a, b) {
                (AnyScheduler::Dfs(a), AnyScheduler::Dfs(b)) => match r {
                    Some(w) => a@.len() > 0 && w == a@.last() && b@ == a@.drop_last(),
                    None => a@.len() == 0 && b@ == a@,
                },
                (AnyScheduler::Bfs(a), AnyScheduler::Bfs(b)) => match r {
                    Some(w) => a@.len() > 0 && w == a@[0] && b@ == a@.drop_first(),
                    None => a@.len() == 0 && b@ == a@,
                },
                (AnyScheduler::Random(a), AnyScheduler::Random(b)) => (a.pending_view().len() == 0
                    ==> r is None && b.pending_view() == a.pending_view() && b.rng_view()
                    == a.rng_view()) && (a.pending_view().len() > 0 ==> {
                    let x = xorshift_step(a.rng_view());
                    let p = a.pending_view();
                    let i = (x as usize) as int % p.len() as int;
                    &&& b.rng_view() == x
                    &&& r == Some(p[i])
                    &&& b.pending_view() == p.update(i, p.last()).drop_last()
                }),
                (AnyScheduler::CoverageGuided(a), AnyScheduler::CoverageGuided(b)) => b.seen_view()
                    == a.seen_view() && b.seq_view() == a.seq_view() && (a.items_view().len() == 0
                    ==> r is None && b.items_view() == a.items_view()) && (a.items_view().len() > 0
                    ==> exists|i: int|
                    #[trigger] served_first(a.items_view(), i) && r == Some(a.items_view()[i].work)
                        && b.items_view() == a.items_view().remove(i)),
                _ => false,
            }
}

impl AnyScheduler {
    /// Adds pending work to the scheduler.
    pub fn push(&mut self, work: WorkItem)
        ensures
            pushed(*old(self), *final(self), work),
    {
        match self {
            AnyScheduler::Dfs(s) => s.push(work),
            AnyScheduler::Bfs(s) => s.push(work),
            AnyScheduler::Random(s) => s.push(work),
            AnyScheduler::CoverageGuided(s) => s.push(work),
        }
    }

    /// Takes the next work to run, as the scheduler of its kind does.
    pub fn pop(&mut self) -> (r: Option<WorkItem>)
        ensures
            popped(*old(self), *final(self), r),
    {
        match self {
            AnyScheduler::Dfs(s) => s.pop(),
            AnyScheduler::Bfs(s) => s.pop(),
            AnyScheduler::Random(s) => s.pop(),
            AnyScheduler::CoverageGuided(s) => s.pop(),
        }
    }

    /// Learns from a finished run: the coverage-guided scheduler marks the
    /// run's branch sites as seen; the others ignore it.
    pub fn on_run_result(&mut self, result: &RunResult)
        ensures
            learned(*old(self), *final(self), *result),
    {
        match self {
            AnyScheduler::CoverageGuided(s) => s.on_run_result(result),
            _ => {},
        }
    }
}

/// A seeded random scheduler is deterministic: started from the same seed,
/// it starts in the same state, and from the same state a push or a pop
/// leads to the same state and a pop gives the same work.
pub proof fn lemma_random_scheduler_deterministic(
    seed: u64,
    a: AnyScheduler,
    b: AnyScheduler,
    a2: AnyScheduler,
    b2: AnyScheduler,
    ra: Option<WorkItem>,
    rb: Option<WorkItem>,
    work: WorkItem,
)
    ensures
        fresh_scheduler(SchedulerKind::Random { seed }, a) && fresh_scheduler(SchedulerKind::Random { seed }, b)
            ==> same_random_state(a, b),
        same_random_state(a, b) && pushed(a, a2, work) && pushed(b, b2, work) ==> same_random_state(a2, b2),
        same_random_state(a, b) && popped(a, a2, ra) && popped(b, b2, rb) ==> same_random_state(a2, b2)
            && ra == rb,
{
    match (a, b) {
        (AnyScheduler::Random(x), AnyScheduler::Random(y)) => {
            if x.pending_view().len() == 0 && y.pending_view().len() == 0 {
                assert(x.pending_view() =~= y.pending_view());
            }
        },
        _ => {},
    }
}

/// Two random schedulers with the same pending work and generator state.
pub open spec fn same_random_state(a: AnyScheduler, b: AnyScheduler) -> bool {
    match (a, b) {
        (AnyScheduler::Random(x), AnyScheduler::Random(y)) => x.pending_view() == y.pending_view()
            && x.rng_view() == y.rng_view(),
        _ => false,
    }
}

} // verus!
