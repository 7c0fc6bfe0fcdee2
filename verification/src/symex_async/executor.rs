//! The bookkeeping of a single-threaded executor: tasks and their flags, the
//! ready queue, virtual time and timers, and the choice of what to do next.
use vstd::prelude::*;

verus! {

/// The flags of a task.
#[derive(Debug, Clone, Copy, PartialEq, Eq, Structural)]
pub struct TaskState {
    /// In the ready queue.
    pub queued: bool,
    /// Its future has finished.
    pub completed: bool,
}

/// A timer: wake `waker` at virtual time `when_ms`; `seq` orders timers
/// registered for one time.
#[derive(Debug)]
pub struct Timer<W> {
    pub when_ms: u64,
    pub seq: u64,
    pub waker: W,
}

/// The executor's state.
#[derive(Debug)]
pub struct Executor<W> {
    pub tasks: Vec<TaskState>,
    /// Tasks to poll, oldest first.
    pub ready: Vec<usize>,
    pub now_ms: u64,
    /// Timers, in registration order.
    pub timers: Vec<Timer<W>>,
    pub timer_seq: u64,
}

/// What the executor does next.
#[derive(Debug)]
pub enum Step<W> {
    /// No task is left to finish.
    Finished,
    Poll(usize),
    /// Several tasks are ready: these, each once, in queue order. One is
    /// to be chosen and taken with [`Executor::take_ready`].
    Choose(Vec<usize>),
    /// Nothing was ready: time moved to the earliest timer; wake these.
    /// If nothing is ready after waking them, the tasks are deadlocked.
    Wake(Vec<W>),
    /// Nothing is ready and no timer is pending.
    Deadlock,
}

/// The elements of `s`, each once, in the order of their first occurrence.
pub open spec fn distinct_in_order(s: Seq<usize>) -> Seq<usize>
    decreases s.len(),
{
    if s.len() == 0 {
        s
    } else {
        let d = distinct_in_order(s.drop_last());
        if d.contains(s.last()) {
            d
        } else {
            d.push(s.last())
        }
    }
}

/// The position of the first occurrence of `x` in `s`.
pub open spec fn first_position(s: Seq<usize>, x: usize) -> int {
    choose|i: int| 0 <= i < s.len() && s[i] == x && forall|j: int| 0 <= j < i ==> s[j] != x
}

/// `s` without the first occurrence of `x`.
pub open spec fn without_first(s: Seq<usize>, x: usize) -> Seq<usize> {
    if s.contains(x) {
        s.remove(first_position(s, x))
    } else {
        s
    }
}

/// The earliest time of a list of timers (0 for none).
pub open spec fn earliest<W>(s: Seq<Timer<W>>) -> u64
    decreases s.len(),
{
    if s.len() == 0 {
        0
    } else if s.len() == 1 {
        s[0].when_ms
    } else {
        let m = earliest(s.drop_last());
        if s.last().when_ms < m {
            s.last().when_ms
        } else {
            m
        }
    }
}

/// The wakers of the timers set for `m`, in order.
pub open spec fn due<W>(s: Seq<Timer<W>>, m: u64) -> Seq<W>
    decreases s.len(),
{
    if s.len() == 0 {
        Seq::empty()
    } else if s.last().when_ms == m {
        due(s.drop_last(), m).push(s.last().waker)
    } else {
        due(s.drop_last(), m)
    }
}

/// The timers not set for `m`, in order.
pub open spec fn not_due<W>(s: Seq<Timer<W>>, m: u64) -> Seq<Timer<W>>
    decreases s.len(),
{
    if s.len() == 0 {
        Seq::empty()
    } else if s.last().when_ms == m {
        not_due(s.drop_last(), m)
    } else {
        not_due(s.drop_last(), m).push(s.last())
    }
}

/// Some task has not finished.
pub open spec fn live(tasks: Seq<TaskState>) -> bool {
    exists|i: int| 0 <= i < tasks.len() && !(#[trigger] tasks[i]).completed
}

impl<W> Executor<W> {
    /// An executor with no task and no timer, at time 0.
    pub fn new() -> (r: Self)
        ensures
            r.tasks@.len() == 0,
            r.ready@.len() == 0,
            r.now_ms == 0,
            r.timers@.len() == 0,
            r.timer_seq == 0,
    {
        Executor { tasks: Vec::new(), ready: Vec::new(), now_ms: 0, timers: Vec::new(), timer_seq: 0 }
    }

    /// The virtual time.
    pub fn now_ms(&self) -> (r: u64)
        ensures
            r == self.now_ms,
    {
        self.now_ms
    }

    /// Registers a timer waking `waker` at `when_ms`.
    pub fn register_timer(&mut self, when_ms: u64, waker: W)
        ensures
            final(self).timers@.len() == old(self).timers@.len() + 1,
            forall|i: int| 0 <= i < old(self).timers@.len() ==> #[trigger] final(self).timers@[i] == old(self).timers@[i],
            final(self).timers@.last().when_ms == when_ms,
            final(self).timers@.last().seq == old(self).timer_seq,
            final(self).timers@.last().waker == waker,
            final(self).timer_seq == old(self).timer_seq.wrapping_add(1),
            final(self).tasks == old(self).tasks,
            final(self).ready == old(self).ready,
            final(self).now_ms == old(self).now_ms,
    {
        let seq = self.timer_seq;
        self.timer_seq = self.timer_seq.wrapping_add(1);
        self.timers.push(Timer { when_ms, seq, waker });
    }

    /// Adds a task, queued, and returns its number.
    pub fn spawn(&mut self) -> (id: usize)
        ensures
            id == old(self).tasks@.len(),
            final(self).tasks@ == old(self).tasks@.push(TaskState { queued: true, completed: false }),
            final(self).ready@ == old(self).ready@.push(id),
            final(self).now_ms == old(self).now_ms,
            final(self).timers == old(self).timers,
            final(self).timer_seq == old(self).timer_seq,
    {
        let id = self.tasks.len();
        self.tasks.push(TaskState { queued: true, completed: false });
        self.ready.push(id);
        id
    }

    /// Starts polling task `id`: it leaves the queued state; answers whether
    /// its future is to be polled (it exists and has not finished).
    pub fn begin_poll(&mut self, id: usize) -> (poll: bool)
        ensures
            id < old(self).tasks@.len() ==> poll == !old(self).tasks@[id as int].completed
                && final(self).tasks@ == old(self).tasks@.update(
                id as int,
                TaskState { queued: false, completed: old(self).tasks@[id as int].completed },
            ),
            id >= old(self).tasks@.len() ==> !poll && final(self).tasks == old(self).tasks,
            final(self).ready == old(self).ready,
            final(self).now_ms == old(self).now_ms,
            final(self).timers == old(self).timers,
            final(self).timer_seq == old(self).timer_seq,
    {
        if id < self.tasks.len() {
            let completed = self.tasks[id].completed;
            self.tasks.set(id, TaskState { queued: false, completed });
            !completed
        } else {
            false
        }
    }

    /// Ends polling task `id`: a finished future marks it completed.
    pub fn end_poll(&mut self, id: usize, finished: bool)
        ensures
            id < old(self).tasks@.len() && finished ==> final(self).tasks@ == old(self).tasks@.update(
                id as int,
                TaskState { queued: old(self).tasks@[id as int].queued, completed: true },
            ),
            !(id < old(self).tasks@.len() && finished) ==> final(self).tasks == old(self).tasks,
            final(self).ready == old(self).ready,
            final(self).now_ms == old(self).now_ms,
            final(self).timers == old(self).timers,
            final(self).timer_seq == old(self).timer_seq,
    {
        if id < self.tasks.len() && finished {
            let queued = self.tasks[id].queued;
            self.tasks.set(id, TaskState { queued, completed: true });
        }
    }

    /// What waking task `id` does: a task that exists, has not finished and
    /// is not queued is queued.
    pub fn enqueue_task(&mut self, id: usize)
        ensures
            ({
                let o = old(self);
                if id < o.tasks@.len() && !o.tasks@[id as int].completed && !o.tasks@[id as int].queued {
                    &&& final(self).tasks@ == o.tasks@.update(id as int, TaskState { queued: true, completed: false })
                    &&& final(self).ready@ == o.ready@.push(id)
                } else {
                    &&& final(self).tasks == o.tasks
                    &&& final(self).ready == o.ready
                }
            }),
            final(self).now_ms == old(self).now_ms,
            final(self).timers == old(self).timers,
            final(self).timer_seq == old(self).timer_seq,
    {
        if id < self.tasks.len() {
            let t = self.tasks[id];
            if !t.completed && !t.queued {
                self.tasks.set(id, TaskState { queued: true, completed: false });
                self.ready.push(id);
            }
        }
    }

    /// Whether some task has not finished.
    pub fn has_live_tasks(&self) -> (r: bool)
        ensures
            r == live(self.tasks@),
    {
        let mut i: usize = 0;
        while i < self.tasks.len()
            invariant
                i <= self.tasks@.len(),
                forall|k: int| 0 <= k < i ==> (#[trigger] self.tasks@[k]).completed,
            decreases self.tasks@.len() - i,
        {
            if !self.tasks[i].completed {
                return true;
            }
            i = i + 1;
        }
        false
    }

    /// The number of queued entries.
    pub fn ready_len(&self) -> (r: usize)
        ensures
            r == self.ready@.len(),
    {
        self.ready.len()
    }

    /// The queued tasks, each once, in queue order.
    pub fn ready_candidates(&self) -> (r: Vec<usize>)
        ensures
            r@ == distinct_in_order(self.ready@),
    {
        let mut out: Vec<usize> = Vec::new();
        let mut i: usize = 0;
        while i < self.ready.len()
            invariant
                i <= self.ready@.len(),
                out@ == distinct_in_order(self.ready@.take(i as int)),
            decreases self.ready@.len() - i,
        {
            let x = self.ready[i];
            let mut seen = false;
            let mut k: usize = 0;
            while k < out.len()
                invariant
                    k <= out@.len(),
                    seen == (exists|j: int| 0 <= j < k && out@[j] == x),
                decreases out@.len() - k,
            {
                if out[k] == x {
                    seen = true;
                }
                k = k + 1;
            }
            assert(seen == out@.contains(x));
            assert(self.ready@.take(i + 1).drop_last() == self.ready@.take(i as int));
            if !seen {
                out.push(x);
            }
            i = i + 1;
        }
        assert(self.ready@.take(self.ready@.len() as int) == self.ready@);
        out
    }

    /// Removes the first queued entry of `id`.
    pub fn take_ready(&mut self, id: usize)
        ensures
            final(self).ready@ == without_first(old(self).ready@, id),
            final(self).tasks == old(self).tasks,
            final(self).now_ms == old(self).now_ms,
            final(self).timers == old(self).timers,
            final(self).timer_seq == old(self).timer_seq,
    {
        let mut i: usize = 0;
        while i < self.ready.len()
            invariant
                i <= self.ready@.len(),
                *self == *old(self),
                forall|k: int| 0 <= k < i ==> self.ready@[k] != id,
            decreases self.ready@.len() - i,
        {
            if self.ready[i] == id {
                proof {
                    assert(self.ready@.contains(id));
                    let p = first_position(self.ready@, id);
                    assert(0 <= i < self.ready@.len() && self.ready@[i as int] == id && forall|j: int| 0 <= j < i ==> self.ready@[j] != id);
                    assert(0 <= p < self.ready@.len() && self.ready@[p] == id && forall|j: int| 0 <= j < p ==> self.ready@[j] != id);
                    if p < i {
                        assert(self.ready@[p] != id);
                    }
                    if p > i {
                        assert(self.ready@[i as int] != id);
                    }
                }
                self.ready.remove(i);
                return;
            }
            i = i + 1;
        }
        assert(!self.ready@.contains(id));
    }

    /// Moves time to the earliest timer and takes the timers set for it,
    /// handing back their wakers; `None` when no timer is pending.
    pub fn advance_time(&mut self) -> (r: Option<Vec<W>>)
        ensures
            old(self).timers@.len() == 0 ==> r is None && *final(self) == *old(self),
            old(self).timers@.len() > 0 ==> ({
                let m = earliest(old(self).timers@);
                &&& r matches Some(ws) && ws@ == due(old(self).timers@, m)
                &&& final(self).now_ms == m
                &&& final(self).timers@ == not_due(old(self).timers@, m)
            }),
            final(self).tasks == old(self).tasks,
            final(self).ready == old(self).ready,
            final(self).timer_seq == old(self).timer_seq,
    {
        if self.timers.len() == 0 {
            return None;
        }
        let mut m: u64 = self.timers[0].when_ms;
        let mut i: usize = 1;
        assert(self.timers@.take(1).drop_last().len() == 0);
        while i < self.timers.len()
            invariant
                1 <= i <= self.timers@.len(),
                m == earliest(self.timers@.take(i as int)),
                self.tasks == old(self).tasks,
                self.ready == old(self).ready,
                self.timers == old(self).timers,
            decreases self.timers@.len() - i,
        {
            assert(self.timers@.take(i + 1).drop_last() == self.timers@.take(i as int));
            if self.timers[i].when_ms < m {
                m = self.timers[i].when_ms;
            }
            i = i + 1;
        }
        assert(self.timers@.take(self.timers@.len() as int) == self.timers@);
        let ghost all = self.timers@;
        let mut pending: Vec<Timer<W>> = Vec::new();
        std::mem::swap(&mut pending, &mut self.timers);
        let mut woken: Vec<W> = Vec::new();
        let mut k: usize = 0;
        while pending.len() > 0
            invariant
                k + pending@.len() == all.len(),
                all.len() <= usize::MAX,
                self.tasks == old(self).tasks,
                self.ready == old(self).ready,
                self.now_ms == old(self).now_ms,
                self.timer_seq == old(self).timer_seq,
                pending@ == all.skip(k as int),
                woken@ == due(all.take(k as int), m),
                self.timers@ == not_due(all.take(k as int), m),
            decreases pending@.len(),
        {
            let t = pending.remove(0);
            assert(all.take(k + 1).drop_last() == all.take(k as int));
            assert(all.take(k + 1).last() == t);
            if t.when_ms == m {
                woken.push(t.waker);
            } else {
                self.timers.push(t);
            }
            k = k + 1;
            assert(pending@ == all.skip(k as int));
        }
        assert(all.take(k as int) == all);
        self.now_ms = m;
        Some(woken)
    }

    /// Decides what to do next: finish when no task is live; poll the only
    /// queued entry; offer a choice among several queued tasks; else move
    /// time to the earliest timer, or report a deadlock when there is none.
    pub fn next_step(&mut self) -> (r: Step<W>)
        ensures
            !live(old(self).tasks@) ==> r is Finished && *final(self) == *old(self),
            live(old(self).tasks@) && old(self).ready@.len() == 1 ==> r == Step::<W>::Poll(old(self).ready@[0])
                && final(self).ready@.len() == 0 && final(self).tasks == old(self).tasks
                && final(self).timers == old(self).timers && final(self).now_ms == old(self).now_ms,
            live(old(self).tasks@) && old(self).ready@.len() > 1 ==> (r matches Step::Choose(c) && c@
                == distinct_in_order(old(self).ready@)) && *final(self) == *old(self),
            live(old(self).tasks@) && old(self).ready@.len() == 0 && old(self).timers@.len() == 0
                ==> r is Deadlock && *final(self) == *old(self),
            live(old(self).tasks@) && old(self).ready@.len() == 0 && old(self).timers@.len() > 0 ==> ({
                let m = earliest(old(self).timers@);
                &&& r matches Step::Wake(ws) && ws@ == due(old(self).timers@, m)
                &&& final(self).now_ms == m
                &&& final(self).timers@ == not_due(old(self).timers@, m)
                &&& final(self).tasks == old(self).tasks
                &&& final(self).ready == old(self).ready
            }),
            final(self).timer_seq == old(self).timer_seq,
    {
        if !self.has_live_tasks() {
            return Step::Finished;
        }
        let n = self.ready.len();
        if n == 1 {
            let id = self.ready.remove(0);
            return Step::Poll(id);
        }
        if n > 1 {
            return Step::Choose(self.ready_candidates());
        }
        match self.advance_time() {
            None => Step::Deadlock,
            Some(ws) => Step::Wake(ws),
        }
    }
}

// ---------------------------------------------------------------------------
// Join handles and yielding
// ---------------------------------------------------------------------------

/// What a spawned task's handle shares with the task: its result, and the
/// waker of whoever awaits it.
#[derive(Debug)]
pub struct JoinState<T, W> {
    pub result: Option<T>,
    pub waker: Option<W>,
}

/// What polling a join handle gives.
#[derive(Debug)]
pub enum JoinPoll<T> {
    Ready(T),
    Pending,
}

impl<T, W> JoinState<T, W> {
    /// Nothing finished, nobody waiting.
    pub fn new() -> (r: Self)
        ensures
            r.result is None,
            r.waker is None,
    {
        JoinState { result: None, waker: None }
    }

    /// The task finished with `value`: stores it and hands back the waiting
    /// waker to wake.
    pub fn complete(&mut self, value: T) -> (wake: Option<W>)
        ensures
            final(self).result == Some(value),
            wake == old(self).waker,
            final(self).waker is None,
    {
        self.result = Some(value);
        self.waker.take()
    }

    /// Polls the handle with the awaiting waker.
    pub fn poll(&mut self, waker: W) -> (r: JoinPoll<T>)
        ensures
            old(self).result matches Some(v) ==> r == JoinPoll::Ready(v) && final(self).result is None
                && final(self).waker == old(self).waker,
            old(self).result is None ==> r is Pending && final(self).waker == Some(waker) && final(self).result is None,
    {
        match self.result.take() {
            Some(v) => JoinPoll::Ready(v),
            None => {
                self.waker = Some(waker);
                JoinPoll::Pending
            },
        }
    }
}

/// A future that yields once to the executor.
#[derive(Debug, Clone, Copy, PartialEq, Eq, Structural)]
pub struct YieldNow {
    pub yielded: bool,
}

/// A future that is ready the second time it is polled.
pub fn yield_now() -> (r: YieldNow)
    ensures
        !r.yielded,
{
    YieldNow { yielded: false }
}

impl YieldNow {
    /// Polls: ready if it already yielded; else it yields now (the caller
    /// wakes its task again) and is not ready.
    pub fn poll_once(&mut self) -> (ready: bool)
        ensures
            ready == old(self).yielded,
            final(self).yielded,
    {
        if self.yielded {
            true
        } else {
            self.yielded = true;
            false
        }
    }
}

/// The earliest time is the time of one of the timers, and no timer is set
/// before it.
proof fn lemma_earliest_is_min<W>(s: Seq<Timer<W>>)
    requires
        s.len() > 0,
    ensures
        exists|i: int| 0 <= i < s.len() && s[i].when_ms == earliest(s),
        forall|i: int| 0 <= i < s.len() ==> earliest(s) <= #[trigger] s[i].when_ms,
    decreases s.len(),
{
    if s.len() > 1 {
        let t = s.drop_last();
        lemma_earliest_is_min(t);
        let i0 = choose|i: int| 0 <= i < t.len() && t[i].when_ms == earliest(t);
        assert(s[i0] == t[i0]);
        assert forall|i: int| 0 <= i < s.len() implies earliest(s) <= #[trigger] s[i].when_ms by {
            if i < t.len() {
                assert(s[i] == t[i]);
            }
        }
        if s.last().when_ms < earliest(t) {
            assert(s[s.len() - 1].when_ms == earliest(s));
        } else {
            assert(s[i0].when_ms == earliest(s));
        }
    } else {
        assert(s[0].when_ms == earliest(s));
    }
}

/// Every timer left after waking those set for `m` is one of the timers and
/// is not set for `m`; and some timer is woken when one is set for `m`.
proof fn lemma_due_split<W>(s: Seq<Timer<W>>, m: u64)
    ensures
        forall|j: int|
            0 <= j < not_due(s, m).len() ==> exists|i: int|
                0 <= i < s.len() && s[i] == #[trigger] not_due(s, m)[j] && s[i].when_ms != m,
        (exists|i: int| 0 <= i < s.len() && s[i].when_ms == m) ==> due(s, m).len() > 0,
    decreases s.len(),
{
    if s.len() > 0 {
        let t = s.drop_last();
        lemma_due_split(t, m);
        assert forall|j: int| 0 <= j < not_due(s, m).len() implies exists|i: int|
            0 <= i < s.len() && s[i] == #[trigger] not_due(s, m)[j] && s[i].when_ms != m by {
            if j < not_due(t, m).len() {
                let i = choose|i: int| 0 <= i < t.len() && t[i] == not_due(t, m)[j] && t[i].when_ms != m;
                assert(s[i] == t[i]);
            } else {
                assert(s[s.len() - 1] == not_due(s, m)[j]);
            }
        }
        if exists|i: int| 0 <= i < s.len() && s[i].when_ms == m {
            let i = choose|i: int| 0 <= i < s.len() && s[i].when_ms == m;
            if i < t.len() {
                assert(t[i] == s[i]);
            }
        }
    }
}

/// Virtual time never moves backwards: when no pending timer is set before
/// the current time, moving to the earliest timer keeps or advances the
/// time, wakes at least one timer, and leaves only timers set after the new
/// time.
pub proof fn lemma_time_moves_forward<W>(timers: Seq<Timer<W>>, now: u64)
    requires
        timers.len() > 0,
        forall|i: int| 0 <= i < timers.len() ==> now <= #[trigger] timers[i].when_ms,
    ensures
        now <= earliest(timers),
        due(timers, earliest(timers)).len() > 0,
        forall|j: int|
            0 <= j < not_due(timers, earliest(timers)).len() ==> earliest(timers) < #[trigger] not_due(
                timers,
                earliest(timers),
            )[j].when_ms,
{
    lemma_earliest_is_min(timers);
    let m = earliest(timers);
    lemma_due_split(timers, m);
    let i0 = choose|i: int| 0 <= i < timers.len() && timers[i].when_ms == m;
    assert(now <= timers[i0].when_ms);
    assert forall|j: int| 0 <= j < not_due(timers, m).len() implies m < #[trigger] not_due(timers, m)[j].when_ms by {
        let i = choose|i: int| 0 <= i < timers.len() && timers[i] == not_due(timers, m)[j] && timers[i].when_ms != m;
        assert(m <= timers[i].when_ms);
    }
}

} // verus!
