//! Virtual time: a clock that moves only when it is told to, and the timers
//! that wait on it.
//!
//! Time is counted in nanoseconds since the clock was created. A suspended
//! operation is known to the clock by the number of the task that waits; the
//! clock hands that number back when the deadline is reached. Timers fire in
//! the order of their deadlines, and timers of one deadline in the order in
//! which they were scheduled.

use vstd::prelude::*;

verus! {

/// Nanoseconds in a microsecond.
pub const NANOS_PER_MICRO: u64 = 1_000;

/// Nanoseconds in a millisecond.
pub const NANOS_PER_MILLI: u64 = 1_000_000;

/// Nanoseconds in a second.
pub const NANOS_PER_SEC: u64 = 1_000_000_000;

/// `n` microseconds in nanoseconds, if that fits.
pub fn micros(n: u64) -> (r: Option<u64>)
    ensures
        r == if n * NANOS_PER_MICRO <= u64::MAX {
            Some((n * NANOS_PER_MICRO) as u64)
        } else {
            None
        },
{
    n.checked_mul(NANOS_PER_MICRO)
}

/// `n` milliseconds in nanoseconds, if that fits.
pub fn millis(n: u64) -> (r: Option<u64>)
    ensures
        r == if n * NANOS_PER_MILLI <= u64::MAX {
            Some((n * NANOS_PER_MILLI) as u64)
        } else {
            None
        },
{
    n.checked_mul(NANOS_PER_MILLI)
}

/// `n` seconds in nanoseconds, if that fits.
pub fn seconds(n: u64) -> (r: Option<u64>)
    ensures
        r == if n * NANOS_PER_SEC <= u64::MAX {
            Some((n * NANOS_PER_SEC) as u64)
        } else {
            None
        },
{
    n.checked_mul(NANOS_PER_SEC)
}

/// Who moves the clock.
#[derive(Debug, Clone, Copy, PartialEq, Eq)]
pub enum ClockMode {
    /// Time stands still until it is advanced by an explicit command.
    Paused,
    /// Time follows the wall clock, as reported to `observe`.
    RealTime,
}

/// A task that waits for a deadline.
#[derive(Debug, Clone, Copy, PartialEq, Eq)]
pub struct Timer {
    pub task: u64,
    pub deadline: u64,
}

/// Deadlines never decrease along the sequence.
pub open spec fn sorted(timers: Seq<Timer>) -> bool {
    forall|i: int, j: int|
        0 <= i <= j < timers.len() ==> (#[trigger] timers[i]).deadline <= (
        #[trigger] timers[j]).deadline
}

/// `k` parts `timers` into those due at `limit` (before `k`) and those not
/// yet due (from `k` on).
pub open spec fn is_cut(timers: Seq<Timer>, limit: int, k: int) -> bool {
    &&& 0 <= k <= timers.len()
    &&& forall|i: int| 0 <= i < k ==> (#[trigger] timers[i]).deadline <= limit
    &&& forall|i: int| k <= i < timers.len() ==> (#[trigger] timers[i]).deadline > limit
}

/// The number of timers due at `limit`.
pub open spec fn cut(timers: Seq<Timer>, limit: int) -> int {
    choose|k: int| is_cut(timers, limit, k)
}

/// The predicate of the timers that do not belong to `task`.
pub open spec fn of_other_task(task: u64) -> spec_fn(Timer) -> bool {
    |t: Timer| t.task != task
}

/// There is only one way to part the timers at a limit.
pub proof fn lemma_cut_is(timers: Seq<Timer>, limit: int, k: int)
    requires
        is_cut(timers, limit, k),
    ensures
        cut(timers, limit) == k,
{
    let c = cut(timers, limit);
    assert(is_cut(timers, limit, c));
    if c < k {
        assert(timers[c].deadline <= limit);
    } else if k < c {
        assert(timers[k].deadline <= limit);
    }
}

/// Sorted timers can be parted at every limit.
pub proof fn lemma_cut_exists(timers: Seq<Timer>, limit: int)
    requires
        sorted(timers),
    ensures
        is_cut(timers, limit, cut(timers, limit)),
    decreases timers.len(),
{
    if timers.len() == 0 {
        assert(is_cut(timers, limit, 0));
    } else {
        let front = timers.drop_last();
        assert forall|i: int, j: int| 0 <= i <= j < front.len() implies (
        #[trigger] front[i]).deadline <= (#[trigger] front[j]).deadline by {
            assert(front[i] == timers[i] && front[j] == timers[j]);
        }
        lemma_cut_exists(front, limit);
        let c = cut(front, limit);
        let n = timers.len() as int;
        if c < front.len() {
            assert(front[c] == timers[c]);
            assert forall|i: int| c <= i < n implies (#[trigger] timers[i]).deadline > limit by {
                assert(timers[c].deadline <= timers[i].deadline);
            }
            assert forall|i: int| 0 <= i < c implies (#[trigger] timers[i]).deadline <= limit by {
                assert(front[i] == timers[i]);
            }
            assert(is_cut(timers, limit, c));
        } else {
            assert forall|i: int| 0 <= i < n - 1 implies (#[trigger] timers[i]).deadline
                <= limit by {
                assert(front[i] == timers[i]);
            }
            if timers[n - 1].deadline <= limit {
                assert(is_cut(timers, limit, n));
            } else {
                assert(is_cut(timers, limit, n - 1));
            }
        }
    }
}

/// The state of the clock: the time, the mode, and the pending timers in the
/// order in which they will fire.
pub struct ClockState {
    pub now: u64,
    pub mode: ClockMode,
    pub timers: Seq<Timer>,
}

impl ClockState {
    /// A clock at time zero with nothing pending.
    pub open spec fn new(mode: ClockMode) -> ClockState {
        ClockState { now: 0, mode, timers: Seq::empty() }
    }

    /// The pending timers are in firing order, and none is overdue.
    pub open spec fn wf(self) -> bool {
        &&& sorted(self.timers)
        &&& forall|i: int| 0 <= i < self.timers.len() ==> self.now <= (
        #[trigger] self.timers[i]).deadline
    }

    /// `instant`, or the present if `instant` is already past.
    pub open spec fn not_before_now(self, instant: u64) -> u64 {
        if instant < self.now {
            self.now
        } else {
            instant
        }
    }

    /// The clock after `task` was set to wake at `deadline`. The timer goes
    /// behind every pending timer of the same or an earlier deadline.
    pub open spec fn schedule_at(self, task: u64, deadline: u64) -> ClockState {
        let at = self.not_before_now(deadline);
        ClockState {
            timers: self.timers.insert(cut(self.timers, at as int), Timer { task, deadline: at }),
            ..self
        }
    }

    /// The clock after `task` was set to wake `delay` from now.
    pub open spec fn schedule(self, task: u64, delay: u64) -> ClockState {
        self.schedule_at(task, (self.now + delay) as u64)
    }

    /// The clock after every timer of `task` was dropped.
    pub open spec fn cancel(self, task: u64) -> ClockState {
        ClockState { timers: self.timers.filter(of_other_task(task)), ..self }
    }

    /// The timers that fire when the clock is moved to `target`, in firing
    /// order.
    pub open spec fn due(self, target: u64) -> Seq<Timer> {
        self.timers.subrange(0, cut(self.timers, self.not_before_now(target) as int))
    }

    /// The clock after it was moved to `target`. Time does not run backwards:
    /// an earlier `target` leaves the time as it is.
    pub open spec fn advance_to(self, target: u64) -> ClockState {
        let t = self.not_before_now(target);
        ClockState {
            now: t,
            timers: self.timers.subrange(cut(self.timers, t as int), self.timers.len() as int),
            ..self
        }
    }

    /// The clock after it was moved forward by `by`.
    pub open spec fn advance(self, by: u64) -> ClockState {
        self.advance_to((self.now + by) as u64)
    }

    /// Whether the first pending timer is due at `limit`.
    pub open spec fn has_due(self, limit: u64) -> bool {
        self.timers.len() > 0 && self.timers[0].deadline <= limit
    }

    /// The clock after its first pending timer fired, if that timer is due
    /// at `limit`: the time is the timer's deadline.
    pub open spec fn fire_next(self, limit: u64) -> ClockState {
        if self.has_due(limit) {
            ClockState {
                now: self.timers[0].deadline,
                timers: self.timers.drop_first(),
                ..self
            }
        } else {
            self
        }
    }

    /// The clock after every pending timer fired: the time is the last
    /// deadline.
    pub open spec fn run_until_idle(self) -> ClockState {
        ClockState {
            now: if self.timers.len() > 0 {
                self.timers.last().deadline
            } else {
                self.now
            },
            timers: Seq::empty(),
            ..self
        }
    }

    /// The clock after the wall clock was read as `elapsed` since the clock
    /// was created. A paused clock takes no notice.
    pub open spec fn observe(self, elapsed: u64) -> ClockState {
        match self.mode {
            ClockMode::RealTime => self.advance_to(elapsed),
            ClockMode::Paused => self,
        }
    }

    /// The timers that fire when the wall clock is read as `elapsed`.
    pub open spec fn due_at_observation(self, elapsed: u64) -> Seq<Timer> {
        match self.mode {
            ClockMode::RealTime => self.due(elapsed),
            ClockMode::Paused => Seq::empty(),
        }
    }

    /// Scheduling keeps the clock well formed and the time unchanged; the
    /// new timer stands where the timers due at its deadline end.
    pub proof fn lemma_schedule_at(self, task: u64, deadline: u64)
        requires
            self.wf(),
        ensures
            self.schedule_at(task, deadline).wf(),
            self.schedule_at(task, deadline).now == self.now,
            self.schedule_at(task, deadline).timers.len() == self.timers.len() + 1,
            is_cut(
                self.timers,
                self.not_before_now(deadline) as int,
                cut(self.timers, self.not_before_now(deadline) as int),
            ),
            self.schedule_at(task, deadline).timers[cut(
                self.timers,
                self.not_before_now(deadline) as int,
            )] == (Timer { task, deadline: self.not_before_now(deadline) }),
    {
        let at = self.not_before_now(deadline);
        let k = cut(self.timers, at as int);
        let t = Timer { task, deadline: at };
        lemma_cut_exists(self.timers, at as int);
        self.timers.insert_ensures(k, t);
        let after = self.timers.insert(k, t);
        assert forall|i: int, j: int| 0 <= i <= j < after.len() implies (
        #[trigger] after[i]).deadline <= (#[trigger] after[j]).deadline by {
            if j < k {
                assert(after[i] == self.timers[i] && after[j] == self.timers[j]);
            } else if j == k {
                if i < k {
                    assert(after[i] == self.timers[i]);
                }
            } else {
                assert(after[j] == self.timers[j - 1]);
                if i < k {
                    assert(after[i] == self.timers[i]);
                } else if i > k {
                    assert(after[i] == self.timers[i - 1]);
                }
            }
        }
        assert forall|i: int| 0 <= i < after.len() implies self.now <= (
        #[trigger] after[i]).deadline by {
            if i < k {
                assert(after[i] == self.timers[i]);
            } else if i > k {
                assert(after[i] == self.timers[i - 1]);
            }
        }
    }

    /// Moving the clock fires exactly the timers whose deadline is reached,
    /// in their pending order, keeps the others in theirs, and leaves the
    /// clock well formed at the later of its time and the target.
    pub proof fn lemma_advance_to(self, target: u64)
        requires
            self.wf(),
        ensures
            self.advance_to(target).wf(),
            self.advance_to(target).now >= self.now,
            self.advance_to(target).now >= target,
            self.due(target) + self.advance_to(target).timers == self.timers,
            forall|i: int|
                0 <= i < self.timers.len() ==> ((#[trigger] self.timers[i]).deadline
                    <= self.advance_to(target).now <==> i < self.due(target).len()),
    {
        let t = self.not_before_now(target);
        let k = cut(self.timers, t as int);
        lemma_cut_exists(self.timers, t as int);
        let rest = self.advance_to(target).timers;
        assert forall|i: int, j: int| 0 <= i <= j < rest.len() implies (
        #[trigger] rest[i]).deadline <= (#[trigger] rest[j]).deadline by {
            assert(rest[i] == self.timers[k + i] && rest[j] == self.timers[k + j]);
        }
        assert forall|i: int| 0 <= i < rest.len() implies t <= (#[trigger] rest[i]).deadline by {
            assert(rest[i] == self.timers[k + i]);
        }
        assert(self.due(target) + rest =~= self.timers);
    }

    /// Stable order. Two tasks set to wake at the same instant stand next to
    /// each other among the pending timers, the one scheduled first in
    /// front, so they fire together and in the order they were scheduled.
    pub proof fn lemma_same_instant_in_order(self, first: u64, second: u64, deadline: u64)
        requires
            self.wf(),
        ensures
            ({
                let at = self.not_before_now(deadline);
                let k = cut(self.timers, at as int);
                let after = self.schedule_at(first, deadline).schedule_at(second, deadline);
                &&& after.wf()
                &&& 0 <= k < k + 1 < after.timers.len()
                &&& after.timers[k] == (Timer { task: first, deadline: at })
                &&& after.timers[k + 1] == (Timer { task: second, deadline: at })
            }),
    {
        let at = self.not_before_now(deadline);
        let k = cut(self.timers, at as int);
        let one = self.schedule_at(first, deadline);
        self.lemma_schedule_at(first, deadline);
        one.lemma_schedule_at(second, deadline);
        self.timers.insert_ensures(k, Timer { task: first, deadline: at });
        assert forall|i: int| 0 <= i < k + 1 implies (#[trigger] one.timers[i]).deadline <= at by {
            if i < k {
                assert(one.timers[i] == self.timers[i]);
            }
        }
        assert forall|i: int| k + 1 <= i < one.timers.len() implies (
        #[trigger] one.timers[i]).deadline > at by {
            assert(one.timers[i] == self.timers[i - 1]);
        }
        assert(is_cut(one.timers, at as int, k + 1));
        lemma_cut_is(one.timers, at as int, k + 1);
        one.timers.insert_ensures(k + 1, Timer { task: second, deadline: at });
    }
}

/// The clock and its scheduler.
pub struct VirtualClock {
    now: u64,
    mode: ClockMode,
    timers: Vec<Timer>,
}

impl View for VirtualClock {
    type V = ClockState;

    closed spec fn view(&self) -> ClockState {
        ClockState { now: self.now, mode: self.mode, timers: self.timers@ }
    }
}

impl VirtualClock {
    /// The clock's invariant: the pending timers are in firing order, and
    /// none is overdue.
    pub open spec fn wf(&self) -> bool {
        self@.wf()
    }

    /// A clock at time zero with nothing pending.
    pub fn new(mode: ClockMode) -> (r: VirtualClock)
        ensures
            r.wf(),
            r@ == ClockState::new(mode),
    {
        VirtualClock { now: 0, mode, timers: Vec::new() }
    }

    /// The present time.
    pub fn now(&self) -> (r: u64)
        ensures
            r == self@.now,
    {
        self.now
    }

    /// Who moves the clock at present.
    pub fn mode(&self) -> (r: ClockMode)
        ensures
            r == self@.mode,
    {
        self.mode
    }

    /// Stops the clock from following the wall clock.
    pub fn pause(&mut self)
        ensures
            final(self)@ == (ClockState { mode: ClockMode::Paused, ..old(self)@ }),
    {
        self.mode = ClockMode::Paused;
    }

    /// Lets the clock follow the wall clock.
    pub fn resume(&mut self)
        ensures
            final(self)@ == (ClockState { mode: ClockMode::RealTime, ..old(self)@ }),
    {
        self.mode = ClockMode::RealTime;
    }

    /// The number of pending timers.
    pub fn pending(&self) -> (n: usize)
        ensures
            n == self@.timers.len(),
    {
        self.timers.len()
    }

    /// The deadline of the timer that fires next, if one is pending.
    pub fn next_deadline(&self) -> (r: Option<u64>)
        ensures
            r == if self@.timers.len() > 0 {
                Some(self@.timers[0].deadline)
            } else {
                None
            },
    {
        if self.timers.len() > 0 {
            Some(self.timers[0].deadline)
        } else {
            None
        }
    }

    /// The number of leading timers due at `limit`.
    fn count_due(&self, limit: u64) -> (k: usize)
        requires
            self.wf(),
        ensures
            k == cut(self@.timers, limit as int),
            is_cut(self@.timers, limit as int, k as int),
    {
        let n = self.timers.len();
        let mut k: usize = 0;
        while k < n && self.timers[k].deadline <= limit
            invariant
                k <= n,
                n == self.timers.len(),
                forall|i: int| 0 <= i < k ==> (#[trigger] self.timers[i]).deadline <= limit,
            decreases n - k,
        {
            k += 1;
        }
        proof {
            assert forall|i: int| k <= i < n implies (#[trigger] self.timers[i]).deadline
                > limit by {
                assert(self@.timers[k as int].deadline <= self@.timers[i].deadline);
            }
            lemma_cut_is(self@.timers, limit as int, k as int);
        }
        k
    }

    /// Sets `task` to wake at `deadline`, or at once if `deadline` is past.
    pub fn schedule_at(&mut self, task: u64, deadline: u64)
        requires
            old(self).wf(),
        ensures
            final(self).wf(),
            final(self)@ == old(self)@.schedule_at(task, deadline),
            is_cut(
                old(self)@.timers,
                old(self)@.not_before_now(deadline) as int,
                cut(old(self)@.timers, old(self)@.not_before_now(deadline) as int),
            ),
    {
        let at = if deadline < self.now {
            self.now
        } else {
            deadline
        };
        let k = self.count_due(at);
        proof {
            self@.lemma_schedule_at(task, deadline);
        }
        self.timers.insert(k, Timer { task, deadline: at });
    }

    /// Sets `task` to wake `delay` from now.
    pub fn schedule(&mut self, task: u64, delay: u64)
        requires
            old(self).wf(),
            old(self)@.now + delay <= u64::MAX,
        ensures
            final(self).wf(),
            final(self)@ == old(self)@.schedule(task, delay),
            is_cut(
                old(self)@.timers,
                old(self)@.now + delay,
                cut(old(self)@.timers, old(self)@.now + delay),
            ),
    {
        self.schedule_at(task, self.now + delay);
    }

    /// Drops every timer of `task` and returns how many there were.
    pub fn cancel(&mut self, task: u64) -> (dropped: usize)
        requires
            old(self).wf(),
        ensures
            final(self).wf(),
            final(self)@ == old(self)@.cancel(task),
            dropped == old(self)@.timers.len() - final(self)@.timers.len(),
    {
        let n = self.timers.len();
        let mut kept: Vec<Timer> = Vec::new();
        let mut i: usize = 0;
        proof {
            assert(self.timers@.subrange(0, 0) =~= Seq::empty());
            reveal(Seq::filter);
        }
        while i < n
            invariant
                i <= n,
                n == self.timers.len(),
                self.wf(),
                *self == *old(self),
                kept@ == self.timers@.subrange(0, i as int).filter(of_other_task(task)),
                kept.len() <= i,
                sorted(kept@),
                forall|a: int| 0 <= a < kept.len() ==> self.now <= (#[trigger] kept[a]).deadline,
                forall|a: int, j: int|
                    0 <= a < kept.len() && i <= j < n ==> (#[trigger] kept[a]).deadline <= (
                    #[trigger] self.timers[j]).deadline,
            decreases n - i,
        {
            let t = self.timers[i];
            proof {
                let seen = self.timers@.subrange(0, i as int);
                assert(self.timers@.subrange(0, i + 1) =~= seen.push(t));
                seen.lemma_filter_push(t, of_other_task(task));
                assert forall|j: int| i < j < n implies t.deadline <= (
                #[trigger] self.timers[j]).deadline by {
                    assert(self@.timers[i as int].deadline <= self@.timers[j].deadline);
                }
                assert(self.now <= self@.timers[i as int].deadline);
            }
            if t.task != task {
                kept.push(t);
            }
            i += 1;
        }
        assert(self.timers@.subrange(0, n as int) =~= self.timers@);
        let dropped = n - kept.len();
        self.timers = kept;
        dropped
    }

    /// Fires the first pending timer if it is due at `limit`, moving the
    /// clock to its deadline. Used to run the woken task before any later
    /// timer fires.
    pub fn fire_next(&mut self, limit: u64) -> (r: Option<Timer>)
        requires
            old(self).wf(),
        ensures
            final(self).wf(),
            final(self)@ == old(self)@.fire_next(limit),
            final(self)@.now >= old(self)@.now,
            r == if old(self)@.has_due(limit) {
                Some(old(self)@.timers[0])
            } else {
                None
            },
    {
        if self.timers.len() > 0 && self.timers[0].deadline <= limit {
            let t = self.timers.remove(0);
            proof {
                let before = old(self)@.timers;
                assert(self.timers@ =~= before.drop_first());
                assert forall|i: int, j: int| 0 <= i <= j < self.timers@.len() implies (
                #[trigger] self.timers@[i]).deadline <= (#[trigger] self.timers@[j]).deadline by {
                    assert(self.timers@[i] == before[i + 1] && self.timers@[j] == before[j + 1]);
                }
                assert forall|i: int| 0 <= i < self.timers@.len() implies t.deadline <= (
                #[trigger] self.timers@[i]).deadline by {
                    assert(self.timers@[i] == before[i + 1]);
                    assert(before[0].deadline <= before[i + 1].deadline);
                }
            }
            self.now = t.deadline;
            Some(t)
        } else {
            None
        }
    }

    /// Moves the clock to `target`, or leaves it if `target` is past, and
    /// returns the timers that fire, in firing order.
    pub fn advance_to(&mut self, target: u64) -> (fired: Vec<Timer>)
        requires
            old(self).wf(),
        ensures
            final(self).wf(),
            final(self)@ == old(self)@.advance_to(target),
            final(self)@.now >= old(self)@.now,
            fired@ == old(self)@.due(target),
            fired@ + final(self)@.timers == old(self)@.timers,
            forall|i: int|
                0 <= i < fired@.len() ==> (#[trigger] fired@[i]).deadline <= final(self)@.now,
            forall|i: int|
                0 <= i < final(self)@.timers.len() ==> (#[trigger] final(self)@.timers[i]).deadline
                    > final(self)@.now,
    {
        let t = if target < self.now {
            self.now
        } else {
            target
        };
        let k = self.count_due(t);
        proof {
            self@.lemma_advance_to(target);
            assert forall|i: int| 0 <= i < k implies (#[trigger] self@.due(target)[i]).deadline
                <= t by {
                assert(self@.due(target)[i] == self@.timers[i]);
            }
            assert forall|i: int| 0 <= i < self@.advance_to(target).timers.len() implies (
            #[trigger] self@.advance_to(target).timers[i]).deadline > t by {
                assert(self@.advance_to(target).timers[i] == self@.timers[k + i]);
            }
        }
        let mut fired = self.timers.split_off(k);
        std::mem::swap(&mut self.timers, &mut fired);
        self.now = t;
        fired
    }

    /// Moves the clock forward by `by` and returns the timers that fire, in
    /// firing order.
    pub fn advance(&mut self, by: u64) -> (fired: Vec<Timer>)
        requires
            old(self).wf(),
            old(self)@.now + by <= u64::MAX,
        ensures
            final(self).wf(),
            final(self)@ == old(self)@.advance(by),
            fired@ == old(self)@.due((old(self)@.now + by) as u64),
            fired@ + final(self)@.timers == old(self)@.timers,
            forall|i: int|
                0 <= i < fired@.len() ==> (#[trigger] fired@[i]).deadline <= final(self)@.now,
            forall|i: int|
                0 <= i < final(self)@.timers.len() ==> (#[trigger] final(self)@.timers[i]).deadline
                    > final(self)@.now,
    {
        self.advance_to(self.now + by)
    }

    /// Fires every pending timer, moving the clock to the last deadline, and
    /// returns the timers in firing order.
    pub fn run_until_idle(&mut self) -> (fired: Vec<Timer>)
        requires
            old(self).wf(),
        ensures
            final(self).wf(),
            final(self)@ == old(self)@.run_until_idle(),
            final(self)@.now >= old(self)@.now,
            fired@ == old(self)@.timers,
    {
        let n = self.timers.len();
        if n > 0 {
            self.now = self.timers[n - 1].deadline;
        }
        let mut fired: Vec<Timer> = Vec::new();
        std::mem::swap(&mut self.timers, &mut fired);
        fired
    }

    /// Reports that the wall clock reads `elapsed` since the clock was
    /// created. A real-time clock moves there and returns the timers that
    /// fire; a paused clock does nothing.
    pub fn observe(&mut self, elapsed: u64) -> (fired: Vec<Timer>)
        requires
            old(self).wf(),
        ensures
            final(self).wf(),
            final(self)@ == old(self)@.observe(elapsed),
            final(self)@.now >= old(self)@.now,
            fired@ == old(self)@.due_at_observation(elapsed),
    {
        match self.mode {
            ClockMode::RealTime => self.advance_to(elapsed),
            ClockMode::Paused => Vec::new(),
        }
    }
}

/// A periodic schedule: a first tick, and one more every period after it.
pub struct Interval {
    period: u64,
    next: u64,
}

impl Interval {
    /// The time between two ticks.
    pub closed spec fn spec_period(&self) -> u64 {
        self.period
    }

    /// The instant of the next tick.
    pub closed spec fn spec_next_tick(&self) -> u64 {
        self.next
    }

    /// The instant of the tick that comes `k` ticks after the next one.
    pub open spec fn tick_time(&self, k: nat) -> int {
        self.spec_next_tick() + k * self.spec_period()
    }

    /// An interval whose first tick is at `start`.
    pub fn new(start: u64, period: u64) -> (r: Interval)
        requires
            period > 0,
        ensures
            r.spec_period() == period,
            r.spec_next_tick() == start,
    {
        Interval { period, next: start }
    }

    /// The time between two ticks.
    #[verifier::when_used_as_spec(spec_period)]
    pub fn period(&self) -> (r: u64)
        ensures
            r == self.spec_period(),
    {
        self.period
    }

    /// The instant of the next tick.
    #[verifier::when_used_as_spec(spec_next_tick)]
    pub fn next_tick(&self) -> (r: u64)
        ensures
            r == self.spec_next_tick(),
    {
        self.next
    }

    /// Takes the next tick: returns its instant and moves on by one period,
    /// however late the tick is taken.
    pub fn tick(&mut self) -> (at: u64)
        requires
            old(self).next_tick() + old(self).period() <= u64::MAX,
        ensures
            at == old(self).next_tick(),
            final(self).period() == old(self).period(),
            final(self).next_tick() == old(self).next_tick() + old(self).period(),
            forall|k: nat| #[trigger] final(self).tick_time(k) == old(self).tick_time(k + 1),
        no_unwind
    {
        let at = self.next;
        self.next = self.next + self.period;
        proof {
            assert forall|k: nat| #[trigger] self.tick_time(k) == old(self).tick_time(k + 1) by {
                assert((k + 1) * self.period == k * self.period + self.period)
                    by (nonlinear_arith);
            }
        }
        at
    }
}

} // verus!
