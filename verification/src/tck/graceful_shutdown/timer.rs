//! A clock that stands still until a test lets a sleep end.
use std::collections::VecDeque;
use vstd::prelude::*;

verus! {

/// The longest time that the clock can show, in nanoseconds.
pub const LONGEST_NANOS: u128 = 18_446_744_073_709_551_615_999_999_999;

/// A sleep that was asked for.
#[derive(Debug, Clone, Copy, PartialEq, Eq, Structural)]
pub struct SleepState {
    /// How long it lasts, in nanoseconds.
    pub duration: u128,
    /// Whether it has ended.
    pub fired: bool,
    /// Whether it was handed to the test.
    pub consumed: bool,
    /// Whether the sleeper has gone.
    pub cancelled: bool,
    /// Whether the sleeper waits to be woken.
    pub waiting: bool,
}

/// A sleep that nobody has looked at yet.
pub open spec fn asleep(duration: u128) -> SleepState {
    SleepState { duration, fired: false, consumed: false, cancelled: false, waiting: false }
}

impl SleepState {
    /// A sleep that nobody has looked at yet.
    pub fn new(duration: u128) -> (r: Self)
        ensures
            r == asleep(duration),
    {
        SleepState { duration, fired: false, consumed: false, cancelled: false, waiting: false }
    }

    /// Hands the sleep out, unless that was done before.
    pub fn consume(&mut self) -> (r: bool)
        ensures
            r == !old(self).consumed,
            *final(self) == (SleepState { consumed: true, ..*old(self) }),
    {
        let first = !self.consumed;
        self.consumed = true;
        first
    }

    /// Ends the sleep, unless it has ended. Says whether it ends now, and whether the sleeper has to
    /// be woken.
    pub fn fire(&mut self) -> (r: (bool, bool))
        ensures
            r.0 == !old(self).fired,
            r.1 == (!old(self).fired && old(self).waiting),
            *final(self) == (if old(self).fired {
                *old(self)
            } else {
                SleepState { fired: true, waiting: false, ..*old(self) }
            }),
    {
        if self.fired {
            return (false, false);
        }
        let wake = self.waiting;
        self.fired = true;
        self.waiting = false;
        (true, wake)
    }

    /// Asks whether the sleep has ended. If not, the sleeper waits to be woken.
    pub fn poll(&mut self) -> (r: bool)
        ensures
            r == old(self).fired,
            *final(self) == (if old(self).fired {
                *old(self)
            } else {
                SleepState { waiting: true, ..*old(self) }
            }),
    {
        if self.fired {
            return true;
        }
        self.waiting = true;
        false
    }

    /// The sleeper goes. It is not woken any more.
    pub fn cancel(&mut self)
        ensures
            *final(self) == (if old(self).cancelled {
                *old(self)
            } else {
                SleepState { cancelled: true, waiting: false, ..*old(self) }
            }),
    {
        if !self.cancelled {
            self.cancelled = true;
            self.waiting = false;
        }
    }
}

/// The clock, the sleeps that were asked for, those that no test has asked for yet, and how long
/// those lasted that have ended.
#[derive(Debug)]
pub struct MockTimer {
    now: u128,
    sleeps: Vec<SleepState>,
    pending: VecDeque<usize>,
    fired_log: Vec<u128>,
}

/// The state of a clock.
pub struct TimerView {
    /// What it shows.
    pub now: int,
    /// The sleeps that were asked for.
    pub sleeps: Seq<SleepState>,
    /// The sleeps that no test has asked for yet, oldest first.
    pub pending: Seq<usize>,
    /// How long the sleeps lasted that have ended, oldest first.
    pub fired_log: Seq<u128>,
}

impl View for MockTimer {
    type V = TimerView;

    closed spec fn view(&self) -> TimerView {
        TimerView {
            now: self.now as int,
            sleeps: self.sleeps@,
            pending: self.pending@,
            fired_log: self.fired_log@,
        }
    }
}

/// The sum of durations.
pub open spec fn total(log: Seq<u128>) -> int
    decreases log.len(),
{
    if log.len() == 0 {
        0
    } else {
        total(log.drop_last()) + log.last()
    }
}

/// A clock shows the time that its sleeps took, and all sleeps that are pending were asked for.
pub open spec fn is_sound(timer: TimerView) -> bool {
    &&& timer.now == total(timer.fired_log)
    &&& timer.now <= LONGEST_NANOS
    &&& forall|i: int|
        0 <= i < timer.pending.len() ==> (#[trigger] timer.pending[i]) < timer.sleeps.len()
}

/// Whether a sleep can be handed out: its sleeper is there, and it was not handed out before.
pub open spec fn can_be_handed_out(sleep: SleepState) -> bool {
    !sleep.cancelled && !sleep.consumed
}

/// The first pending sleep that can be handed out.
pub open spec fn next_sleep(sleeps: Seq<SleepState>, pending: Seq<usize>) -> Option<usize>
    decreases pending.len(),
{
    if pending.len() == 0 {
        None
    } else if can_be_handed_out(sleeps[pending[0] as int]) {
        Some(pending[0])
    } else {
        next_sleep(sleeps, pending.drop_first())
    }
}

/// What is pending behind the first sleep that can be handed out.
pub open spec fn behind_next(sleeps: Seq<SleepState>, pending: Seq<usize>) -> Seq<usize>
    decreases pending.len(),
{
    if pending.len() == 0 {
        pending
    } else if can_be_handed_out(sleeps[pending[0] as int]) {
        pending.drop_first()
    } else {
        behind_next(sleeps, pending.drop_first())
    }
}

/// A clock behind the end of a sleep that had not ended.
pub open spec fn after_fire(timer: TimerView, at: int) -> TimerView {
    let sleep = timer.sleeps[at];
    if sleep.fired {
        timer
    } else {
        TimerView {
            now: timer.now + sleep.duration,
            sleeps: timer.sleeps.update(at, SleepState { fired: true, waiting: false, ..sleep }),
            fired_log: timer.fired_log.push(sleep.duration),
            ..timer
        }
    }
}

impl Default for MockTimer {
    fn default() -> (r: Self)
        ensures
            is_sound(r@),
            r@ == (TimerView {
                now: 0,
                sleeps: Seq::empty(),
                pending: Seq::empty(),
                fired_log: Seq::empty(),
            }),
    {
        MockTimer::new()
    }
}

impl MockTimer {
    /// A clock that shows zero and that nobody sleeps by.
    pub fn new() -> (r: Self)
        ensures
            is_sound(r@),
            r@ == (TimerView {
                now: 0,
                sleeps: Seq::empty(),
                pending: Seq::empty(),
                fired_log: Seq::empty(),
            }),
    {
        let r = MockTimer {
            now: 0,
            sleeps: Vec::new(),
            pending: VecDeque::new(),
            fired_log: Vec::new(),
        };
        assert(r@.sleeps =~= Seq::empty());
        assert(r@.pending =~= Seq::empty());
        assert(r@.fired_log =~= Seq::empty());
        r
    }

    /// What the clock shows, in nanoseconds.
    pub fn timer_now(&self) -> (r: u128)
        ensures
            r == self@.now,
    {
        self.now
    }

    /// How long the sleeps lasted that have ended, oldest first.
    pub fn fired_durations(&self) -> (r: &[u128])
        ensures
            r@ == self@.fired_log,
    {
        self.fired_log.as_slice()
    }

    /// A sleeper asks for a sleep. Gives its number.
    pub fn register_sleep(&mut self, duration: u128) -> (r: usize)
        requires
            is_sound(old(self)@),
        ensures
            is_sound(final(self)@),
            r == old(self)@.sleeps.len(),
            final(self)@ == (TimerView {
                sleeps: old(self)@.sleeps.push(asleep(duration)),
                pending: old(self)@.pending.push(r),
                ..old(self)@
            }),
    {
        let at: usize = self.sleeps.len();
        self.sleeps.push(SleepState::new(duration));
        self.pending.push_back(at);
        assert forall|i: int| 0 <= i < self@.pending.len() implies (#[trigger] self@.pending[i])
            < self@.sleeps.len() by {
            if i < old(self)@.pending.len() {
                assert(old(self)@.pending[i] < old(self)@.sleeps.len());
            }
        }
        at
    }

    /// The sleeper asks whether its sleep has ended.
    pub fn poll_sleep(&mut self, at: usize) -> (r: bool)
        requires
            is_sound(old(self)@),
            at < old(self)@.sleeps.len(),
        ensures
            is_sound(final(self)@),
            r == old(self)@.sleeps[at as int].fired,
            final(self)@ == (if r {
                old(self)@
            } else {
                TimerView {
                    sleeps: old(self)@.sleeps.update(
                        at as int,
                        SleepState { waiting: true, ..old(self)@.sleeps[at as int] },
                    ),
                    ..old(self)@
                }
            }),
    {
        let mut sleep = self.sleeps[at];
        let ready = sleep.poll();
        self.sleeps.set(at, sleep);
        if ready {
            assert(self@.sleeps =~= old(self)@.sleeps);
        }
        ready
    }

    /// The sleeper goes.
    pub fn drop_sleep(&mut self, at: usize)
        requires
            is_sound(old(self)@),
            at < old(self)@.sleeps.len(),
        ensures
            is_sound(final(self)@),
            final(self)@.sleeps.len() == old(self)@.sleeps.len(),
            final(self)@.sleeps[at as int].cancelled,
            !old(self)@.sleeps[at as int].cancelled ==> final(self)@.sleeps == old(
                self,
            )@.sleeps.update(
                at as int,
                SleepState { cancelled: true, waiting: false, ..old(self)@.sleeps[at as int] },
            ),
            old(self)@.sleeps[at as int].cancelled ==> final(self)@.sleeps == old(self)@.sleeps,
            final(self)@.now == old(self)@.now,
            final(self)@.pending == old(self)@.pending,
            final(self)@.fired_log == old(self)@.fired_log,
    {
        let mut sleep = self.sleeps[at];
        sleep.cancel();
        self.sleeps.set(at, sleep);
        proof {
            lemma_still_sound(old(self)@, self@);
            assert(old(self)@.sleeps[at as int].cancelled ==> self@.sleeps =~= old(self)@.sleeps);
        }
    }

    /// Hands out the oldest pending sleep whose sleeper is there. Sleeps whose sleepers have gone are
    /// passed over for good.
    pub fn try_pop_sleep(&mut self) -> (r: Option<usize>)
        requires
            is_sound(old(self)@),
        ensures
            is_sound(final(self)@),
            r == next_sleep(old(self)@.sleeps, old(self)@.pending),
            final(self)@.pending == behind_next(old(self)@.sleeps, old(self)@.pending),
            final(self)@.now == old(self)@.now,
            final(self)@.fired_log == old(self)@.fired_log,
            match r {
                Some(at) => {
                    &&& at < old(self)@.sleeps.len()
                    &&& can_be_handed_out(old(self)@.sleeps[at as int])
                    &&& final(self)@.sleeps == old(self)@.sleeps.update(
                        at as int,
                        SleepState { consumed: true, ..old(self)@.sleeps[at as int] },
                    )
                },
                None => final(self)@.sleeps == old(self)@.sleeps,
            },
    {
        let ghost before = self@;
        loop
            invariant
                before == old(self)@,
                is_sound(before),
                is_sound(self@),
                self@.sleeps == before.sleeps,
                self@.now == before.now,
                self@.fired_log == before.fired_log,
                next_sleep(before.sleeps, before.pending) == next_sleep(
                    before.sleeps,
                    self@.pending,
                ),
                behind_next(before.sleeps, before.pending) == behind_next(
                    before.sleeps,
                    self@.pending,
                ),
            decreases self@.pending.len(),
        {
            let ghost waiting = self@.pending;
            match self.pending.pop_front() {
                Some(at) => {
                    assert(waiting[0] == at && at < self@.sleeps.len());
                    assert(self@.pending =~= waiting.drop_first());
                    assert forall|i: int| 0 <= i < self@.pending.len() implies (
                    #[trigger] self@.pending[i]) < self@.sleeps.len() by {
                        assert(self@.pending[i] == waiting[i + 1]);
                    }
                    let mut sleep = self.sleeps[at];
                    if !sleep.cancelled {
                        let first = sleep.consume();
                        self.sleeps.set(at, sleep);
                        if first {
                            return Some(at);
                        }
                        assert(self@.sleeps =~= before.sleeps);
                    }
                },
                None => {
                    return None;
                },
            }
        }
    }

    /// Ends a sleep: the clock moves on by its duration. Says whether the sleeper has to be woken. A
    /// sleep that has ended does not end again.
    pub fn fire(&mut self, at: usize) -> (r: bool)
        requires
            is_sound(old(self)@),
            at < old(self)@.sleeps.len(),
            !old(self)@.sleeps[at as int].fired ==> old(self)@.now + old(
                self,
            )@.sleeps[at as int].duration <= LONGEST_NANOS,
        ensures
            is_sound(final(self)@),
            final(self)@ == after_fire(old(self)@, at as int),
            r == (!old(self)@.sleeps[at as int].fired && old(self)@.sleeps[at as int].waiting),
    {
        let mut sleep = self.sleeps[at];
        let duration: u128 = sleep.duration;
        let (now, wake) = sleep.fire();
        self.sleeps.set(at, sleep);
        if now {
            self.fired_log.push(duration);
            self.now = self.now + duration;
            assert(self@.fired_log.drop_last() =~= old(self)@.fired_log);
        } else {
            assert(self@.sleeps =~= old(self)@.sleeps);
        }
        proof {
            lemma_still_sound(old(self)@, self@);
        }
        wake
    }
}

/// A clock is sound if it adds up and no sleep is lost.
proof fn lemma_still_sound(before: TimerView, after: TimerView)
    requires
        is_sound(before),
        after.pending == before.pending,
        after.sleeps.len() == before.sleeps.len(),
        after.now == total(after.fired_log),
        after.now <= LONGEST_NANOS,
    ensures
        is_sound(after),
{
    assert forall|i: int| 0 <= i < after.pending.len() implies (#[trigger] after.pending[i])
        < after.sleeps.len() by {
        assert(before.pending[i] < before.sleeps.len());
    }
}

/// A sleep ends once: ending it again changes nothing.
pub proof fn law_a_sleep_ends_once(timer: TimerView, at: int)
    requires
        0 <= at < timer.sleeps.len(),
    ensures
        after_fire(after_fire(timer, at), at) == after_fire(timer, at),
{
}

/// The clock shows the time that all sleeps took that have ended, and never runs backwards.
pub proof fn law_the_clock_adds_up(timer: TimerView, at: int)
    requires
        is_sound(timer),
        0 <= at < timer.sleeps.len(),
    ensures
        after_fire(timer, at).now == total(after_fire(timer, at).fired_log),
        timer.now <= after_fire(timer, at).now,
{
    let after = after_fire(timer, at);
    if !timer.sleeps[at].fired {
        assert(after.fired_log.drop_last() =~= timer.fired_log);
    }
}

/// What is handed out once is not handed out again.
pub proof fn law_a_sleep_is_handed_out_once(sleeps: Seq<SleepState>, pending: Seq<usize>)
    requires
        forall|i: int| 0 <= i < pending.len() ==> (#[trigger] pending[i]) < sleeps.len(),
        next_sleep(sleeps, pending) is Some,
    ensures
        ({
            let at = next_sleep(sleeps, pending)->0;
            let after = sleeps.update(
                at as int,
                SleepState { consumed: true, ..sleeps[at as int] },
            );
            next_sleep(after, behind_next(sleeps, pending)) != Some(at)
        }),
    decreases pending.len(),
{
    let at = next_sleep(sleeps, pending)->0;
    let after = sleeps.update(at as int, SleepState { consumed: true, ..sleeps[at as int] });
    lemma_next_can_be_handed_out(sleeps, pending);
    lemma_behind_next(sleeps, pending);
    let rest = behind_next(sleeps, pending);
    if next_sleep(after, rest) is Some {
        lemma_next_can_be_handed_out(after, rest);
    }
}

/// The sleep that is next was asked for and can be handed out.
proof fn lemma_next_can_be_handed_out(sleeps: Seq<SleepState>, pending: Seq<usize>)
    requires
        forall|i: int| 0 <= i < pending.len() ==> (#[trigger] pending[i]) < sleeps.len(),
        next_sleep(sleeps, pending) is Some,
    ensures
        next_sleep(sleeps, pending)->0 < sleeps.len(),
        can_be_handed_out(sleeps[next_sleep(sleeps, pending)->0 as int]),
    decreases pending.len(),
{
    if !can_be_handed_out(sleeps[pending[0] as int]) {
        let rest = pending.drop_first();
        assert forall|i: int| 0 <= i < rest.len() implies (#[trigger] rest[i]) < sleeps.len() by {
            assert(rest[i] == pending[i + 1]);
        }
        lemma_next_can_be_handed_out(sleeps, rest);
    }
}

/// What is pending behind the next sleep was pending before.
proof fn lemma_behind_next(sleeps: Seq<SleepState>, pending: Seq<usize>)
    requires
        forall|i: int| 0 <= i < pending.len() ==> (#[trigger] pending[i]) < sleeps.len(),
    ensures
        forall|i: int|
            0 <= i < behind_next(sleeps, pending).len() ==> (#[trigger] behind_next(
                sleeps,
                pending,
            )[i]) < sleeps.len(),
    decreases pending.len(),
{
    if pending.len() > 0 {
        let rest = pending.drop_first();
        assert forall|i: int| 0 <= i < rest.len() implies (#[trigger] rest[i]) < sleeps.len() by {
            assert(rest[i] == pending[i + 1]);
        }
        if can_be_handed_out(sleeps[pending[0] as int]) {
            assert(behind_next(sleeps, pending) == rest);
        } else {
            lemma_behind_next(sleeps, rest);
            assert(behind_next(sleeps, pending) == behind_next(sleeps, rest));
        }
    }
}

/// The sleep that is handed out is the oldest pending one whose sleeper is there and that was not
/// handed out before; those in front of it are passed over for good, and those behind it stay pending
/// in order.
pub proof fn law_oldest_sleep_is_next(sleeps: Seq<SleepState>, pending: Seq<usize>, k: int)
    ensures
        ({
            let can = |i: int|
                !sleeps[pending[i] as int].cancelled && !sleeps[pending[i] as int].consumed;
            &&& 0 <= k < pending.len() && can(k) && (forall|i: int| 0 <= i < k ==> !#[trigger] can(i))
                ==> next_sleep(sleeps, pending) == Some(pending[k]) && behind_next(sleeps, pending)
                == pending.skip(k + 1)
            &&& (forall|i: int| 0 <= i < pending.len() ==> !#[trigger] can(i)) ==> next_sleep(
                sleeps,
                pending,
            ) is None && behind_next(sleeps, pending).len() == 0
        }),
    decreases pending.len(),
{
    let can = |i: int| !sleeps[pending[i] as int].cancelled && !sleeps[pending[i] as int].consumed;
    if pending.len() > 0 {
        let rest = pending.drop_first();
        let later = |i: int| !sleeps[rest[i] as int].cancelled && !sleeps[rest[i] as int].consumed;
        law_oldest_sleep_is_next(sleeps, rest, k - 1);
        assert(can(0) == can_be_handed_out(sleeps[pending[0] as int]));
        assert forall|i: int| 0 <= i < rest.len() implies #[trigger] later(i) == can(i + 1) by {
            assert(rest[i] == pending[i + 1]);
        }
        if 0 <= k < pending.len() && can(k) && (forall|i: int| 0 <= i < k ==> !#[trigger] can(i)) {
            if k == 0 {
                assert(pending.skip(1) =~= rest);
            } else {
                assert(later(k - 1));
                assert forall|i: int| 0 <= i < k - 1 implies !#[trigger] later(i) by {
                    assert(!can(i + 1));
                }
                assert(!can(0));
                assert(rest.skip(k) =~= pending.skip(k + 1));
            }
        }
        if forall|i: int| 0 <= i < pending.len() ==> !#[trigger] can(i) {
            assert(!can(0));
            assert forall|i: int| 0 <= i < rest.len() implies !#[trigger] later(i) by {
                assert(!can(i + 1));
            }
        }
    }
}

/// A sleep that ends moves the clock on by its duration, which is noted last, and wakes its sleeper; no
/// other sleep changes, and none is handed out. One that has ended changes nothing.
pub proof fn law_the_end_of_a_sleep(timer: TimerView, at: int, other: int)
    requires
        0 <= at < timer.sleeps.len(),
        0 <= other < timer.sleeps.len(),
        other != at,
    ensures
        ({
            let after = after_fire(timer, at);
            let sleep = timer.sleeps[at];
            &&& sleep.fired ==> after == timer
            &&& !sleep.fired ==> {
                &&& after.now == timer.now + sleep.duration
                &&& after.fired_log.len() == timer.fired_log.len() + 1
                &&& after.fired_log.drop_last() == timer.fired_log
                &&& after.fired_log.last() == sleep.duration
                &&& after.sleeps.len() == timer.sleeps.len()
                &&& after.sleeps[at].fired && !after.sleeps[at].waiting
                &&& after.sleeps[at].duration == sleep.duration
                &&& after.sleeps[at].consumed == sleep.consumed
                &&& after.sleeps[at].cancelled == sleep.cancelled
                &&& after.sleeps[other] == timer.sleeps[other]
                &&& after.pending == timer.pending
            }
        }),
{
    assert(!timer.sleeps[at].fired ==> after_fire(timer, at).fired_log.drop_last()
        =~= timer.fired_log);
}

/// Durations add up, one more by what it is; a new sleep has its duration, and nothing has happened to
/// it.
pub proof fn law_durations_add_up(log: Seq<u128>, duration: u128)
    ensures
        total(Seq::empty()) == 0,
        total(log.push(duration)) == total(log) + duration,
        asleep(duration).duration == duration,
        !asleep(duration).fired && !asleep(duration).consumed && !asleep(duration).cancelled
            && !asleep(duration).waiting,
{
    assert(log.push(duration).drop_last() =~= log);
}

} // verus!
