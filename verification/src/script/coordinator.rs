//! Scripts that put readiness coordinators through every order of calls.
use vstd::prelude::*;

verus! {

/// What a script does next. A number picks one of the coordinators.
#[derive(Debug, Clone, Copy, PartialEq, Eq, Structural)]
pub enum CoordinatorOp {
    /// Asks whether a call may begin.
    Poll {
        /// Which coordinator.
        id: u8,
    },
    /// Begins a call, if it may.
    Begin {
        /// Which coordinator.
        id: u8,
    },
    /// Says that the call has ended.
    Release {
        /// Which coordinator.
        id: u8,
    },
    /// Forgets the call.
    DropGuard {
        /// Which coordinator.
        id: u8,
    },
    /// Adds a coordinator that shares the state of another.
    Clone {
        /// Which coordinator.
        from: u8,
    },
}

/// What has to be done with the coordinators.
#[derive(Debug, Clone, Copy, PartialEq, Eq, Structural)]
pub enum CoordinatorAction {
    /// Poll this one, and report what it says.
    Poll(usize),
    /// Begin a call on this one, and keep its guard.
    Begin(usize),
    /// Release the guard of this one.
    Release(usize),
    /// Drop the guard of this one.
    DropGuard(usize),
    /// Add a clone of this one.
    Clone(usize),
    /// Nothing.
    Skip,
}

/// What a script knows about a coordinator.
#[derive(Debug, Clone, Copy, PartialEq, Eq, Structural)]
pub struct Slot {
    /// Whether a call may begin.
    pub permit: bool,
    /// Whether the guard of a call is kept.
    pub guard: bool,
}

/// The coordinator that a number picks.
pub open spec fn picked(count: int, id: u8) -> int {
    if count == 0 {
        0
    } else {
        id as int % count
    }
}

/// The coordinator that a number picks out of `count`.
pub fn map_index(count: usize, id: u8) -> (r: usize)
    ensures
        r == picked(count as int, id),
        count > 0 ==> r < count,
{
    if count == 0 {
        0
    } else {
        id as usize % count
    }
}

/// What a script knows about all coordinators.
#[derive(Debug)]
pub struct CoordinatorScript {
    slots: Vec<Slot>,
}

impl View for CoordinatorScript {
    type V = Seq<Slot>;

    closed spec fn view(&self) -> Seq<Slot> {
        self.slots@
    }
}

/// What a step does: the state behind it, and what has to be done.
pub open spec fn coordinator_step(slots: Seq<Slot>, op: CoordinatorOp) -> (
    Seq<Slot>,
    CoordinatorAction,
) {
    let n = slots.len() as int;
    match op {
        CoordinatorOp::Poll { id } => (slots, CoordinatorAction::Poll(picked(n, id) as usize)),
        CoordinatorOp::Begin { id } => {
            let at = picked(n, id);
            if slots[at].permit && !slots[at].guard {
                (
                    slots.update(at, Slot { permit: false, guard: true }),
                    CoordinatorAction::Begin(at as usize),
                )
            } else {
                (slots, CoordinatorAction::Skip)
            }
        },
        CoordinatorOp::Release { id } => {
            let at = picked(n, id);
            (
                slots.update(at, Slot { permit: false, ..slots[at] }),
                if slots[at].guard {
                    CoordinatorAction::Release(at as usize)
                } else {
                    CoordinatorAction::Skip
                },
            )
        },
        CoordinatorOp::DropGuard { id } => {
            let at = picked(n, id);
            (
                slots.update(at, Slot { permit: false, guard: false }),
                if slots[at].guard {
                    CoordinatorAction::DropGuard(at as usize)
                } else {
                    CoordinatorAction::Skip
                },
            )
        },
        CoordinatorOp::Clone { from } => (
            slots.push(Slot { permit: false, guard: false }),
            CoordinatorAction::Clone(picked(n, from) as usize),
        ),
    }
}

impl CoordinatorScript {
    /// One coordinator, on which no call may begin yet.
    pub fn new() -> (r: Self)
        ensures
            r@ == seq![Slot { permit: false, guard: false }],
    {
        let mut slots: Vec<Slot> = Vec::new();
        slots.push(Slot { permit: false, guard: false });
        let r = CoordinatorScript { slots };
        assert(r@ =~= seq![Slot { permit: false, guard: false }]);
        r
    }

    /// How many coordinators there are.
    pub fn count(&self) -> (r: usize)
        ensures
            r == self@.len(),
    {
        self.slots.len()
    }

    /// Decides what to do.
    pub fn step(&mut self, op: CoordinatorOp) -> (r: CoordinatorAction)
        requires
            old(self)@.len() > 0,
        ensures
            (final(self)@, r) == coordinator_step(old(self)@, op),
    {
        let n: usize = self.slots.len();
        match op {
            CoordinatorOp::Poll { id } => CoordinatorAction::Poll(map_index(n, id)),
            CoordinatorOp::Begin { id } => {
                let at: usize = map_index(n, id);
                let slot = self.slots[at];
                if slot.permit && !slot.guard {
                    self.slots.set(at, Slot { permit: false, guard: true });
                    CoordinatorAction::Begin(at)
                } else {
                    CoordinatorAction::Skip
                }
            },
            CoordinatorOp::Release { id } => {
                let at: usize = map_index(n, id);
                let slot = self.slots[at];
                self.slots.set(at, Slot { permit: false, guard: slot.guard });
                if slot.guard {
                    CoordinatorAction::Release(at)
                } else {
                    CoordinatorAction::Skip
                }
            },
            CoordinatorOp::DropGuard { id } => {
                let at: usize = map_index(n, id);
                let slot = self.slots[at];
                self.slots.set(at, Slot { permit: false, guard: false });
                if slot.guard {
                    CoordinatorAction::DropGuard(at)
                } else {
                    CoordinatorAction::Skip
                }
            },
            CoordinatorOp::Clone { from } => {
                let at: usize = map_index(n, from);
                self.slots.push(Slot { permit: false, guard: false });
                CoordinatorAction::Clone(at)
            },
        }
    }

    /// Takes note of what a poll said: whether a call may begin.
    pub fn polled(&mut self, at: usize, ready: bool)
        requires
            at < old(self)@.len(),
        ensures
            final(self)@ == old(self)@.update(
                at as int,
                Slot { permit: ready, ..old(self)@[at as int] },
            ),
    {
        let slot = self.slots[at];
        self.slots.set(at, Slot { permit: ready, guard: slot.guard });
    }
}

/// A call begins only where a call may begin and none is kept, and what it was allowed by is used
/// up: right behind it no other call begins on the same coordinator.
pub proof fn law_one_call_at_a_time(slots: Seq<Slot>, id: u8)
    requires
        slots.len() > 0,
    ensures
        ({
            let at = picked(slots.len() as int, id);
            let (after, action) = coordinator_step(slots, CoordinatorOp::Begin { id });
            &&& action is Begin ==> slots[at].permit && !slots[at].guard && after[at].guard
                && !after[at].permit
            &&& action is Begin ==> coordinator_step(after, CoordinatorOp::Begin { id }).1 is Skip
        }),
{
}

/// Whatever a script does, there is always a coordinator to pick.
pub proof fn law_there_is_a_coordinator(slots: Seq<Slot>, op: CoordinatorOp)
    requires
        slots.len() > 0,
    ensures
        coordinator_step(slots, op).0.len() >= slots.len(),
{
}

/// A number picks the coordinator that is its remainder, and every step leaves all others as they are.
pub proof fn law_steps_touch_one_coordinator(slots: Seq<Slot>, id: u8, other: int)
    requires
        slots.len() > 0,
        0 <= other < slots.len(),
        other != id as int % (slots.len() as int),
    ensures
        picked(slots.len() as int, id) == id as int % (slots.len() as int),
        coordinator_step(slots, CoordinatorOp::Poll { id }).0[other] == slots[other],
        coordinator_step(slots, CoordinatorOp::Begin { id }).0[other] == slots[other],
        coordinator_step(slots, CoordinatorOp::Release { id }).0[other] == slots[other],
        coordinator_step(slots, CoordinatorOp::DropGuard { id }).0[other] == slots[other],
        coordinator_step(slots, CoordinatorOp::Clone { from: id }).0[other] == slots[other],
{
}

/// Polling changes nothing. A call begins exactly where it may and none is kept, and its guard is kept
/// then. Releasing takes the permission and keeps the guard; dropping takes both; each is done only
/// where there is a guard. A clone is one coordinator more, without permission and guard.
pub proof fn law_steps_of_a_script(slots: Seq<Slot>, id: u8)
    requires
        0 < slots.len() <= usize::MAX,
    ensures
        ({
            let at = id as int % (slots.len() as int);
            let slot = slots[at];
            let poll = coordinator_step(slots, CoordinatorOp::Poll { id });
            let begin = coordinator_step(slots, CoordinatorOp::Begin { id });
            let release = coordinator_step(slots, CoordinatorOp::Release { id });
            let dropped = coordinator_step(slots, CoordinatorOp::DropGuard { id });
            let clone = coordinator_step(slots, CoordinatorOp::Clone { from: id });
            &&& poll.0 == slots && poll.1 == CoordinatorAction::Poll(at as usize)
            &&& slot.permit && !slot.guard ==> begin.1 == CoordinatorAction::Begin(at as usize)
                && begin.0.len() == slots.len() && !begin.0[at].permit && begin.0[at].guard
            &&& !slot.permit || slot.guard ==> begin.0 == slots && begin.1 == CoordinatorAction::Skip
            &&& release.0.len() == slots.len() && !release.0[at].permit && release.0[at].guard
                == slot.guard
            &&& slot.guard ==> release.1 == CoordinatorAction::Release(at as usize)
            &&& !slot.guard ==> release.1 == CoordinatorAction::Skip
            &&& dropped.0.len() == slots.len() && !dropped.0[at].permit && !dropped.0[at].guard
            &&& slot.guard ==> dropped.1 == CoordinatorAction::DropGuard(at as usize)
            &&& !slot.guard ==> dropped.1 == CoordinatorAction::Skip
            &&& clone.0.len() == slots.len() + 1 && clone.0.drop_last() == slots
            &&& !clone.0.last().permit && !clone.0.last().guard
            &&& clone.1 == CoordinatorAction::Clone(at as usize)
        }),
{
    let clone = coordinator_step(slots, CoordinatorOp::Clone { from: id });
    assert(clone.0.drop_last() =~= slots);
}

} // verus!
