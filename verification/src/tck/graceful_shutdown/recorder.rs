//! A channel that notes how it is closed, and says that it is closed when a test wants it to.
use vstd::prelude::*;

verus! {

/// How far a channel is with closing.
#[derive(Debug, Clone, Copy, PartialEq, Eq, Structural)]
pub struct ManualClosedState {
    /// Whether it is closed.
    pub completed: bool,
    /// How many acknowledgements are still missing.
    pub pending_steps: usize,
    /// Whether somebody waits to be woken.
    pub waiting: bool,
}

/// Closed, if it was not, with nothing missing and nobody waiting.
pub open spec fn after_complete(state: ManualClosedState) -> ManualClosedState {
    if state.completed {
        state
    } else {
        ManualClosedState { completed: true, pending_steps: 0, waiting: false }
    }
}

/// Behind one acknowledgement. The last one that was missing closes the channel.
pub open spec fn after_step(state: ManualClosedState) -> ManualClosedState {
    if state.pending_steps == 0 {
        state
    } else {
        let next = ManualClosedState {
            pending_steps: (state.pending_steps - 1) as usize,
            ..state
        };
        if state.pending_steps == 1 {
            after_complete(next)
        } else {
            next
        }
    }
}

/// Behind several acknowledgements.
pub open spec fn after_steps(state: ManualClosedState, n: nat) -> ManualClosedState
    decreases n,
{
    if n == 0 {
        state
    } else {
        after_step(after_steps(state, (n - 1) as nat))
    }
}

impl ManualClosedState {
    /// A channel that is open, with no acknowledgement missing.
    pub fn new() -> (r: Self)
        ensures
            r == (ManualClosedState { completed: false, pending_steps: 0, waiting: false }),
    {
        ManualClosedState { completed: false, pending_steps: 0, waiting: false }
    }

    /// Closes the channel. Says whether somebody has to be woken.
    pub fn complete(&mut self) -> (r: bool)
        ensures
            *final(self) == after_complete(*old(self)),
            r == (!old(self).completed && old(self).waiting),
    {
        if self.completed {
            return false;
        }
        let wake = self.waiting;
        self.completed = true;
        self.pending_steps = 0;
        self.waiting = false;
        wake
    }

    /// From now on so many acknowledgements are missing.
    pub fn set_pending_steps(&mut self, steps: usize)
        ensures
            *final(self) == (ManualClosedState {
                completed: false,
                pending_steps: steps,
                ..*old(self)
            }),
    {
        self.pending_steps = steps;
        self.completed = false;
    }

    /// Takes an acknowledgement. Says whether somebody has to be woken.
    pub fn ack_step(&mut self) -> (r: bool)
        ensures
            *final(self) == after_step(*old(self)),
            r == (old(self).pending_steps == 1 && !old(self).completed && old(self).waiting),
    {
        if self.pending_steps == 0 {
            return false;
        }
        self.pending_steps = self.pending_steps - 1;
        if self.pending_steps == 0 {
            self.complete()
        } else {
            false
        }
    }
}

/// As many acknowledgements as are missing close the channel, and no fewer do.
pub proof fn law_all_steps_are_needed(state: ManualClosedState, n: nat)
    requires
        !state.completed,
        n <= state.pending_steps,
        state.pending_steps > 0,
    ensures
        after_steps(state, n).completed == (n == state.pending_steps),
        after_steps(state, n).pending_steps == state.pending_steps - n,
    decreases n,
{
    if n > 0 {
        law_all_steps_are_needed(state, (n - 1) as nat);
    }
}

/// Closing twice is closing once, and an acknowledgement behind it changes nothing.
pub proof fn law_closing_is_final(state: ManualClosedState)
    ensures
        after_complete(after_complete(state)) == after_complete(state),
        state.completed && state.pending_steps == 0 ==> after_step(state) == state,
        after_complete(state).completed,
{
}

/// Why a channel is closed.
#[derive(Debug, Clone, PartialEq, Eq)]
pub struct CloseReason {
    /// Its code.
    pub code: String,
    /// What it says.
    pub message: String,
}

/// What was noted about a channel. `E` is what closing can fail with.
#[derive(Debug)]
pub struct ChannelRecorder<E> {
    graceful_calls: usize,
    force_calls: usize,
    graceful_reasons: Vec<CloseReason>,
    graceful_deadlines: Vec<Option<u128>>,
    closed_state: ManualClosedState,
    closed_completions: usize,
    keep_pending: bool,
    closed_failures: usize,
    closed_drops: usize,
    failure: Option<E>,
    result_recorded: bool,
}

/// What was noted about a channel.
#[verifier::reject_recursive_types(E)]
pub struct RecorderView<E> {
    /// How often it was asked to close.
    pub graceful_calls: usize,
    /// How often it was made to close.
    pub force_calls: usize,
    /// Why it was asked to close.
    pub graceful_reasons: Seq<CloseReason>,
    /// Until when it was asked to close.
    pub graceful_deadlines: Seq<Option<u128>>,
    /// How far it is.
    pub closed_state: ManualClosedState,
    /// How often it was found closed.
    pub closed_completions: usize,
    /// Whether it stays open until a test closes it.
    pub keep_pending: bool,
    /// How often closing was found to have failed.
    pub closed_failures: usize,
    /// How often a wait for it to close was given up or over.
    pub closed_drops: usize,
    /// What closing is to fail with.
    pub failure: Option<E>,
    /// Whether the wait that goes on was answered.
    pub result_recorded: bool,
}

impl<E> View for ChannelRecorder<E> {
    type V = RecorderView<E>;

    closed spec fn view(&self) -> RecorderView<E> {
        RecorderView {
            graceful_calls: self.graceful_calls,
            force_calls: self.force_calls,
            graceful_reasons: self.graceful_reasons@,
            graceful_deadlines: self.graceful_deadlines@,
            closed_state: self.closed_state,
            closed_completions: self.closed_completions,
            keep_pending: self.keep_pending,
            closed_failures: self.closed_failures,
            closed_drops: self.closed_drops,
            failure: self.failure,
            result_recorded: self.result_recorded,
        }
    }
}

/// Nothing noted, of a channel that closes when it is first asked whether it is closed.
pub open spec fn nothing_noted<E>() -> RecorderView<E> {
    RecorderView {
        graceful_calls: 0,
        force_calls: 0,
        graceful_reasons: Seq::empty(),
        graceful_deadlines: Seq::empty(),
        closed_state: ManualClosedState { completed: false, pending_steps: 0, waiting: false },
        closed_completions: 0,
        keep_pending: false,
        closed_failures: 0,
        closed_drops: 0,
        failure: None,
        result_recorded: false,
    }
}

/// The successor of a counter that starts over behind its largest value.
pub open spec fn counted(n: usize) -> usize {
    if n == usize::MAX {
        0
    } else {
        (n + 1) as usize
    }
}

/// The answer to a wait that is over, and what is noted about it. A wait is answered once; further
/// answers say nothing and note nothing.
pub open spec fn answered<E>(noted: RecorderView<E>) -> (RecorderView<E>, Result<(), E>) {
    if noted.result_recorded {
        (noted, Ok(()))
    } else {
        match noted.failure {
            Some(error) => (
                RecorderView {
                    failure: None,
                    closed_failures: counted(noted.closed_failures),
                    result_recorded: true,
                    ..noted
                },
                Err(error),
            ),
            None => (
                RecorderView {
                    closed_completions: counted(noted.closed_completions),
                    result_recorded: true,
                    ..noted
                },
                Ok(()),
            ),
        }
    }
}

/// What becomes of a wait when it is asked: it goes on, or it is answered. A channel that is not
/// kept open closes when it is asked.
pub open spec fn asked<E>(noted: RecorderView<E>) -> (RecorderView<E>, Option<Result<(), E>>) {
    if !noted.closed_state.completed && noted.keep_pending {
        (
            RecorderView {
                closed_state: ManualClosedState { waiting: true, ..noted.closed_state },
                ..noted
            },
            None,
        )
    } else {
        let (after, answer) = answered(
            RecorderView { closed_state: after_complete(noted.closed_state), ..noted },
        );
        (after, Some(answer))
    }
}

impl<E> ChannelRecorder<E> {
    /// Nothing noted, of a channel that closes when it is first asked whether it is closed.
    pub fn new() -> (r: Self)
        ensures
            r@ == nothing_noted::<E>(),
    {
        let r = ChannelRecorder {
            graceful_calls: 0,
            force_calls: 0,
            graceful_reasons: Vec::new(),
            graceful_deadlines: Vec::new(),
            closed_state: ManualClosedState::new(),
            closed_completions: 0,
            keep_pending: false,
            closed_failures: 0,
            closed_drops: 0,
            failure: None,
            result_recorded: false,
        };
        assert(r@.graceful_reasons =~= Seq::empty());
        assert(r@.graceful_deadlines =~= Seq::empty());
        r
    }

    /// The channel is asked to close, until a point in time if there is one.
    pub fn close_graceful(&mut self, reason: CloseReason, deadline: Option<u128>)
        ensures
            final(self)@ == (RecorderView {
                graceful_calls: counted(old(self)@.graceful_calls),
                graceful_reasons: old(self)@.graceful_reasons.push(reason),
                graceful_deadlines: old(self)@.graceful_deadlines.push(deadline),
                ..old(self)@
            }),
    {
        self.graceful_calls = self.graceful_calls.wrapping_add(1);
        self.graceful_reasons.push(reason);
        self.graceful_deadlines.push(deadline);
    }

    /// The channel is made to close.
    pub fn close(&mut self)
        ensures
            final(self)@ == (RecorderView {
                force_calls: counted(old(self)@.force_calls),
                ..old(self)@
            }),
    {
        self.force_calls = self.force_calls.wrapping_add(1);
    }

    /// Closes the channel. Says whether somebody has to be woken.
    pub fn complete_closed(&mut self) -> (r: bool)
        ensures
            final(self)@ == (RecorderView {
                closed_state: after_complete(old(self)@.closed_state),
                ..old(self)@
            }),
            r == (!old(self)@.closed_state.completed && old(self)@.closed_state.waiting),
    {
        self.closed_state.complete()
    }

    /// From now on the channel stays open until a test closes it.
    pub fn keep_closed_pending(&mut self)
        ensures
            final(self)@ == (RecorderView { keep_pending: true, ..old(self)@ }),
    {
        self.keep_pending = true;
    }

    /// From now on the channel stays open until it has so many acknowledgements.
    pub fn require_closed_steps(&mut self, steps: usize)
        ensures
            final(self)@ == (RecorderView {
                keep_pending: true,
                closed_state: ManualClosedState {
                    completed: false,
                    pending_steps: steps,
                    ..old(self)@.closed_state
                },
                ..old(self)@
            }),
    {
        self.keep_pending = true;
        self.closed_state.set_pending_steps(steps);
    }

    /// Takes an acknowledgement. Says whether somebody has to be woken.
    pub fn ack_closed_step(&mut self) -> (r: bool)
        ensures
            final(self)@ == (RecorderView {
                closed_state: after_step(old(self)@.closed_state),
                ..old(self)@
            }),
            r == (old(self)@.closed_state.pending_steps == 1 && !old(self)@.closed_state.completed
                && old(self)@.closed_state.waiting),
    {
        self.closed_state.ack_step()
    }

    /// Closes the channel with an error. Says whether somebody has to be woken.
    pub fn complete_closed_with_error(&mut self, error: E) -> (r: bool)
        ensures
            final(self)@ == (RecorderView {
                failure: Some(error),
                closed_state: after_complete(old(self)@.closed_state),
                ..old(self)@
            }),
            r == (!old(self)@.closed_state.completed && old(self)@.closed_state.waiting),
    {
        self.failure = Some(error);
        self.closed_state.complete()
    }

    /// Somebody begins to wait for the channel to close.
    pub fn reset_result_recording(&mut self)
        ensures
            final(self)@ == (RecorderView { result_recorded: false, ..old(self)@ }),
    {
        self.result_recorded = false;
    }

    /// Answers a wait that is over.
    pub fn take_closed_result(&mut self) -> (r: Result<(), E>)
        ensures
            (final(self)@, r) == answered(old(self)@),
    {
        if self.result_recorded {
            return Ok(());
        }
        self.result_recorded = true;
        match self.failure.take() {
            Some(error) => {
                self.closed_failures = self.closed_failures.wrapping_add(1);
                Err(error)
            },
            None => {
                self.closed_completions = self.closed_completions.wrapping_add(1);
                Ok(())
            },
        }
    }

    /// Somebody who waits asks whether the channel is closed. Without an answer, they wait to be
    /// woken.
    pub fn poll_closed(&mut self) -> (r: Option<Result<(), E>>)
        ensures
            (final(self)@, r) == asked(old(self)@),
    {
        if !self.closed_state.completed {
            if self.keep_pending {
                self.closed_state.waiting = true;
                return None;
            }
            self.closed_state.complete();
        }
        Some(self.take_closed_result())
    }

    /// A wait is given up or over.
    pub fn drop_closed(&mut self)
        ensures
            final(self)@ == (RecorderView {
                closed_drops: counted(old(self)@.closed_drops),
                ..old(self)@
            }),
    {
        self.closed_drops = self.closed_drops.wrapping_add(1);
    }

    /// How often the channel was asked to close.
    pub fn graceful_calls(&self) -> (r: usize)
        ensures
            r == self@.graceful_calls,
    {
        self.graceful_calls
    }

    /// How often the channel was made to close.
    pub fn force_calls(&self) -> (r: usize)
        ensures
            r == self@.force_calls,
    {
        self.force_calls
    }

    /// Why the channel was asked to close.
    pub fn graceful_reasons(&self) -> (r: &[CloseReason])
        ensures
            r@ == self@.graceful_reasons,
    {
        self.graceful_reasons.as_slice()
    }

    /// Until when the channel was asked to close.
    pub fn graceful_deadlines(&self) -> (r: &[Option<u128>])
        ensures
            r@ == self@.graceful_deadlines,
    {
        self.graceful_deadlines.as_slice()
    }

    /// How often the channel was found closed.
    pub fn closed_completion_count(&self) -> (r: usize)
        ensures
            r == self@.closed_completions,
    {
        self.closed_completions
    }

    /// How often closing was found to have failed.
    pub fn closed_failure_count(&self) -> (r: usize)
        ensures
            r == self@.closed_failures,
    {
        self.closed_failures
    }

    /// How often a wait for the channel to close was given up or over.
    pub fn closed_drop_count(&self) -> (r: usize)
        ensures
            r == self@.closed_drops,
    {
        self.closed_drops
    }
}

/// A wait is answered once: asked again, a channel that is closed notes nothing more.
pub proof fn law_a_wait_is_answered_once<E>(noted: RecorderView<E>)
    requires
        asked(noted).1 is Some,
    ensures
        asked(asked(noted).0) == (asked(noted).0, Some(Ok::<(), E>(()))),
{
}

/// A channel that is kept open is not found closed before it is closed, and is found closed right
/// after, with the error that it was closed with.
pub proof fn law_a_kept_channel_closes_on_request<E>(noted: RecorderView<E>, error: E)
    requires
        noted.keep_pending,
        !noted.closed_state.completed,
        !noted.result_recorded,
    ensures
        asked(noted).1 is None,
        asked(
            RecorderView {
                failure: Some(error),
                closed_state: after_complete(asked(noted).0.closed_state),
                ..asked(noted).0
            },
        ).1 == Some(Err::<(), E>(error)),
{
}

/// Closing leaves nothing missing and nobody waiting, and is done once. An acknowledgement takes one off
/// what is missing; the last one closes the channel, and without one missing nothing happens.
pub proof fn law_steps_towards_closing(state: ManualClosedState)
    ensures
        state.completed ==> after_complete(state) == state,
        !state.completed ==> after_complete(state).completed && after_complete(state).pending_steps
            == 0 && !after_complete(state).waiting,
        state.pending_steps == 0 ==> after_step(state) == state,
        state.pending_steps > 1 ==> after_step(state).pending_steps == state.pending_steps - 1
            && after_step(state).completed == state.completed && after_step(state).waiting
            == state.waiting,
        state.pending_steps == 1 ==> after_step(state).pending_steps == 0 && after_step(
            state,
        ).completed,
{
}

/// A wait that is over is answered with the error that closing failed with, which is then gone, and
/// else with success; one of the two counts goes up, and the answer is noted. What was answered is not
/// answered again.
pub proof fn law_answers_are_counted<E>(noted: RecorderView<E>)
    ensures
        ({
            let (after, answer) = answered(noted);
            &&& noted.result_recorded ==> after == noted && answer is Ok
            &&& !noted.result_recorded ==> {
                &&& after.result_recorded
                &&& after == (RecorderView {
                    failure: after.failure,
                    closed_failures: after.closed_failures,
                    closed_completions: after.closed_completions,
                    result_recorded: after.result_recorded,
                    ..noted
                })
                &&& after.failure is None
                &&& noted.failure matches Some(error) ==> answer == Err::<(), E>(error)
                    && after.closed_completions == noted.closed_completions && (
                noted.closed_failures < usize::MAX ==> after.closed_failures
                    == noted.closed_failures + 1)
                &&& noted.failure is None ==> answer is Ok && after.closed_failures
                    == noted.closed_failures && (noted.closed_completions < usize::MAX
                    ==> after.closed_completions == noted.closed_completions + 1)
            }
        }),
        counted(usize::MAX) == 0,
{
}

/// A wait goes on exactly while the channel is kept open and not closed, and its waiter is woken then;
/// else the channel is closed and the wait is answered.
pub proof fn law_waits_go_on_or_end<E>(noted: RecorderView<E>)
    ensures
        ({
            let (after, answer) = asked(noted);
            let open = noted.keep_pending && !noted.closed_state.completed;
            &&& answer is None <==> open
            &&& open ==> after.closed_state.waiting && !after.closed_state.completed
                && after.closed_state.pending_steps == noted.closed_state.pending_steps && after == (
            RecorderView { closed_state: after.closed_state, ..noted })
            &&& !open ==> after.closed_state.completed && answer == Some(answered(noted).1) && after
                == (RecorderView { closed_state: after.closed_state, ..answered(noted).0 })
        }),
{
}

/// At first nothing is noted.
pub proof fn law_nothing_is_noted_at_first<E>()
    ensures
        ({
            let first = nothing_noted::<E>();
            &&& first.graceful_calls == 0 && first.force_calls == 0
            &&& first.graceful_reasons.len() == 0 && first.graceful_deadlines.len() == 0
            &&& !first.closed_state.completed && first.closed_state.pending_steps == 0
            &&& !first.closed_state.waiting && !first.keep_pending && !first.result_recorded
            &&& first.closed_completions == 0 && first.closed_failures == 0 && first.closed_drops == 0
            &&& first.failure is None
        }),
{
}

} // verus!
