//! The server side of an INVITE transaction, and how CANCEL races with the final response.
use crate::sip::error::SipTransactionError;
use vstd::prelude::*;

verus! {

/// Where an INVITE server transaction stands.
#[derive(Debug, Clone, Copy, PartialEq, Eq, Structural)]
pub enum InviteServerTransactionState {
    /// The INVITE has arrived and nothing was answered.
    Trying,
    /// A provisional response was sent.
    Proceeding,
    /// The final response is settled.
    Completed,
    /// The transaction is over.
    Terminated,
}

impl InviteServerTransactionState {
    /// The name of the state.
    pub open spec fn name(&self) -> &'static str {
        match self {
            InviteServerTransactionState::Trying => "Trying",
            InviteServerTransactionState::Proceeding => "Proceeding",
            InviteServerTransactionState::Completed => "Completed",
            InviteServerTransactionState::Terminated => "Terminated",
        }
    }

    /// The name of the state.
    pub fn as_str(&self) -> (r: &'static str)
        ensures
            r == self.name(),
    {
        match self {
            InviteServerTransactionState::Trying => "Trying",
            InviteServerTransactionState::Proceeding => "Proceeding",
            InviteServerTransactionState::Completed => "Completed",
            InviteServerTransactionState::Terminated => "Terminated",
        }
    }
}

/// What becomes of the final response when a CANCEL arrives.
#[derive(Debug, Clone, Copy, PartialEq, Eq, Structural)]
pub enum FinalResponseDisposition {
    /// The CANCEL settled the final response.
    Generated(u16),
    /// The final response was settled before.
    AlreadySent(u16),
}

/// The answer to a CANCEL.
#[derive(Debug, Clone, Copy, PartialEq, Eq)]
pub struct CancelOutcome {
    /// Status of the answer to the CANCEL itself.
    pub cancel_response: u16,
    /// What becomes of the final response to the INVITE.
    pub final_response: Option<FinalResponseDisposition>,
    /// Whether the CANCEL ended the INVITE.
    pub cancelled_invite: bool,
    /// State after the CANCEL.
    pub state: InviteServerTransactionState,
}

impl CancelOutcome {
    /// A CANCEL is always answered with 200.
    fn accepted(
        final_response: Option<FinalResponseDisposition>,
        cancelled_invite: bool,
        state: InviteServerTransactionState,
    ) -> (r: Self)
        ensures
            r == (CancelOutcome { cancel_response: 200, final_response, cancelled_invite, state }),
    {
        CancelOutcome { cancel_response: 200, final_response, cancelled_invite, state }
    }
}

/// What a transaction knows.
pub struct TransactionView {
    /// Where the transaction stands.
    pub state: InviteServerTransactionState,
    /// The final response, once it is settled.
    pub final_response: Option<u16>,
    /// Whether a CANCEL settled the final response.
    pub cancel_applied: bool,
}

/// An INVITE server transaction.
#[derive(Debug, Clone, PartialEq, Eq)]
pub struct InviteServerTransaction {
    state: InviteServerTransactionState,
    final_response: Option<u16>,
    cancel_applied: bool,
}

impl View for InviteServerTransaction {
    type V = TransactionView;

    closed spec fn view(&self) -> TransactionView {
        TransactionView {
            state: self.state,
            final_response: self.final_response,
            cancel_applied: self.cancel_applied,
        }
    }
}

/// Before completion nothing is settled, at completion the final response is; only 487 comes from a
/// CANCEL.
pub open spec fn is_consistent(t: TransactionView) -> bool {
    &&& t.state is Trying || t.state is Proceeding ==> t.final_response is None
    &&& t.state is Completed ==> t.final_response is Some
    &&& t.cancel_applied ==> t.final_response == Some(487u16)
}

/// The start of a transaction.
pub open spec fn started() -> TransactionView {
    TransactionView {
        state: InviteServerTransactionState::Trying,
        final_response: None,
        cancel_applied: false,
    }
}

/// A provisional response was sent.
pub open spec fn after_provisional(t: TransactionView) -> TransactionView {
    if t.state is Trying {
        TransactionView { state: InviteServerTransactionState::Proceeding, ..t }
    } else {
        t
    }
}

/// A final response is to be recorded.
pub open spec fn after_final(t: TransactionView, status: u16) -> Result<
    TransactionView,
    SipTransactionError,
> {
    match t.state {
        InviteServerTransactionState::Terminated => Err(
            SipTransactionError::TransactionTerminated,
        ),
        InviteServerTransactionState::Completed => if t.final_response == Some(status) {
            Ok(t)
        } else {
            Err(
                SipTransactionError::FinalResponseConflict {
                    existing: match t.final_response {
                        Some(existing) => existing,
                        None => status,
                    },
                    attempted: status,
                },
            )
        },
        _ => Ok(
            TransactionView {
                state: InviteServerTransactionState::Completed,
                final_response: Some(status),
                ..t
            },
        ),
    }
}

/// A CANCEL arrives: before completion it settles 487 as the final response.
pub open spec fn after_cancel(t: TransactionView) -> Result<
    (TransactionView, CancelOutcome),
    SipTransactionError,
> {
    if t.state is Terminated {
        Err(SipTransactionError::TransactionTerminated)
    } else if t.state is Completed || t.final_response is Some {
        Ok(
            (
                TransactionView { state: InviteServerTransactionState::Completed, ..t },
                CancelOutcome {
                    cancel_response: 200,
                    final_response: match t.final_response {
                        Some(status) => Some(FinalResponseDisposition::AlreadySent(status)),
                        None => None,
                    },
                    cancelled_invite: false,
                    state: InviteServerTransactionState::Completed,
                },
            ),
        )
    } else {
        Ok(
            (
                TransactionView {
                    state: InviteServerTransactionState::Completed,
                    final_response: Some(487),
                    cancel_applied: true,
                },
                CancelOutcome {
                    cancel_response: 200,
                    final_response: Some(FinalResponseDisposition::Generated(487)),
                    cancelled_invite: true,
                    state: InviteServerTransactionState::Completed,
                },
            ),
        )
    }
}

/// The transaction ends.
pub open spec fn after_end(t: TransactionView) -> TransactionView {
    TransactionView { state: InviteServerTransactionState::Terminated, ..t }
}

impl Default for InviteServerTransaction {
    fn default() -> (r: Self)
        ensures
            r@ == started(),
    {
        InviteServerTransaction::new()
    }
}

impl InviteServerTransaction {
    /// A transaction for an INVITE that has just arrived.
    pub fn new() -> (r: Self)
        ensures
            r@ == started(),
    {
        InviteServerTransaction {
            state: InviteServerTransactionState::Trying,
            final_response: None,
            cancel_applied: false,
        }
    }

    /// Where the transaction stands.
    pub fn state(&self) -> (r: InviteServerTransactionState)
        ensures
            r == self@.state,
    {
        self.state
    }

    /// The final response, once it is settled.
    pub fn final_response(&self) -> (r: Option<u16>)
        ensures
            r == self@.final_response,
    {
        self.final_response
    }

    /// Whether a CANCEL settled the final response.
    pub fn cancel_applied(&self) -> (r: bool)
        ensures
            r == self@.cancel_applied,
    {
        self.cancel_applied
    }

    /// Records a provisional response.
    pub fn advance_to_proceeding(&mut self)
        ensures
            final(self)@ == after_provisional(old(self)@),
    {
        if matches!(self.state, InviteServerTransactionState::Trying) {
            self.state = InviteServerTransactionState::Proceeding;
        }
    }

    /// Records a final response.
    pub fn record_final_response(&mut self, status: u16) -> (r: Result<(), SipTransactionError>)
        ensures
            match r {
                Ok(_) => after_final(old(self)@, status) == Ok::<
                    TransactionView,
                    SipTransactionError,
                >(final(self)@),
                Err(e) => after_final(old(self)@, status) == Err::<
                    TransactionView,
                    SipTransactionError,
                >(e) && final(self)@ == old(self)@,
            },
    {
        match self.state {
            InviteServerTransactionState::Trying | InviteServerTransactionState::Proceeding => {
                self.final_response = Some(status);
                self.state = InviteServerTransactionState::Completed;
                Ok(())
            },
            InviteServerTransactionState::Completed => match self.final_response {
                Some(existing) => if existing == status {
                    Ok(())
                } else {
                    Err(SipTransactionError::FinalResponseConflict { existing, attempted: status })
                },
                None => Err(
                    SipTransactionError::FinalResponseConflict {
                        existing: status,
                        attempted: status,
                    },
                ),
            },
            InviteServerTransactionState::Terminated => Err(
                SipTransactionError::TransactionTerminated,
            ),
        }
    }

    /// Answers a CANCEL.
    pub fn handle_cancel(&mut self) -> (r: Result<CancelOutcome, SipTransactionError>)
        ensures
            match r {
                Ok(outcome) => after_cancel(old(self)@) == Ok::<
                    (TransactionView, CancelOutcome),
                    SipTransactionError,
                >((final(self)@, outcome)),
                Err(e) => after_cancel(old(self)@) == Err::<
                    (TransactionView, CancelOutcome),
                    SipTransactionError,
                >(e) && final(self)@ == old(self)@,
            },
    {
        match self.state {
            InviteServerTransactionState::Trying | InviteServerTransactionState::Proceeding => {
                match self.final_response {
                    None => {
                        self.final_response = Some(487);
                        self.cancel_applied = true;
                        self.state = InviteServerTransactionState::Completed;
                        Ok(
                            CancelOutcome::accepted(
                                Some(FinalResponseDisposition::Generated(487)),
                                true,
                                self.state,
                            ),
                        )
                    },
                    Some(status) => {
                        self.state = InviteServerTransactionState::Completed;
                        Ok(
                            CancelOutcome::accepted(
                                Some(FinalResponseDisposition::AlreadySent(status)),
                                false,
                                self.state,
                            ),
                        )
                    },
                }
            },
            InviteServerTransactionState::Completed => Ok(
                CancelOutcome::accepted(
                    match self.final_response {
                        Some(status) => Some(FinalResponseDisposition::AlreadySent(status)),
                        None => None,
                    },
                    false,
                    self.state,
                ),
            ),
            InviteServerTransactionState::Terminated => Err(
                SipTransactionError::TransactionTerminated,
            ),
        }
    }

    /// Ends the transaction.
    pub fn terminate(&mut self)
        ensures
            final(self)@ == after_end(old(self)@),
    {
        self.state = InviteServerTransactionState::Terminated;
    }
}

/// Every operation keeps a transaction consistent.
pub proof fn law_consistency_is_kept(t: TransactionView, status: u16)
    requires
        is_consistent(t),
    ensures
        is_consistent(started()),
        is_consistent(after_provisional(t)),
        after_final(t, status) matches Ok(next) ==> is_consistent(next),
        after_cancel(t) matches Ok((next, _)) ==> is_consistent(next),
        is_consistent(after_end(t)),
{
}

/// A settled final response is never replaced: whatever happens, it stays what it is.
pub proof fn law_final_response_is_settled_once(t: TransactionView, status: u16)
    requires
        is_consistent(t),
        t.final_response is Some,
    ensures
        after_provisional(t).final_response == t.final_response,
        after_final(t, status) matches Ok(next) ==> next.final_response == t.final_response,
        after_cancel(t) matches Ok((next, _)) ==> next.final_response == t.final_response,
        after_end(t).final_response == t.final_response,
{
}

/// Until the transaction ends, a CANCEL is answered with 200, and a second CANCEL changes nothing
/// and reports the same final response as already sent.
pub proof fn law_cancel_is_idempotent(t: TransactionView)
    requires
        is_consistent(t),
        !(t.state is Terminated),
    ensures
        after_cancel(t) matches Ok((next, outcome)) && {
            &&& outcome.cancel_response == 200
            &&& next.final_response is Some
            &&& (outcome.final_response == Some(
                FinalResponseDisposition::Generated(next.final_response->0),
            ) <==> outcome.cancelled_invite)
            &&& after_cancel(next) matches Ok((again, second)) && {
                &&& again == next
                &&& !second.cancelled_invite
                &&& second.cancel_response == 200
                &&& second.final_response == Some(
                    FinalResponseDisposition::AlreadySent(next.final_response->0),
                )
            }
        },
{
}

/// A CANCEL that comes before the final response wins: 487 is settled, and any other final response
/// is refused and named together with 487.
pub proof fn law_cancel_before_final_response_wins(t: TransactionView, status: u16)
    requires
        is_consistent(t),
        t.state is Trying || t.state is Proceeding,
    ensures
        after_cancel(t) matches Ok((next, outcome)) && {
            &&& outcome.cancelled_invite
            &&& next.cancel_applied
            &&& next.final_response == Some(487u16)
            &&& after_final(next, 487) == Ok::<TransactionView, SipTransactionError>(next)
            &&& status != 487 ==> after_final(next, status) == Err::<
                TransactionView,
                SipTransactionError,
            >(SipTransactionError::FinalResponseConflict { existing: 487, attempted: status })
        },
{
}

/// A final response that comes before the CANCEL wins: the CANCEL reports it and ends nothing.
pub proof fn law_final_response_before_cancel_wins(t: TransactionView, status: u16)
    requires
        is_consistent(t),
        t.state is Trying || t.state is Proceeding,
    ensures
        after_final(t, status) matches Ok(next) && (after_cancel(next) matches Ok((last, outcome))
            && {
            &&& last == next
            &&& !outcome.cancelled_invite
            &&& outcome.final_response == Some(FinalResponseDisposition::AlreadySent(status))
        }),
{
}

/// Once a transaction is over, final responses and CANCEL are refused.
pub proof fn law_ended_transaction_refuses(t: TransactionView, status: u16)
    ensures
        after_final(after_end(t), status) == Err::<TransactionView, SipTransactionError>(
            SipTransactionError::TransactionTerminated,
        ),
        after_cancel(after_end(t)) == Err::<(TransactionView, CancelOutcome), SipTransactionError>(
            SipTransactionError::TransactionTerminated,
        ),
        after_provisional(after_end(t)) == after_end(t),
{
}

/// A transaction begins in `Trying` with nothing settled. A provisional response leads from `Trying` to
/// `Proceeding` and does nothing else. The first final response, whichever status it has, leads from
/// either to `Completed` and is settled, without a CANCEL; the same one again changes nothing, and
/// another is refused with both named. The end leads to `Terminated` and settles nothing.
pub proof fn law_steps_of_a_transaction(t: TransactionView, status: u16)
    ensures
        started().state == InviteServerTransactionState::Trying,
        started().final_response is None && !started().cancel_applied,
        t.state == InviteServerTransactionState::Trying ==> after_provisional(t).state
            == InviteServerTransactionState::Proceeding,
        t.state != InviteServerTransactionState::Trying ==> after_provisional(t).state == t.state,
        after_provisional(t).final_response == t.final_response,
        after_provisional(t).cancel_applied == t.cancel_applied,
        t.state == InviteServerTransactionState::Trying || t.state
            == InviteServerTransactionState::Proceeding ==> {
            &&& after_final(t, status) matches Ok(next)
            &&& next.state == InviteServerTransactionState::Completed
            &&& next.final_response == Some(status)
            &&& next.cancel_applied == t.cancel_applied
        },
        t.state == InviteServerTransactionState::Completed ==> (t.final_response matches Some(
            existing,
        ) ==> {
            &&& status == existing ==> after_final(t, status) == Ok::<
                TransactionView,
                SipTransactionError,
            >(t)
            &&& status != existing ==> after_final(t, status) == Err::<
                TransactionView,
                SipTransactionError,
            >(SipTransactionError::FinalResponseConflict { existing, attempted: status })
        }),
        after_end(t).state == InviteServerTransactionState::Terminated,
        after_end(t).final_response == t.final_response,
        after_end(t).cancel_applied == t.cancel_applied,
{
}

/// A CANCEL of a transaction that has not ended leads to `Completed`, and is answered with 200 and
/// with that state.
pub proof fn law_cancel_completes(t: TransactionView)
    requires
        t.state != InviteServerTransactionState::Terminated,
    ensures
        ({
            &&& after_cancel(t) matches Ok((next, outcome))
            &&& next.state == InviteServerTransactionState::Completed
            &&& outcome.state == InviteServerTransactionState::Completed
            &&& outcome.cancel_response == 200
            &&& t.final_response matches Some(status) ==> {
                &&& next.final_response == Some(status)
                &&& next.cancel_applied == t.cancel_applied
                &&& outcome.final_response == Some(FinalResponseDisposition::AlreadySent(status))
                &&& !outcome.cancelled_invite
            }
            &&& t.final_response is None && t.state != InviteServerTransactionState::Completed ==> {
                &&& next.final_response == Some(487u16)
                &&& next.cancel_applied
                &&& outcome.final_response == Some(FinalResponseDisposition::Generated(487))
                &&& outcome.cancelled_invite
            }
        }),
{
}

/// The states are called what they are.
pub proof fn law_states_have_their_names()
    ensures
        InviteServerTransactionState::Trying.name()@ == "Trying"@,
        InviteServerTransactionState::Proceeding.name()@ == "Proceeding"@,
        InviteServerTransactionState::Completed.name()@ == "Completed"@,
        InviteServerTransactionState::Terminated.name()@ == "Terminated"@,
{
}

} // verus!
