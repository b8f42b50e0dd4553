//! Automatic answers to errors.
use crate::tck::{TckCase, TckSuite};
use vstd::prelude::*;

verus! {

/// The suite of this topic.
pub fn suite() -> (r: TckSuite)
    ensures
        r.name@ == "errors"@,
        r.case_names() == seq![
            "resource_exhausted_produces_budget_ready_state"@,
            "retryable_maps_to_retry_after_signal"@,
            "security_violation_triggers_graceful_close"@,
            "protocol_violation_forces_shutdown"@,
            "cancelled_marks_cancellation_token"@,
            "timeout_marks_cancellation_token"@,
            "non_retryable_performs_no_side_effects"@,
        ],
{
    let mut cases: Vec<TckCase> = Vec::new();
    cases.push(TckCase { name: "resource_exhausted_produces_budget_ready_state" });
    cases.push(TckCase { name: "retryable_maps_to_retry_after_signal" });
    cases.push(TckCase { name: "security_violation_triggers_graceful_close" });
    cases.push(TckCase { name: "protocol_violation_forces_shutdown" });
    cases.push(TckCase { name: "cancelled_marks_cancellation_token" });
    cases.push(TckCase { name: "timeout_marks_cancellation_token" });
    cases.push(TckCase { name: "non_retryable_performs_no_side_effects" });
    let r = TckSuite { name: "errors", cases };
    assert(r.case_names() =~= seq![
        "resource_exhausted_produces_budget_ready_state"@,
        "retryable_maps_to_retry_after_signal"@,
        "security_violation_triggers_graceful_close"@,
        "protocol_violation_forces_shutdown"@,
        "cancelled_marks_cancellation_token"@,
        "timeout_marks_cancellation_token"@,
        "non_retryable_performs_no_side_effects"@,
    ]);
    r
}

} // verus!
