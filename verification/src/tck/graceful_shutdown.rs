//! Graceful shutdown.
pub mod recorder;
pub mod timer;

use crate::tck::{TckCase, TckSuite};
use vstd::prelude::*;

verus! {

/// The suite of this topic.
pub fn suite() -> (r: TckSuite)
    ensures
        r.name@ == "graceful_shutdown"@,
        r.case_names() == seq![
            "channel_fin_invocation_is_forwarded_once"@,
            "channel_half_close_waits_for_remote_ack"@,
            "expired_deadline_triggers_immediate_force_close"@,
            "pending_channel_times_out_and_forces_close"@,
            "channel_half_close_requires_dual_ack_steps"@,
            "channel_closed_future_error_reports_failure"@,
        ],
{
    let mut cases: Vec<TckCase> = Vec::new();
    cases.push(TckCase { name: "channel_fin_invocation_is_forwarded_once" });
    cases.push(TckCase { name: "channel_half_close_waits_for_remote_ack" });
    cases.push(TckCase { name: "expired_deadline_triggers_immediate_force_close" });
    cases.push(TckCase { name: "pending_channel_times_out_and_forces_close" });
    cases.push(TckCase { name: "channel_half_close_requires_dual_ack_steps" });
    cases.push(TckCase { name: "channel_closed_future_error_reports_failure" });
    let r = TckSuite { name: "graceful_shutdown", cases };
    assert(r.case_names() =~= seq![
        "channel_fin_invocation_is_forwarded_once"@,
        "channel_half_close_waits_for_remote_ack"@,
        "expired_deadline_triggers_immediate_force_close"@,
        "pending_channel_times_out_and_forces_close"@,
        "channel_half_close_requires_dual_ack_steps"@,
        "channel_closed_future_error_reports_failure"@,
    ]);
    r
}

} // verus!
