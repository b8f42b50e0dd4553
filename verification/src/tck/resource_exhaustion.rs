//! Exhausted resources.
use crate::tck::{TckCase, TckSuite};
use vstd::prelude::*;

verus! {

/// The suite of this topic.
pub fn suite() -> (r: TckSuite)
    ensures
        r.name@ == "resource_exhaustion"@,
        r.case_names() == seq![
            "channel_queue_exhaustion_emits_busy_then_retry_after"@,
            "thread_pool_starvation_emits_busy_then_retry_after"@,
        ],
{
    let mut cases: Vec<TckCase> = Vec::new();
    cases.push(TckCase { name: "channel_queue_exhaustion_emits_busy_then_retry_after" });
    cases.push(TckCase { name: "thread_pool_starvation_emits_busy_then_retry_after" });
    let r = TckSuite { name: "resource_exhaustion", cases };
    assert(r.case_names() =~= seq![
        "channel_queue_exhaustion_emits_busy_then_retry_after"@,
        "thread_pool_starvation_emits_busy_then_retry_after"@,
    ]);
    r
}

} // verus!
