//! Budgets and readiness.
use crate::tck::{TckCase, TckSuite};
use vstd::prelude::*;

verus! {

/// The suite of this topic.
pub fn suite() -> (r: TckSuite)
    ensures
        r.name@ == "backpressure"@,
        r.case_names() == seq![
            "budget_try_consume_and_refund_contract"@,
            "ready_state_busy_and_budget_conversions"@,
        ],
{
    let mut cases: Vec<TckCase> = Vec::new();
    cases.push(TckCase { name: "budget_try_consume_and_refund_contract" });
    cases.push(TckCase { name: "ready_state_busy_and_budget_conversions" });
    let r = TckSuite { name: "backpressure", cases };
    assert(r.case_names() =~= seq![
        "budget_try_consume_and_refund_contract"@,
        "ready_state_busy_and_budget_conversions"@,
    ]);
    r
}

} // verus!
