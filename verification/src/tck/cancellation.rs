//! Cancellation.
use crate::tck::{TckCase, TckSuite};
use vstd::prelude::*;

verus! {

/// The suite of this topic.
pub fn suite() -> (r: TckSuite)
    ensures
        r.name@ == "cancellation"@,
        r.case_names() == seq![
            "cancellation_idempotency_and_propagation"@,
        ],
{
    let mut cases: Vec<TckCase> = Vec::new();
    cases.push(TckCase { name: "cancellation_idempotency_and_propagation" });
    let r = TckSuite { name: "cancellation", cases };
    assert(r.case_names() =~= seq![
        "cancellation_idempotency_and_propagation"@,
    ]);
    r
}

} // verus!
