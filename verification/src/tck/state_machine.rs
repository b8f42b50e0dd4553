//! The context of a call.
use crate::tck::{TckCase, TckSuite};
use vstd::prelude::*;

verus! {

/// The suite of this topic.
pub fn suite() -> (r: TckSuite)
    ensures
        r.name@ == "state_machine"@,
        r.case_names() == seq![
            "call_context_injects_default_flow_budget"@,
            "call_context_preserves_inputs_and_execution_view"@,
        ],
{
    let mut cases: Vec<TckCase> = Vec::new();
    cases.push(TckCase { name: "call_context_injects_default_flow_budget" });
    cases.push(TckCase { name: "call_context_preserves_inputs_and_execution_view" });
    let r = TckSuite { name: "state_machine", cases };
    assert(r.case_names() =~= seq![
        "call_context_injects_default_flow_budget"@,
        "call_context_preserves_inputs_and_execution_view"@,
    ]);
    r
}

} // verus!
