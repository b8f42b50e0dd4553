//! Names of metrics and fields.
use crate::tck::{TckCase, TckSuite};
use vstd::prelude::*;

verus! {

/// The suite of this topic.
pub fn suite() -> (r: TckSuite)
    ensures
        r.name@ == "observability"@,
        r.case_names() == seq![
            "observability_default_contract_fields_are_stable"@,
            "observability_custom_contract_reflects_inputs"@,
        ],
{
    let mut cases: Vec<TckCase> = Vec::new();
    cases.push(TckCase { name: "observability_default_contract_fields_are_stable" });
    cases.push(TckCase { name: "observability_custom_contract_reflects_inputs" });
    let r = TckSuite { name: "observability", cases };
    assert(r.case_names() =~= seq![
        "observability_default_contract_fields_are_stable"@,
        "observability_custom_contract_reflects_inputs"@,
    ]);
    r
}

} // verus!
