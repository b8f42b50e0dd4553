//! Reloading a configuration while it is in use.
use crate::tck::{TckCase, TckSuite};
use vstd::prelude::*;

verus! {

/// The suite of this topic, with these cases.
pub fn suite(cases: Vec<TckCase>) -> (r: TckSuite)
    ensures
        r.name@ == "hot_reload"@,
        r.cases == cases,
{
    TckSuite { name: "hot_reload", cases }
}

} // verus!
