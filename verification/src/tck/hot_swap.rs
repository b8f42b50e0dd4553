//! Changing a pipeline while it runs.
use crate::tck::{TckCase, TckSuite};
use crate::text::push_decimal;
use vstd::prelude::*;
use vstd::string::*;

verus! {

use crate::text::{decimal, string_views};

/// The suite of this topic.
pub fn suite() -> (r: TckSuite)
    ensures
        r.name@ == "hot_swap"@,
        r.case_names() == seq![
            "hot_swap_inserts_handler_without_dropping_messages"@,
            "hot_swap_replaces_handler_preserves_epoch_and_ordering"@,
            "hot_swap_addition_during_inflight_dispatch_awaits_epoch_barrier"@,
        ],
{
    let mut cases: Vec<TckCase> = Vec::new();
    cases.push(TckCase { name: "hot_swap_inserts_handler_without_dropping_messages" });
    cases.push(TckCase { name: "hot_swap_replaces_handler_preserves_epoch_and_ordering" });
    cases.push(TckCase { name: "hot_swap_addition_during_inflight_dispatch_awaits_epoch_barrier" });
    let r = TckSuite { name: "hot_swap", cases };
    assert(r.case_names() =~= seq![
        "hot_swap_inserts_handler_without_dropping_messages"@,
        "hot_swap_replaces_handler_preserves_epoch_and_ordering"@,
        "hot_swap_addition_during_inflight_dispatch_awaits_epoch_barrier"@,
    ]);
    r
}

/// What a handler notes when a message passes: its name and the number of the message.
pub open spec fn event_text(name: Seq<char>, id: usize) -> Seq<char> {
    name + ":"@ + decimal(id as int)
}

/// Notes that a message passes a handler.
pub fn record_read(name: &str, id: usize, events: &mut Vec<String>)
    ensures
        string_views(final(events)@) == string_views(old(events)@).push(event_text(name@, id)),
{
    let mut text = String::new();
    text.append(name);
    text.append(":");
    push_decimal(&mut text, id as u64);
    assert(text@ =~= event_text(name@, id));
    events.push(text);
    assert(string_views(events@) =~= string_views(old(events)@).push(text@));
}

/// A gate that holds up the first message and lets all others pass.
#[derive(Debug, Clone, Copy, PartialEq, Eq, Structural)]
pub struct FirstGate {
    /// Whether the first message has come.
    pub consumed: bool,
}

impl FirstGate {
    /// A gate that no message has come to.
    pub fn new() -> (r: Self)
        ensures
            !r.consumed,
    {
        FirstGate { consumed: false }
    }

    /// A message comes. Says whether it has to wait.
    pub fn arrive(&mut self) -> (r: bool)
        ensures
            r == !old(self).consumed,
            final(self).consumed,
    {
        let first = !self.consumed;
        self.consumed = true;
        first
    }
}

/// What a handler notes is its name, a colon, and the number of the message.
pub proof fn law_events_name_handler_and_message(name: Seq<char>, id: usize)
    ensures
        event_text(name, id) == name + seq![':'] + decimal(id as int),
{
    reveal_strlit(":");
    assert(":"@ =~= seq![':']);
}

} // verus!
