//! Suites of conformance cases: what they are called, and how a run of them goes.
pub mod attribute;
pub mod backpressure;
pub mod cancellation;
pub mod errors;
pub mod graceful_shutdown;
pub mod hot_reload;
pub mod hot_swap;
pub mod observability;
pub mod resource_exhaustion;
pub mod slowloris;
pub mod state_machine;

use vstd::prelude::*;
use vstd::string::*;

verus! {

/// A case.
#[derive(Debug, Clone, Copy, PartialEq, Eq)]
pub struct TckCase {
    /// What the case is called.
    pub name: &'static str,
}

/// The cases of one topic.
#[derive(Debug, Clone, PartialEq, Eq)]
pub struct TckSuite {
    /// What the suite is called.
    pub name: &'static str,
    /// Its cases.
    pub cases: Vec<TckCase>,
}

impl TckSuite {
    /// What the cases are called.
    pub open spec fn case_names(&self) -> Seq<Seq<char>> {
        Seq::new(self.cases@.len(), |i: int| self.cases@[i].name@)
    }
}

/// What suites are called.
pub open spec fn suite_names(list: Seq<TckSuite>) -> Seq<Seq<char>> {
    Seq::new(list.len(), |i: int| list[i].name@)
}

/// All suites, in a fixed order. The cases about reloading come from the caller.
pub fn all_suites(hot_reload_cases: Vec<TckCase>) -> (r: Vec<TckSuite>)
    ensures
        suite_names(r@) == seq![
            "backpressure"@,
            "cancellation"@,
            "errors"@,
            "graceful_shutdown"@,
            "state_machine"@,
            "hot_swap"@,
            "hot_reload"@,
            "observability"@,
            "slowloris"@,
            "resource_exhaustion"@,
        ],
        r@[6].cases == hot_reload_cases,
        forall|i: int| 0 <= i < 10 && i != 6 ==> (#[trigger] r@[i]).cases@.len() > 0,
        r@[0].case_names() == seq![
            "budget_try_consume_and_refund_contract"@,
            "ready_state_busy_and_budget_conversions"@,
        ],
        r@[1].case_names() == seq!["cancellation_idempotency_and_propagation"@],
        r@[2].case_names() == seq![
            "resource_exhausted_produces_budget_ready_state"@,
            "retryable_maps_to_retry_after_signal"@,
            "security_violation_triggers_graceful_close"@,
            "protocol_violation_forces_shutdown"@,
            "cancelled_marks_cancellation_token"@,
            "timeout_marks_cancellation_token"@,
            "non_retryable_performs_no_side_effects"@,
        ],
        r@[3].case_names() == seq![
            "channel_fin_invocation_is_forwarded_once"@,
            "channel_half_close_waits_for_remote_ack"@,
            "expired_deadline_triggers_immediate_force_close"@,
            "pending_channel_times_out_and_forces_close"@,
            "channel_half_close_requires_dual_ack_steps"@,
            "channel_closed_future_error_reports_failure"@,
        ],
        r@[4].case_names() == seq![
            "call_context_injects_default_flow_budget"@,
            "call_context_preserves_inputs_and_execution_view"@,
        ],
        r@[5].case_names() == seq![
            "hot_swap_inserts_handler_without_dropping_messages"@,
            "hot_swap_replaces_handler_preserves_epoch_and_ordering"@,
            "hot_swap_addition_during_inflight_dispatch_awaits_epoch_barrier"@,
        ],
        r@[7].case_names() == seq![
            "observability_default_contract_fields_are_stable"@,
            "observability_custom_contract_reflects_inputs"@,
        ],
        r@[8].case_names() == seq![
            "slow_reader_drains_within_budget"@,
            "slow_reader_exceeding_budget_is_rejected"@,
        ],
        r@[9].case_names() == seq![
            "channel_queue_exhaustion_emits_busy_then_retry_after"@,
            "thread_pool_starvation_emits_busy_then_retry_after"@,
        ],
{
    let mut list: Vec<TckSuite> = Vec::new();
    list.push(self::backpressure::suite());
    list.push(self::cancellation::suite());
    list.push(self::errors::suite());
    list.push(self::graceful_shutdown::suite());
    list.push(self::state_machine::suite());
    list.push(self::hot_swap::suite());
    list.push(self::hot_reload::suite(hot_reload_cases));
    list.push(self::observability::suite());
    list.push(self::slowloris::suite());
    list.push(self::resource_exhaustion::suite());
    proof {
        let names = suite_names(list@);
        assert(names =~= seq![
            "backpressure"@,
            "cancellation"@,
            "errors"@,
            "graceful_shutdown"@,
            "state_machine"@,
            "hot_swap"@,
            "hot_reload"@,
            "observability"@,
            "slowloris"@,
            "resource_exhaustion"@,
        ]);
        assert forall|i: int| 0 <= i < 10 && i != 6 implies (#[trigger] list@[i]).cases@.len()
            > 0 by {
            assert(list@[i].cases@.len() == list@[i].case_names().len());
        }
    }
    list
}

/// How a case ended.
#[derive(Debug, Clone, PartialEq, Eq)]
pub enum CaseOutcome {
    /// It passed.
    Passed,
    /// It failed, and said why in words.
    Failed(String),
    /// It failed, and said why in a way that has no words.
    FailedSilently,
}

/// What has to be done next.
#[derive(Debug, Clone, PartialEq, Eq)]
pub enum SuiteStep {
    /// Run the case at this position, and report how it ended.
    Run(usize),
    /// Stop: the suite has failed, and this is why.
    Fail(String),
    /// Stop: every case has passed.
    Done,
}

/// What is said of a case that failed.
pub open spec fn failure_text(
    suite: Seq<char>,
    case: Seq<char>,
    words: Option<Seq<char>>,
) -> Seq<char> {
    "[spark-tck::"@ + suite + "::"@ + case + "] 测试失败："@ + (match words {
        Some(text) => text,
        None => "<未知 panic 类型>"@,
    })
}

/// What is said of a case that failed.
pub fn failure_message(suite: &str, case: &str, words: Option<&str>) -> (r: String)
    ensures
        r@ == failure_text(
            suite@,
            case@,
            match words {
                Some(text) => Some(text@),
                None => None,
            },
        ),
{
    let mut out = String::new();
    out.append("[spark-tck::");
    out.append(suite);
    out.append("::");
    out.append(case);
    out.append("] 测试失败：");
    match words {
        Some(text) => {
            out.append(text);
        },
        None => {
            out.append("<未知 panic 类型>");
        },
    }
    assert(out@ =~= failure_text(
        suite@,
        case@,
        match words {
            Some(text) => Some(text@),
            None => None,
        },
    ));
    out
}

/// Begins a run of a suite. A suite without cases fails.
pub fn begin_suite(suite: &TckSuite) -> (r: SuiteStep)
    ensures
        if suite.cases@.len() == 0 {
            r matches SuiteStep::Fail(text) && text@ == "TCK 套件不应为空"@
        } else {
            r matches SuiteStep::Run(at) && at == 0
        },
{
    if suite.cases.len() == 0 {
        SuiteStep::Fail("TCK 套件不应为空".to_owned())
    } else {
        SuiteStep::Run(0)
    }
}

/// Goes on after the case at `at`: with the next case if it passed, and not at all if it failed.
pub fn after_case(suite: &TckSuite, at: usize, outcome: CaseOutcome) -> (r: SuiteStep)
    requires
        at < suite.cases@.len(),
    ensures
        match outcome {
            CaseOutcome::Passed => if at + 1 < suite.cases@.len() {
                r matches SuiteStep::Run(next) && next == at + 1
            } else {
                r is Done
            },
            CaseOutcome::Failed(words) => r matches SuiteStep::Fail(text) && text@ == failure_text(
                suite.name@,
                suite.cases@[at as int].name@,
                Some(words@),
            ),
            CaseOutcome::FailedSilently => r matches SuiteStep::Fail(text) && text@
                == failure_text(suite.name@, suite.cases@[at as int].name@, None),
        },
{
    match outcome {
        CaseOutcome::Passed => {
            if at < suite.cases.len() - 1 {
                SuiteStep::Run(at + 1)
            } else {
                SuiteStep::Done
            }
        },
        CaseOutcome::Failed(words) => SuiteStep::Fail(
            failure_message(suite.name, suite.cases[at].name, Some(words.as_str())),
        ),
        CaseOutcome::FailedSilently => SuiteStep::Fail(
            failure_message(suite.name, suite.cases[at].name, None),
        ),
    }
}

/// The names of suites and of cases are those of each, in order, and a failure names suite, case and
/// reason in this order.
pub proof fn law_names_are_seen(
    list: Seq<TckSuite>,
    suite: TckSuite,
    name: Seq<char>,
    case: Seq<char>,
    words: Seq<char>,
)
    ensures
        suite_names(list).len() == list.len(),
        forall|i: int| 0 <= i < list.len() ==> #[trigger] suite_names(list)[i] == list[i].name@,
        suite.case_names().len() == suite.cases@.len(),
        forall|i: int|
            0 <= i < suite.cases@.len() ==> #[trigger] suite.case_names()[i] == suite.cases@[i].name@,
        failure_text(name, case, Some(words)) == "[spark-tck::"@ + name + "::"@ + case
            + "] 测试失败："@ + words,
        failure_text(name, case, None) == failure_text(name, case, Some("<未知 panic 类型>"@)),
{
}

} // verus!
