use spark_codecs::buffer::contract::{BufferPool, ReadableBuffer};
use spark_codecs::error::PROTOCOL_BUDGET_EXCEEDED;
use spark_codecs::line::{DecodeContext, DecodeOutcome, LineDelimitedCodec};
use spark_codecs::mock::{run_roundtrip, MockService, MockTransport};
use spark_codecs::tck::attribute::{
    choose_suites, default_suite_idents, is_shallow, parse_suites, read_suites, request_of, run_path, suite_name, test_name, AttributeMeta,
    Request, SuitesError,
};
use spark_codecs::tck::graceful_shutdown::recorder::{
    ChannelRecorder, CloseReason, ManualClosedState,
};
use spark_codecs::tck::graceful_shutdown::timer::MockTimer;
use spark_codecs::tck::hot_swap::{record_read, FirstGate};
use spark_codecs::tck::slowloris::{read_slowly, DummyPool, RateLimitedReadable};
use spark_codecs::tck::{
    after_case, all_suites, begin_suite, failure_message, CaseOutcome, SuiteStep, TckCase, TckSuite,
};

#[test]
fn slow_reader_drains_within_budget() {
    let codec = LineDelimitedCodec::new();
    let ctx = DecodeContext::with_max_frame_size(Some(8));
    let mut buffer = RateLimitedReadable::new(b"ping\n".to_vec(), 2);
    for _ in 0..8 {
        match codec.decode(&mut buffer, &ctx).expect("the line is within its budget") {
            DecodeOutcome::Incomplete => assert!(buffer.reveal_next_window()),
            DecodeOutcome::Complete(text) => {
                assert_eq!(text, "ping");
                assert_eq!(buffer.remaining(), 0);
                return;
            }
        }
    }
    panic!("the line is complete");
}

#[test]
fn slow_reader_exceeding_budget_is_rejected() {
    let codec = LineDelimitedCodec::new();
    let ctx = DecodeContext::with_max_frame_size(Some(5));
    let mut buffer = RateLimitedReadable::new(b"abcdefg".to_vec(), 2);
    for _ in 0..8 {
        match codec.decode(&mut buffer, &ctx) {
            Ok(DecodeOutcome::Incomplete) => assert!(buffer.reveal_next_window()),
            Ok(DecodeOutcome::Complete(_)) => panic!("there is no newline"),
            Err(err) => {
                assert_eq!(err.code(), PROTOCOL_BUDGET_EXCEEDED);
                return;
            }
        }
    }
    panic!("the bytes exceed the budget");
}

#[test]
fn the_pace_does_not_matter() {
    for step in [0usize, 1, 2, 100] {
        let r = read_slowly(b"ping\n".to_vec(), step, Some(8));
        assert!(matches!(r, Ok(DecodeOutcome::Complete(text)) if text == "ping"));
        assert!(read_slowly(b"abcdefg".to_vec(), step, Some(5)).is_err());
        let r = read_slowly(b"abc".to_vec(), step, None);
        assert!(matches!(r, Ok(DecodeOutcome::Incomplete)));
    }
    assert!(DummyPool.acquire(1).is_err());
}

#[test]
fn suites_have_names_and_cases() {
    let suites = all_suites(vec![TckCase { name: "reload" }]);
    let names: Vec<&str> = suites.iter().map(|suite| suite.name).collect();
    for name in default_suite_idents() {
        assert!(names.contains(&name.as_str()), "{name}");
    }
    assert!(names.contains(&"slowloris"));
    assert!(suites.iter().all(|suite| !suite.cases.is_empty()));
    let slow = suites.iter().find(|suite| suite.name == "slowloris").expect("there is one");
    assert_eq!(slow.cases[0].name, "slow_reader_drains_within_budget");
    assert_eq!(slow.cases[1].name, "slow_reader_exceeding_budget_is_rejected");
}

#[test]
fn a_suite_runs_its_cases_in_order_and_stops_at_a_failure() {
    let suite = TckSuite {
        name: "demo",
        cases: vec![TckCase { name: "one" }, TckCase { name: "two" }],
    };
    assert_eq!(begin_suite(&suite), SuiteStep::Run(0));
    assert_eq!(after_case(&suite, 0, CaseOutcome::Passed), SuiteStep::Run(1));
    assert_eq!(after_case(&suite, 1, CaseOutcome::Passed), SuiteStep::Done);
    assert_eq!(
        after_case(&suite, 0, CaseOutcome::Failed("boom".to_string())),
        SuiteStep::Fail("[spark-tck::demo::one] 测试失败：boom".to_string())
    );
    assert_eq!(
        after_case(&suite, 1, CaseOutcome::FailedSilently),
        SuiteStep::Fail("[spark-tck::demo::two] 测试失败：<未知 panic 类型>".to_string())
    );
    let nothing = TckSuite { name: "none", cases: Vec::new() };
    assert_eq!(begin_suite(&nothing), SuiteStep::Fail("TCK 套件不应为空".to_string()));
    assert_eq!(failure_message("a", "b", Some("c")), "[spark-tck::a::b] 测试失败：c");
}

#[test]
fn an_attribute_may_name_its_suites() {
    assert_eq!(parse_suites(""), Ok(default_suite_idents()));
    assert_eq!(parse_suites("suites"), Ok(default_suite_idents()));
    assert_eq!(parse_suites("suites(errors, hot_swap,)").expect("two suites"), vec!["errors", "hot_swap"]);
    assert_eq!(parse_suites("suites()"), Ok(default_suite_idents()));
}

#[test]
fn attributes_are_checked() {
    assert!(is_shallow("suites(errors, hot_swap,)"));
    assert!(!is_shallow(&"(".repeat(33)));
    assert!(is_shallow(&"[".repeat(32)));
    assert!(!is_shallow(&format!("suites = {}", "!".repeat(60))));
    assert!(is_shallow(&"a".repeat(100)));
    assert!(matches!(parse_suites("suites(a b)"), Err(SuitesError::Syntax(_))));
    assert!(matches!(parse_suites("(("), Err(SuitesError::Syntax(_))));
    assert_eq!(parse_suites("suites(a::b)"), Err(SuitesError::NotIdentifier));
    assert_eq!(parse_suites("suites(a = 1)"), Err(SuitesError::NotPath));
    assert_eq!(parse_suites("other(a)"), Err(SuitesError::Unsupported));
    assert_eq!(parse_suites("suites = 1"), Err(SuitesError::Unsupported));
    assert!(!SuitesError::Unsupported.message().is_empty());
}

#[test]
fn items_are_judged_once_they_are_read() {
    let named = |name: &str| AttributeMeta::Path(Some(name.to_string()));
    assert_eq!(request_of(&named("suites")), Request::Defaults);
    assert_eq!(request_of(&AttributeMeta::List(Some("suites".to_string()))), Request::Listed);
    assert_eq!(request_of(&AttributeMeta::List(Some("other".to_string()))), Request::Unsupported);
    assert_eq!(request_of(&AttributeMeta::NameValue), Request::Unsupported);
    assert_eq!(suite_name(&named("a")), Ok("a".to_string()));
    assert_eq!(suite_name(&AttributeMeta::Path(None)), Err(SuitesError::NotIdentifier));
    assert_eq!(suite_name(&AttributeMeta::NameValue), Err(SuitesError::NotPath));
    assert_eq!(read_suites(&[]), Ok(default_suite_idents()));
    assert_eq!(read_suites(&[named("a"), named("b")]).expect("two suites"), vec!["a", "b"]);
    assert_eq!(
        read_suites(&[named("a"), AttributeMeta::NameValue, AttributeMeta::Path(None)]),
        Err(SuitesError::NotPath)
    );
}

#[test]
fn suites_are_chosen_from_what_was_read() {
    let named = |name: &str| AttributeMeta::Path(Some(name.to_string()));
    let list = |name: &str| AttributeMeta::List(Some(name.to_string()));
    assert_eq!(choose_suites(Ok(named("suites")), None), Ok(default_suite_idents()));
    assert_eq!(choose_suites(Ok(named("other")), None), Err(SuitesError::Unsupported));
    assert_eq!(choose_suites(Ok(AttributeMeta::NameValue), None), Err(SuitesError::Unsupported));
    assert_eq!(
        choose_suites(Ok(list("suites")), Some(Ok(vec![named("a"), named("b")]))).expect("two suites"),
        vec!["a", "b"]
    );
    assert_eq!(
        choose_suites(Ok(list("suites")), Some(Ok(Vec::new()))),
        Ok(default_suite_idents())
    );
    assert_eq!(
        choose_suites(Ok(list("other")), Some(Ok(vec![named("a")]))),
        Err(SuitesError::Unsupported)
    );
    assert_eq!(
        choose_suites(Ok(list("suites")), Some(Err("no list".to_string()))),
        Err(SuitesError::Syntax("no list".to_string()))
    );
    let error = choose_suites(Err("no item".to_string()), None).expect_err("nothing was read");
    assert_eq!(error.message(), "no item");
}

#[test]
fn a_part_of_a_slow_buffer_gives_all_its_bytes() {
    let mut buffer = RateLimitedReadable::new(b"abcdef".to_vec(), 4);
    let error = buffer.split_to(5).expect_err("four bytes can be seen");
    assert_eq!(error.message(), "split length exceeds visible window");
    let mut part = buffer.split_to(3).expect("four bytes can be seen");
    assert_eq!(part.chunk(), b"abc");
    part.advance(1).expect("three bytes are there");
    assert!(!part.reveal_next_window());
    assert_eq!(part.advance(3).expect_err("too many").message(), "owned buffer advance overflow");
    assert_eq!(part.split_to(3).expect_err("too many").message(), "owned buffer split overflow");
    let error = part.copy_into_slice(&mut [0; 3]).expect_err("too many");
    assert_eq!(error.message(), "owned buffer copy overflow");
    assert_eq!(part.try_into_vec().expect("bytes"), b"abc");
    assert!(buffer.reveal_next_window());
    assert_eq!(buffer.try_into_vec().expect("bytes"), b"def");
}

#[test]
fn tests_are_named_after_their_suites() {
    assert_eq!(test_name("errors"), "errors_suite");
    assert_eq!(test_name("r#type"), "type_suite");
    assert_eq!(test_name("r"), "r_suite");
    assert_eq!(run_path("errors"), "spark_contract_tests::run_errors_suite");
}

struct Doubling;

impl MockService<u32> for Doubling {
    fn handle(&self, request: u32) -> u32 {
        request * 2
    }
}

#[test]
fn every_request_is_answered_once() {
    let mut transport = MockTransport::new();
    transport.send(1);
    transport.send(2);
    assert_eq!(transport.drain(&Doubling), vec![2, 4]);
    assert_eq!(transport.drain(&Doubling), Vec::<u32>::new());
    transport.send(9);
    assert_eq!(run_roundtrip(&mut transport, &Doubling, vec![3, 4]), 3);
}

#[test]
fn the_clock_moves_when_a_sleep_ends() {
    let mut timer = MockTimer::new();
    let first = timer.register_sleep(5);
    let second = timer.register_sleep(7);
    let third = timer.register_sleep(9);
    timer.drop_sleep(second);
    assert!(!timer.poll_sleep(first));
    assert_eq!(timer.try_pop_sleep(), Some(first));
    assert!(timer.fire(first));
    assert!(!timer.fire(first));
    assert!(timer.poll_sleep(first));
    assert_eq!(timer.try_pop_sleep(), Some(third));
    assert_eq!(timer.try_pop_sleep(), None);
    assert!(!timer.fire(third));
    assert_eq!(timer.timer_now(), 14);
    assert_eq!(timer.fired_durations(), &[5, 9]);
}

#[test]
fn a_channel_closes_when_it_has_all_acknowledgements() {
    let mut state = ManualClosedState::new();
    state.set_pending_steps(2);
    assert!(!state.ack_step());
    assert!(!state.completed);
    state.waiting = true;
    assert!(state.ack_step());
    assert!(state.completed);
    assert!(!state.ack_step());
    assert!(!state.complete());
}

#[test]
fn a_wait_for_a_channel_is_answered_once() {
    let mut recorder: ChannelRecorder<&str> = ChannelRecorder::new();
    recorder.keep_closed_pending();
    recorder.reset_result_recording();
    assert_eq!(recorder.poll_closed(), None);
    assert!(recorder.complete_closed_with_error("lost"));
    assert_eq!(recorder.poll_closed(), Some(Err("lost")));
    assert_eq!(recorder.poll_closed(), Some(Ok(())));
    assert_eq!(recorder.closed_failure_count(), 1);
    assert_eq!(recorder.closed_completion_count(), 0);
    recorder.drop_closed();
    assert_eq!(recorder.closed_drop_count(), 1);
}

#[test]
fn a_channel_that_is_not_kept_open_closes_when_asked() {
    let mut recorder: ChannelRecorder<&str> = ChannelRecorder::new();
    let reason = CloseReason { code: "c".to_string(), message: "m".to_string() };
    recorder.close_graceful(reason.clone(), Some(15));
    recorder.close();
    assert_eq!(recorder.poll_closed(), Some(Ok(())));
    assert_eq!(recorder.graceful_calls(), 1);
    assert_eq!(recorder.force_calls(), 1);
    assert_eq!(recorder.graceful_reasons(), &[reason]);
    assert_eq!(recorder.graceful_deadlines(), &[Some(15)]);
    assert_eq!(recorder.closed_completion_count(), 1);
    recorder.require_closed_steps(1);
    recorder.reset_result_recording();
    assert_eq!(recorder.poll_closed(), None);
    assert!(recorder.ack_closed_step());
    assert_eq!(recorder.poll_closed(), Some(Ok(())));
    assert!(!recorder.complete_closed());
}

#[test]
fn handlers_note_messages_and_hold_up_the_first() {
    let mut events = Vec::new();
    record_read("alpha", 0, &mut events);
    record_read("beta", 12, &mut events);
    assert_eq!(events, vec!["alpha:0", "beta:12"]);
    let mut gate = FirstGate::new();
    assert!(gate.arrive());
    assert!(!gate.arrive());
}
