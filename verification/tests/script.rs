use spark_codecs::buffer::contract::{BufferPool, ReadableBuffer, WritableBuffer};
use spark_codecs::error::PROTOCOL_DECODE;
use spark_codecs::script::cases::{
    collect_hex_payload, execute_protocol_script, join_lines, parse_line_actions, run_line_case,
    run_rtp_case, run_sdp_case, run_sip_case, LineAction, RtpFindings, ScriptFailure,
};
use spark_codecs::script::coordinator::{
    map_index, CoordinatorAction, CoordinatorOp, CoordinatorScript,
};
use spark_codecs::script::support::{FragmentedView, FuzzBufferPool, LinearReadable, LinearWritable};
use spark_codecs::script::{
    decode_escaped, decode_hex, find_limit, find_option, hex_digit, parse_header, parse_usize_list,
    Protocol,
};

#[test]
fn a_script_begins_with_its_protocol() {
    assert_eq!(Protocol::from_tag(" line "), Some(Protocol::Line));
    assert_eq!(Protocol::from_tag("Rtp"), Some(Protocol::Rtp));
    assert_eq!(Protocol::from_tag("SIP"), Some(Protocol::Sip));
    assert_eq!(Protocol::from_tag("sdp"), Some(Protocol::Sdp));
    assert_eq!(Protocol::from_tag("http"), None);
}

#[test]
fn the_first_line_has_options() {
    let (protocol, options) = parse_header("LINE Encode=4 decode=8 encode=5 # decode=9")
        .expect("the protocol is known");
    assert_eq!(protocol, Protocol::Line);
    assert_eq!(find_limit(&options, "encode"), Some(5));
    assert_eq!(find_limit(&options, "decode"), Some(8));
    assert_eq!(find_option(&options, "split"), None);
    assert!(parse_header("").is_none());
    assert!(parse_header("FTP x=1").is_none());
}

#[test]
fn lists_of_numbers_leave_out_what_is_no_number() {
    assert_eq!(parse_usize_list("1, 2,x,,3"), vec![1, 2, 3]);
    assert_eq!(parse_usize_list(""), Vec::<usize>::new());
    assert_eq!(parse_usize_list("99999999999999999999999"), Vec::<usize>::new());
}

#[test]
fn escapes_stand_for_characters() {
    assert_eq!(decode_escaped(r"a\n\r\t\\b"), "a\n\r\t\\b");
    assert_eq!(decode_escaped(r"\x41\xe9"), "Aé");
    assert_eq!(decode_escaped(r"\q\"), "q");
    assert_eq!(decode_escaped(r"\xzz!"), "!");
    assert_eq!(decode_escaped(r"\x4"), "");
    assert_eq!(decode_escaped("plain"), "plain");
}

#[test]
fn hexadecimal_digits_make_bytes() {
    assert_eq!(decode_hex("80 e0-FF"), vec![0x80, 0xe0, 0xff]);
    assert_eq!(decode_hex("123"), vec![0x12]);
    assert_eq!(hex_digit('f'), Some(15));
    assert_eq!(hex_digit('g'), None);
}

#[test]
fn line_actions_are_read() {
    let actions = parse_line_actions(&["# note", "", " frame: a\\tb ", "truncate:x", "other:y"]);
    assert_eq!(actions.len(), 2);
    assert!(matches!(&actions[0], LineAction::Emit(text) if text == "a\tb"));
    assert!(matches!(&actions[1], LineAction::Truncate(text) if text == "x"));
    assert_eq!(join_lines(&["a", "", "b"]), "a\n\nb");
    assert_eq!(collect_hex_payload(&["hex: 01", "#hex:02", "hex:03 04"]), vec![1, 3, 4]);
}

#[test]
fn line_scripts_are_run() {
    assert_eq!(run_line_case(&[], &["frame:one", "frame:two"]), Ok(()));
    assert_eq!(run_line_case(&["encode=4"], &["frame:one", "frame:three"]), Ok(()));
    assert_eq!(run_line_case(&[], &["frame:one", "truncate:two"]), Ok(()));
    assert_eq!(run_line_case(&["decode=2"], &["frame:one"]), Ok(()));
    assert_eq!(
        run_line_case(&[], &["frame:a\\nb"]),
        Err(ScriptFailure::LineFramesDiffer)
    );
    assert_eq!(
        run_line_case(&[], &["truncate:a\\nb"]),
        Err(ScriptFailure::LineFramesSurplus)
    );
}

#[test]
fn rtp_scripts_are_run() {
    let findings = run_rtp_case(&["split=1,3"], &["hex:80600001 00000002 00000003 6869"]);
    assert_eq!(
        findings,
        Ok(Some(RtpFindings {
            sequence_number: 1,
            timestamp: 2,
            payload_type: 96,
            extension_len: None,
            payload_len: 2,
            padding_len: 0,
        }))
    );
    assert_eq!(run_rtp_case(&[], &[]), Ok(None));
    assert_eq!(run_rtp_case(&[], &["hex:00"]), Ok(None));
}

#[test]
fn sip_scripts_are_run() {
    assert_eq!(
        run_sip_case(&["OPTIONS sip:a SIP/2.0", "Via: SIP/2.0/UDP h", "", ""]),
        Ok(())
    );
    assert_eq!(
        run_sip_case(&["OPTIONS sip:a SIP/2.0", "Call-ID: x", "", ""]),
        Err(ScriptFailure::SipViaMissing)
    );
    assert_eq!(
        run_sip_case(&["SIP/2.0 200 OK", "Call-ID: x", "", ""]),
        Err(ScriptFailure::SipHeadersMissing)
    );
    assert_eq!(run_sip_case(&["nonsense"]), Ok(()));
    assert_eq!(run_sip_case(&["", "  "]), Ok(()));
}

#[test]
fn sdp_scripts_are_run() {
    let head = ["v=0", "o=- 1 1 IN IP4 127.0.0.1", "s=x", "t=0 0"];
    let with_media = [&head[..], &["m=audio 1 RTP/AVP 0"][..]].concat();
    assert_eq!(run_sdp_case(&with_media), Ok(()));
    assert_eq!(run_sdp_case(&head), Err(ScriptFailure::SdpMediaMissing));
    assert_eq!(run_sdp_case(&["v=0"]), Ok(()));
}

#[test]
fn whole_scripts_are_run() {
    assert_eq!(execute_protocol_script(b"# note\n\nLINE encode=9\nframe:hello\n"), Ok(()));
    assert_eq!(execute_protocol_script(b"RTP\nhex:80"), Ok(()));
    assert_eq!(execute_protocol_script(&[0xff]), Ok(()));
    assert_eq!(execute_protocol_script(b""), Ok(()));
    assert_eq!(execute_protocol_script(b"FTP\n"), Ok(()));
    assert_eq!(
        execute_protocol_script(b"SIP\r\nOPTIONS sip:a SIP/2.0\r\nCall-ID: x\r\n\r\n\r\n"),
        Err(ScriptFailure::SipViaMissing)
    );
    assert!(!ScriptFailure::SipViaMissing.message().is_empty());
}

#[test]
fn the_simple_pool_counts_what_it_lends() {
    let mut pool = FuzzBufferPool::default();
    assert_eq!(pool.lease_count(), 0);
    let (mut buffer, _) = pool.acquire(4).expect("always lends");
    assert_eq!(pool.lease_count(), 1);
    buffer.put_slice(b"abc").expect("always takes");
    assert_eq!(buffer.written(), 3);
    assert!(buffer.capacity() >= 4);
    assert_eq!(pool.shrink_to_fit().expect("nothing to give up"), 0);
    assert_eq!(pool.statistics().expect("figures").active_leases, 0);
    let readable = buffer.freeze().expect("always freezes");
    assert_eq!(readable.try_into_vec().expect("bytes"), b"abc");
}

#[test]
fn linear_buffers_tell_the_room_that_is_left() {
    let mut buffer = LinearWritable::with_capacity(0);
    assert!(buffer.capacity() >= 1);
    assert_eq!(buffer.written(), 0);
    assert_eq!(buffer.remaining_mut(), buffer.capacity());
    let mut wide = LinearWritable::with_capacity(16);
    let room = wide.capacity();
    assert!(room >= 16);
    wide.put_slice(&[1; 10]).expect("always takes");
    assert_eq!(wide.capacity(), room);
    assert_eq!(wide.remaining_mut(), room - 10);
    wide.reserve(100).expect("always grows");
    assert!(wide.remaining_mut() >= 100);
    wide.put_slice(&vec![2; 1000]).expect("always takes");
    assert_eq!(wide.remaining_mut(), wide.capacity() - 1010);
    let room = wide.capacity();
    wide.clear();
    assert_eq!(wide.remaining_mut(), room);
    buffer.put_slice(b"ab").expect("always takes");
    assert!(buffer.capacity() >= 2);
}

#[test]
fn a_linear_buffer_goes_on_in_its_box() {
    let mut source = LinearReadable::from(b"abcdef".to_vec());
    source.advance(2).expect("two bytes are there");
    let boxed = source.into_box();
    assert_eq!(boxed.remaining(), 4);
    assert_eq!(boxed.chunk(), b"cdef");
}

#[test]
fn linear_buffers_read_in_order() {
    let mut source = LinearReadable::from(b"abcdef".to_vec());
    let head = source.split_to(2).expect("two bytes are there");
    assert_eq!(head.chunk(), b"ab");
    source.advance(1).expect("one byte is there");
    let mut two = [0u8; 2];
    source.copy_into_slice(&mut two).expect("two bytes are there");
    assert_eq!(&two, b"de");
    assert_eq!(source.remaining(), 1);
    assert_eq!(source.advance(2).expect_err("one byte is left").code(), PROTOCOL_DECODE);
    assert!(source.split_to(2).is_err());
    assert!(source.copy_into_slice(&mut two).is_err());
    let mut target = LinearWritable::with_capacity(0);
    let mut boxed = LinearReadable::from_vec(b"xyz".to_vec()).into_box();
    target.write_from(boxed.as_mut(), 2).expect("two bytes are there");
    assert_eq!(target.written(), 2);
    assert!(target.write_from(boxed.as_mut(), 2).is_err());
    target.clear();
    assert_eq!(target.written(), 0);
}

#[test]
fn views_are_cut_where_asked() {
    let view = FragmentedView::from_splits(vec![1, 2, 3, 4, 5], &[2, 0, 9, 1]);
    assert_eq!(view.len(), 5);
    let huge = FragmentedView::from_splits(vec![1, 2, 3], &[1, usize::MAX]);
    assert_eq!(huge.len(), 3);
}

#[test]
fn calls_begin_only_where_they_may() {
    let mut script = CoordinatorScript::new();
    assert_eq!(script.step(CoordinatorOp::Begin { id: 0 }), CoordinatorAction::Skip);
    assert_eq!(script.step(CoordinatorOp::Poll { id: 7 }), CoordinatorAction::Poll(0));
    script.polled(0, true);
    assert_eq!(script.step(CoordinatorOp::Begin { id: 0 }), CoordinatorAction::Begin(0));
    script.polled(0, true);
    assert_eq!(script.step(CoordinatorOp::Begin { id: 0 }), CoordinatorAction::Skip);
    assert_eq!(script.step(CoordinatorOp::Release { id: 0 }), CoordinatorAction::Release(0));
    assert_eq!(script.step(CoordinatorOp::DropGuard { id: 0 }), CoordinatorAction::DropGuard(0));
    assert_eq!(script.step(CoordinatorOp::DropGuard { id: 0 }), CoordinatorAction::Skip);
    assert_eq!(script.step(CoordinatorOp::Clone { from: 4 }), CoordinatorAction::Clone(0));
    assert_eq!(script.count(), 2);
    assert_eq!(script.step(CoordinatorOp::Poll { id: 7 }), CoordinatorAction::Poll(1));
    assert_eq!(map_index(0, 3), 0);
    assert_eq!(map_index(3, 7), 1);
}

#[test]
fn linear_buffers_have_the_room_that_was_asked_for() {
    let mut buffer = LinearWritable::with_capacity(0);
    assert!(buffer.capacity() >= 1);
    assert!(buffer.remaining_mut() >= 1);
    buffer.put_slice(b"abc").expect("always takes");
    buffer.reserve(40).expect("always grows");
    assert!(buffer.capacity() >= 43);
    assert!(buffer.remaining_mut() >= 40);
    assert_eq!(buffer.capacity() - buffer.remaining_mut(), buffer.written());
    buffer.clear();
    assert!(buffer.remaining_mut() >= 43);
    assert!(LinearWritable::with_capacity(64).remaining_mut() >= 64);
}
