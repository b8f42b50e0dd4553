use spark_codecs::script::support::FragmentedView;
use spark_codecs::sip::error::SipParseError;
use spark_codecs::sip::parse::request::parse_request;
use spark_codecs::sip::types::StartLine;
use spark_codecs::sip::ws::frame_text_binary::{
    sip_to_ws as pack, ws_to_sip as unpack, FrameKind, SipMessage, WsSipError as PackError,
};
use spark_codecs::sip::ws::{
    parse_sip_text, sip_to_ws, ws_to_sip, WsFrameFormat, WsFrameOwned, WsFrameRef, WsSipError,
};

const OPTIONS: &str = "OPTIONS sip:a SIP/2.0\r\nCall-ID: x\r\n\r\n";

#[test]
fn a_message_goes_into_a_text_frame_and_a_binary_frame() {
    let message = parse_request(OPTIONS).expect("valid");
    let mut frames = Vec::new();
    sip_to_ws(&message, &mut frames).expect("the body is text");
    assert_eq!(frames.len(), 2);
    assert_eq!(frames[0].format(), WsFrameFormat::Text);
    assert_eq!(frames[1].format(), WsFrameFormat::Binary);
    assert_eq!(frames[0].payload(), OPTIONS.as_bytes());
    assert_eq!(frames[0].payload(), frames[1].payload());
    let messages = ws_to_sip(&frames).expect("valid");
    assert_eq!(messages, vec![message.clone(), message]);
}

#[test]
fn responses_are_read_from_frames() {
    let text = "SIP/2.0 200 SIP/2.0\r\nCall-ID: x\r\n\r\n";
    let frames = vec![WsFrameOwned::new(WsFrameFormat::Text, text.as_bytes().to_vec())];
    let messages = ws_to_sip(&frames).expect("valid");
    assert!(matches!(messages[0].start_line, StartLine::Response(_)));
    assert!(parse_sip_text("nonsense\r\n\r\n").is_err());
}

#[test]
fn frames_without_a_message_are_reported() {
    let good = WsFrameOwned::new(WsFrameFormat::Text, OPTIONS.as_bytes().to_vec());
    let bad = WsFrameOwned::new(WsFrameFormat::Binary, vec![0xff]);
    match ws_to_sip(&[good.clone(), bad]) {
        Err(WsSipError::Utf8 { index, format, source }) => {
            assert_eq!(index, 1);
            assert_eq!(format, WsFrameFormat::Binary);
            assert_eq!(source.valid_up_to(), 0);
        }
        other => panic!("the second frame is not text: {other:?}"),
    }
    let cut = WsFrameOwned::new(WsFrameFormat::Text, b"OPTIONS".to_vec());
    match ws_to_sip(&[cut]) {
        Err(WsSipError::Parse { index, source }) => {
            assert_eq!(index, 0);
            assert_eq!(source, SipParseError::UnexpectedEof);
        }
        other => panic!("the frame is cut off: {other:?}"),
    }
}

#[test]
fn a_frame_has_to_be_in_one_piece() {
    let pieces = FragmentedView::from_fragments(vec![b"OPT".to_vec(), b"IONS".to_vec()]);
    let frame = WsFrameRef::new(WsFrameFormat::Text, &pieces);
    match ws_to_sip(&[frame]) {
        Err(WsSipError::FragmentedPayload { index, observed_chunks }) => {
            assert_eq!(index, 0);
            assert_eq!(observed_chunks, 2);
        }
        other => panic!("the frame is in pieces: {other:?}"),
    }
    let nothing = FragmentedView::from_fragments(Vec::new());
    let frame = WsFrameRef::new(WsFrameFormat::Text, &nothing);
    assert!(matches!(ws_to_sip(&[frame]), Err(WsSipError::EmptyPayload { index: 0 })));
}

#[test]
fn a_body_that_is_not_text_is_not_put_into_frames() {
    let mut message = parse_request(OPTIONS).expect("valid");
    message.body = &[0xff];
    let mut frames = Vec::new();
    assert!(matches!(sip_to_ws(&message, &mut frames), Err(WsSipError::Format { .. })));
    assert!(frames.is_empty());
}

fn unpack_all(frames: &[Vec<u8>]) -> Result<Vec<SipMessage>, PackError> {
    let refs: Vec<&Vec<u8>> = frames.iter().collect();
    unpack(&refs)
}

#[test]
fn a_packed_message_is_unpacked_again() {
    for len in [0usize, 1, 125, 126, 65535, 65536] {
        let message = SipMessage::binary(vec![7; len]);
        let mut frames = Vec::new();
        pack(&message, &mut frames);
        assert_eq!(frames.len(), 1);
        assert_eq!(unpack_all(&frames), Ok(vec![message]));
    }
    let text = SipMessage::text("ü".as_bytes().to_vec()).expect("text");
    let mut frames = Vec::new();
    pack(&text, &mut frames);
    assert_eq!(frames[0], vec![0x81, 2, 0xc3, 0xbc]);
    assert_eq!(unpack_all(&frames), Ok(vec![text]));
}

#[test]
fn masked_frames_are_unmasked() {
    let frame = vec![0x81, 0x85, 0x37, 0xfa, 0x21, 0x3d, 0x7f, 0x9f, 0x4d, 0x51, 0x58];
    let messages = unpack_all(&[frame]).expect("valid");
    assert_eq!(messages[0].payload(), b"Hello");
    assert_eq!(messages[0].frame_kind(), FrameKind::Text);
}

#[test]
fn fragments_are_joined_across_control_frames() {
    let frames = vec![vec![0x02, 1, b'a'], vec![0x89, 0], vec![0x80, 1, b'b']];
    assert_eq!(unpack_all(&frames), Ok(vec![SipMessage::binary(b"ab".to_vec())]));
}

#[test]
fn malformed_frames_are_refused() {
    assert_eq!(unpack_all(&[vec![0x81]]), Err(PackError::FrameTooShort { actual: 1 }));
    assert_eq!(
        unpack_all(&[vec![0x81, 126, 0]]),
        Err(PackError::IncompleteHeader { expected: 4, actual: 3 })
    );
    assert_eq!(
        unpack_all(&[vec![0x81, 0x80, 0, 0]]),
        Err(PackError::IncompleteHeader { expected: 6, actual: 4 })
    );
    assert_eq!(
        unpack_all(&[vec![0x81, 2, 0]]),
        Err(PackError::PayloadLengthMismatch { expected: 2, actual: 1 })
    );
    assert_eq!(unpack_all(&[vec![0x80, 0]]), Err(PackError::UnexpectedContinuation));
    assert_eq!(unpack_all(&[vec![0x83, 0]]), Err(PackError::UnsupportedOpcode { opcode: 3 }));
    assert_eq!(unpack_all(&[vec![0x09, 0]]), Err(PackError::FragmentedControl { opcode: 9 }));
    assert_eq!(
        unpack_all(&[vec![0x01, 0], vec![0x81, 0]]),
        Err(PackError::MessageInterleaving { opcode: 1 })
    );
    assert_eq!(unpack_all(&[vec![0x01, 1, b'a']]), Err(PackError::DanglingFragment));
    assert!(matches!(
        unpack_all(&[vec![0x81, 1, 0xff]]),
        Err(PackError::InvalidTextPayload { .. })
    ));
}

#[test]
fn packing_errors_say_what_is_wrong() {
    let fault = match SipMessage::text(vec![0xff]) {
        Err(e) => e.message(),
        Ok(_) => panic!("the payload is not text"),
    };
    assert!(fault.contains("invalid utf-8 sequence"));
    let fault = PackError::PayloadLengthMismatch { expected: 2, actual: 1 }.message();
    assert!(fault.contains('2') && fault.contains('1'));
}

#[test]
fn errors_can_be_cloned() {
    let fault = String::from_utf8(vec![0xff]).expect_err("not UTF-8").utf8_error();
    for error in [
        PackError::FrameTooShort { actual: 1 },
        PackError::IncompleteHeader { expected: 4, actual: 2 },
        PackError::PayloadLengthOverflow { declared: 7 },
        PackError::PayloadLengthMismatch { expected: 1, actual: 2 },
        PackError::FragmentedControl { opcode: 8 },
        PackError::UnsupportedOpcode { opcode: 3 },
        PackError::UnexpectedContinuation,
        PackError::MessageInterleaving { opcode: 1 },
        PackError::DanglingFragment,
        PackError::from(fault),
    ] {
        assert_eq!(error.clone(), error);
    }
}
