use spark_codecs::buffer::{flatten_view, BufView, Chunks};
use spark_codecs::rtp::dtmf::{
    decode_dtmf, encode_dtmf, DtmfDecodeError, DtmfEncodeError, DtmfEvent,
};
use spark_codecs::rtp::{
    parse_rtp, seq_less, RtpByteSection, RtpCodecScaffold, RtpEncodeError, RtpHeader,
    RtpPacketBuilder, RtpParseError,
};
use spark_codecs::script::support::FragmentedView;

fn bytes_of<V: BufView>(section: &RtpByteSection<'_, V>) -> Vec<u8> {
    let chunks: Chunks<'_> = section.as_chunks();
    let mut out = Vec::new();
    for i in 0..chunks.count() {
        out.extend_from_slice(chunks.get(i));
    }
    out
}

fn header() -> RtpHeader {
    let mut header = RtpHeader::default();
    header.marker = true;
    header.payload_type = 96;
    header.sequence_number = 0x1234;
    header.timestamp = 0x0102_0304;
    header.ssrc = 0xaabb_ccdd;
    header
}

#[test]
fn a_minimal_packet_is_parsed() {
    let bytes: Vec<u8> = vec![
        0x80, 0xe0, 0x12, 0x34, 1, 2, 3, 4, 0xaa, 0xbb, 0xcc, 0xdd, b'h', b'i',
    ];
    let packet = parse_rtp(&bytes).expect("a valid packet");
    assert_eq!(packet.header(), &header());
    assert_eq!(bytes_of(&packet.payload()), b"hi");
    assert!(packet.extension().is_none());
    assert_eq!(packet.padding_len(), 0);
}

#[test]
fn a_packet_in_pieces_is_parsed_like_a_whole_one() {
    let whole: Vec<u8> = vec![
        0xb1, 0x60, 0, 1, 0, 0, 0, 2, 0, 0, 0, 3, 0, 0, 0, 4, 0xbe, 0xde, 0, 1, 9, 8, 7, 6, b'p',
        b'q', 0, 2,
    ];
    for splits in [vec![], vec![1], vec![13, 5, 4], vec![1; 28]] {
        let view = FragmentedView::from_splits(whole.clone(), &splits);
        let packet = parse_rtp(&view).expect("a valid packet");
        assert_eq!(packet.header().csrcs(), &[4]);
        let extension = packet.extension().expect("there is an extension");
        assert_eq!(extension.profile, 0xbede);
        assert_eq!(bytes_of(&extension.data), vec![9, 8, 7, 6]);
        assert_eq!(bytes_of(&packet.payload()), b"pq");
        assert_eq!(packet.payload().len(), 2);
        assert_eq!(packet.padding_len(), 2);
    }
}

#[test]
fn a_packet_that_was_built_is_parsed_back() {
    let payload = b"payload".to_vec();
    let mut head = header();
    head.set_csrcs(&[7, 8]).expect("two sources fit");
    head.padding = true;
    head.extension = true;
    let mut out = vec![0u8; 64];
    let n = RtpPacketBuilder::new(head.clone())
        .payload_view(&payload)
        .extension_bytes(0x1000, &[1, 2, 3, 4])
        .expect("whole words")
        .padding(3)
        .encode_into(&mut out)
        .expect("there is room");
    assert_eq!(n, 12 + 8 + 8 + 7 + 3);
    let written = out[..n].to_vec();
    let packet = parse_rtp(&written).expect("a valid packet");
    assert_eq!(packet.header(), &head);
    assert_eq!(packet.header().csrcs(), &[7, 8]);
    let extension = packet.extension().expect("there is an extension");
    assert_eq!(extension.profile, 0x1000);
    assert_eq!(bytes_of(&extension.data), vec![1, 2, 3, 4]);
    assert_eq!(bytes_of(&packet.payload()), payload);
    assert_eq!(packet.padding_len(), 3);
}

#[test]
fn packets_that_are_cut_off_are_refused() {
    let parse = |bytes: &[u8]| {
        let bytes = bytes.to_vec();
        match parse_rtp(&bytes) {
            Ok(_) => None,
            Err(e) => Some(e),
        }
    };
    assert_eq!(parse(&[0x80; 11]), Some(RtpParseError::HeaderTooShort));
    assert_eq!(parse(&[0x40; 12]), Some(RtpParseError::UnsupportedVersion(1)));
    let mut packet = vec![0x80u8, 0, 0, 0, 0, 0, 0, 0, 0, 0, 0, 0];
    packet[0] = 0x81;
    assert_eq!(parse(&packet), Some(RtpParseError::InvalidCsrcLength));
    packet[0] = 0x90;
    assert_eq!(parse(&packet), Some(RtpParseError::InvalidExtension));
    packet[0] = 0xa0;
    assert_eq!(parse(&packet), Some(RtpParseError::InvalidPadding));
}

#[test]
fn a_packet_that_does_not_fit_is_not_written() {
    let payload = b"payload".to_vec();
    let mut out = vec![0u8; 18];
    let r = RtpPacketBuilder::new(header()).payload_view(&payload).encode_into(&mut out);
    assert_eq!(r, Err(RtpEncodeError::BufferTooSmall));
    let mut out = vec![0u8; 19];
    let r = RtpPacketBuilder::new(header()).payload_view(&payload).encode_into(&mut out);
    assert_eq!(r, Ok(19));
}

#[test]
fn header_fields_are_checked_before_writing() {
    let none: Vec<u8> = Vec::new();
    let mut out = vec![0u8; 32];
    let mut head = header();
    head.version = 1;
    let r = RtpPacketBuilder::new(head).payload_view(&none).encode_into(&mut out);
    assert!(matches!(r, Err(RtpEncodeError::InvalidField(_))));
    let mut head = header();
    head.payload_type = 128;
    let r = RtpPacketBuilder::new(head).payload_view(&none).encode_into(&mut out);
    assert!(matches!(r, Err(RtpEncodeError::InvalidField(_))));
    let mut head = header();
    head.extension = true;
    let r = RtpPacketBuilder::new(head).payload_view(&none).encode_into(&mut out);
    assert!(matches!(r, Err(RtpEncodeError::HeaderMismatch(_))));
    let mut head = header();
    head.padding = true;
    let r = RtpPacketBuilder::new(head).payload_view(&none).encode_into(&mut out);
    assert!(matches!(r, Err(RtpEncodeError::HeaderMismatch(_))));
}

#[test]
fn extension_data_has_whole_words() {
    let r = RtpPacketBuilder::<Vec<u8>>::new(header()).extension_bytes(1, &[1, 2, 3]);
    assert!(matches!(r, Err(RtpEncodeError::HeaderMismatch(_))));
}

#[test]
fn at_most_fifteen_sources_fit() {
    let mut head = header();
    assert!(head.set_csrcs(&[1; 15]).is_ok());
    assert_eq!(head.csrc_count, 15);
    assert!(head.set_csrcs(&[1; 16]).is_err());
}

#[test]
fn sequence_numbers_are_ordered_around_the_ring() {
    assert!(seq_less(1, 2));
    assert!(!seq_less(2, 1));
    assert!(!seq_less(7, 7));
    assert!(seq_less(65535, 0));
    assert!(seq_less(65000, 100));
    assert!(!seq_less(0, 65535));
    assert!(!seq_less(0, 32768));
    assert!(!seq_less(32768, 0));
}

#[test]
fn rtp_errors_say_what_is_wrong() {
    assert_eq!(
        RtpParseError::UnsupportedVersion(1).message(),
        "不支持的 RTP 版本号：1 (仅支持 2)"
    );
    assert_eq!(RtpEncodeError::InvalidField("version").message(), "字段取值非法：version");
    let _ = RtpCodecScaffold::new();
}

#[test]
fn flattening_joins_the_pieces() {
    let view = FragmentedView::from_fragments(vec![vec![1, 2], vec![], vec![3]]);
    assert_eq!(flatten_view(&view), vec![1, 2, 3]);
    assert_eq!(BufView::len(&view), 3);
}

#[test]
fn an_event_is_decoded() {
    assert_eq!(decode_dtmf(101, &[5, 0x8a, 0x03, 0x20]), Err(DtmfDecodeError::ReservedBitSet));
    assert_eq!(decode_dtmf(101, &[5, 0x4a, 0x03, 0x20]), Ok(DtmfEvent::new(5, true, 10, 800)));
    assert_eq!(
        decode_dtmf(101, &[5, 0x0a, 0, 1, 5, 0x4a, 0, 2]),
        Ok(DtmfEvent::new(5, true, 10, 2))
    );
}

#[test]
fn an_event_that_was_encoded_is_decoded_back() {
    let event = DtmfEvent::new(11, false, 63, 65535);
    let mut out = [0u8; 4];
    assert_eq!(encode_dtmf(96, &event, &mut out), Ok(4));
    assert_eq!(out, [11, 63, 255, 255]);
    assert_eq!(decode_dtmf(96, &out), Ok(event));
}

#[test]
fn events_are_checked() {
    assert_eq!(decode_dtmf(95, &[0; 4]), Err(DtmfDecodeError::InvalidPayloadType(95)));
    assert_eq!(decode_dtmf(128, &[0; 4]), Err(DtmfDecodeError::InvalidPayloadType(128)));
    assert_eq!(decode_dtmf(96, &[0; 3]), Err(DtmfDecodeError::PayloadTooShort));
    assert_eq!(decode_dtmf(96, &[0; 6]), Err(DtmfDecodeError::MisalignedPayload));
    assert_eq!(
        decode_dtmf(96, &[1, 0, 0, 0, 2, 0, 0, 0]),
        Err(DtmfDecodeError::InconsistentEvent)
    );
    let mut out = [0u8; 4];
    let event = DtmfEvent::new(1, false, 64, 0);
    assert_eq!(encode_dtmf(96, &event, &mut out), Err(DtmfEncodeError::VolumeOutOfRange(64)));
    let event = DtmfEvent::new(1, false, 0, 0);
    assert_eq!(encode_dtmf(95, &event, &mut out), Err(DtmfEncodeError::InvalidPayloadType(95)));
    assert_eq!(encode_dtmf(96, &event, &mut out[..3]), Err(DtmfEncodeError::BufferTooSmall));
    assert_eq!(
        DtmfDecodeError::InvalidPayloadType(95).message(),
        "DTMF payload type 必须位于 96-127 范围，实际为 95"
    );
}

#[test]
fn the_last_block_of_an_event_decides() {
    let events = [
        DtmfEvent::new(5, false, 10, 160),
        DtmfEvent::new(5, false, 12, 320),
        DtmfEvent::new(5, true, 11, 480),
    ];
    let mut payload = Vec::new();
    for event in &events {
        let mut block = [0u8; 4];
        assert_eq!(encode_dtmf(101, event, &mut block), Ok(4));
        payload.extend_from_slice(&block);
        assert_eq!(decode_dtmf(101, &payload), Ok(*event));
    }
}
