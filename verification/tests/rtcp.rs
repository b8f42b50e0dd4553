use spark_codecs::rtcp::error::RtcpError;
use spark_codecs::rtcp::new_packet_vec;
use spark_codecs::rtcp::packet::{
    Goodbye, ReceiverReport, ReceptionReport, RtcpPacket, SdesChunk, SdesItem, SenderInfo,
    SenderReport, SourceDescription,
};
use spark_codecs::rtcp::parse::parse_rtcp;
use spark_codecs::rtcp::stats::raw::{
    build_rr_raw, build_sr_raw, BuildError, ReceiverStat, ReceptionStat, RtpClockMapper,
    SenderStat, WallTime, NTP_UNIX_EPOCH_DELTA_SECS,
};
use spark_codecs::rtcp::stats::{
    build_rr, build_sr, build_sr_at, Elapsed, NtpTime, ReceiverStatistics, ReceptionStatistics,
    RtpClock, SenderStatistics,
};
use spark_codecs::script::support::FragmentedView;

const EMPTY_RR: [u8; 8] = [0x80, 201, 0, 1, 0, 0, 0, 9];

fn behind_report(packet: &[u8]) -> Vec<u8> {
    let mut bytes = EMPTY_RR.to_vec();
    bytes.extend_from_slice(packet);
    bytes
}

fn parse(bytes: &[u8]) -> Result<Vec<RtcpPacket>, RtcpError> {
    let bytes = bytes.to_vec();
    parse_rtcp(&bytes).map(|packets| packets.as_slice().to_vec())
}

fn empty_report() -> RtcpPacket {
    RtcpPacket::ReceiverReport(ReceiverReport {
        reporter_ssrc: 9,
        reports: Vec::new(),
        profile_extensions: Vec::new(),
    })
}

#[test]
fn a_sender_report_is_parsed() {
    let mut bytes = vec![0x81, 200, 0, 13];
    for word in [1u32, 2, 3, 4, 5, 6] {
        bytes.extend_from_slice(&word.to_be_bytes());
    }
    bytes.extend_from_slice(&[0, 0, 0, 7, 128, 0xff, 0xff, 0xfe]);
    for word in [10u32, 11, 12, 13] {
        bytes.extend_from_slice(&word.to_be_bytes());
    }
    bytes.extend_from_slice(&[1, 2, 3, 4]);
    let expected = RtcpPacket::SenderReport(SenderReport {
        sender_ssrc: 1,
        sender_info: SenderInfo {
            ntp_timestamp: (2 << 32) | 3,
            rtp_timestamp: 4,
            sender_packet_count: 5,
            sender_octet_count: 6,
        },
        reports: vec![ReceptionReport {
            source_ssrc: 7,
            fraction_lost: 128,
            cumulative_lost: -2,
            extended_highest_sequence: 10,
            interarrival_jitter: 11,
            last_sr_timestamp: 12,
            delay_since_last_sr: 13,
        }],
        profile_extensions: vec![1, 2, 3, 4],
    });
    assert_eq!(parse(&bytes), Ok(vec![expected.clone()]));
    let view = FragmentedView::from_splits(bytes, &[3, 1, 20]);
    assert_eq!(parse_rtcp(&view).expect("valid").as_slice(), &[expected]);
}

#[test]
fn descriptions_and_goodbyes_follow_a_report() {
    let mut bytes = behind_report(&[
        0x81, 202, 0, 3, 0, 0, 0, 9, 1, 3, b'a', b'@', b'b', 0, 0, 0,
    ]);
    bytes.extend_from_slice(&[0x81, 203, 0, 2, 0, 0, 0, 9, 3, b'b', b'y', b'e']);
    assert_eq!(
        parse(&bytes),
        Ok(vec![
            empty_report(),
            RtcpPacket::SourceDescription(SourceDescription {
                chunks: vec![SdesChunk {
                    source: 9,
                    items: vec![SdesItem { item_type: 1, value: b"a@b".to_vec() }],
                }],
            }),
            RtcpPacket::Goodbye(Goodbye { sources: vec![9], reason: Some("bye".to_string()) }),
        ])
    );
}

#[test]
fn a_goodbye_may_go_without_a_reason() {
    let bytes = behind_report(&[0x81, 203, 0, 1, 0, 0, 0, 9]);
    assert_eq!(
        parse(&bytes),
        Ok(vec![
            empty_report(),
            RtcpPacket::Goodbye(Goodbye { sources: vec![9], reason: None }),
        ])
    );
}

#[test]
fn padding_is_taken_off() {
    assert_eq!(parse(&[0xa0, 201, 0, 2, 0, 0, 0, 9, 0, 0, 0, 4]), Ok(vec![empty_report()]));
    let bytes = behind_report(&[0xa1, 203, 0, 3, 0, 0, 0, 9, 3, b'b', b'y', b'e', 0, 0, 0, 4]);
    assert_eq!(
        parse(&bytes),
        Ok(vec![
            empty_report(),
            RtcpPacket::Goodbye(Goodbye { sources: vec![9], reason: Some("bye".to_string()) }),
        ])
    );
    let bytes = behind_report(&[0xa1, 203, 0, 2, 0, 0, 0, 9, 2, b'h', b'i', 1]);
    assert_eq!(
        parse(&bytes),
        Ok(vec![
            empty_report(),
            RtcpPacket::Goodbye(Goodbye { sources: vec![9], reason: Some("hi".to_string()) }),
        ])
    );
}

#[test]
fn malformed_headers_are_refused() {
    assert_eq!(parse(&[]), Err(RtcpError::EmptyCompound));
    assert_eq!(parse(&[0x80, 200, 0]), Err(RtcpError::PacketTooShort { remaining: 3 }));
    assert_eq!(parse(&[0x40, 200, 0, 0]), Err(RtcpError::InvalidVersion { version: 1 }));
    assert_eq!(
        parse(&[0x80, 200, 0, 2, 0, 0, 0, 0]),
        Err(RtcpError::InvalidLengthField { declared_words: 2, available_bytes: 8 })
    );
    assert_eq!(
        parse(&[0xa0, 201, 0, 1, 0, 0, 0, 5]),
        Err(RtcpError::InvalidPadding { padding: 5, payload_len: 4 })
    );
    assert_eq!(
        parse(&[0xa0, 201, 0, 2, 0, 0, 0, 9, 0, 0, 0, 0]),
        Err(RtcpError::InvalidPadding { padding: 0, payload_len: 8 })
    );
    assert_eq!(
        parse(&[0xa0, 201, 0, 2, 0, 0, 0, 9, 0, 7, 0, 4]),
        Err(RtcpError::TrailingNonZeroPadding { packet_type: 201 })
    );
    assert_eq!(
        parse(&[0x80, 203, 0, 0]),
        Err(RtcpError::FirstPacketNotReport { packet_type: 203 })
    );
    assert_eq!(
        parse(&behind_report(&[0x80, 204, 0, 0])),
        Err(RtcpError::UnsupportedPacketType { packet_type: 204 })
    );
}

#[test]
fn malformed_payloads_are_refused() {
    assert_eq!(
        parse(&[0x81, 201, 0, 1, 0, 0, 0, 9]),
        Err(RtcpError::ReceptionReportTruncated { expected_blocks: 1, available_bytes: 0 })
    );
    assert_eq!(
        parse(&[0x80, 200, 0, 1, 0, 0, 0, 9]),
        Err(RtcpError::ReceptionReportTruncated { expected_blocks: 0, available_bytes: 4 })
    );
    assert_eq!(
        parse(&behind_report(&[0x81, 202, 0, 0])),
        Err(RtcpError::SdesChunkTruncated { chunk_index: 0, reason: "missing-ssrc" })
    );
    assert_eq!(
        parse(&behind_report(&[0x81, 202, 0, 1, 0, 0, 0, 1])),
        Err(RtcpError::SdesChunkTruncated { chunk_index: 0, reason: "missing-terminator" })
    );
    assert_eq!(
        parse(&behind_report(&[0x81, 202, 0, 2, 0, 0, 0, 1, 1, 9, b'a', b'b'])),
        Err(RtcpError::SdesChunkTruncated { chunk_index: 0, reason: "item-value-truncated" })
    );
    assert_eq!(
        parse(&behind_report(&[0x81, 202, 0, 2, 0, 0, 0, 1, 0, 0, 1, 0])),
        Err(RtcpError::SdesPaddingCorrupted { chunk_index: 0 })
    );
    assert_eq!(
        parse(&behind_report(&[0x80, 202, 0, 1, 0, 0, 0, 1])),
        Err(RtcpError::TrailingNonZeroPadding { packet_type: 202 })
    );
    assert_eq!(
        parse(&behind_report(&[0x82, 203, 0, 1, 0, 0, 0, 9])),
        Err(RtcpError::ByeSourcesTruncated { expected_sources: 2, available_bytes: 4 })
    );
    assert_eq!(
        parse(&behind_report(&[0x80, 203, 0, 1, 9, b'b', b'y', b'e'])),
        Err(RtcpError::ByeReasonTruncated { declared: 9, available: 3 })
    );
}

#[test]
fn rtcp_errors_say_what_is_wrong() {
    assert_eq!(
        RtcpError::InvalidLengthField { declared_words: 2, available_bytes: 8 }.message(),
        "长度字段声明 2 个 32-bit 单元，但仅剩 8 字节"
    );
    assert_eq!(
        RtcpError::SdesChunkTruncated { chunk_index: 1, reason: "missing-ssrc" }.message(),
        "SDES 分块 1 被截断，缺少 missing-ssrc"
    );
}

fn reception() -> ReceptionStatistics {
    ReceptionStatistics {
        source_ssrc: 7,
        fraction_lost: 1,
        cumulative_lost: 9_000_000,
        extended_highest_sequence: 2,
        interarrival_jitter: 3,
        last_sr: Some(NtpTime::from_parts(0x1122_3344, 0x5566_7788)),
        delay_since_last_sr: Some(Elapsed { secs: 1, nanos: 500_000_000 }),
    }
}

#[test]
fn reports_carry_what_was_measured() {
    let reports = [reception()];
    let stats = ReceiverStatistics { reporter_ssrc: 5, reports: &reports, profile_extensions: &[] };
    let mut out = new_packet_vec();
    build_rr(&stats, &mut out);
    assert_eq!(out.len(), 1);
    let expected = ReceptionReport {
        source_ssrc: 7,
        fraction_lost: 1,
        cumulative_lost: 8_388_607,
        extended_highest_sequence: 2,
        interarrival_jitter: 3,
        last_sr_timestamp: 0x3344_5566,
        delay_since_last_sr: 98_304,
    };
    assert_eq!(
        out.as_slice(),
        &[RtcpPacket::ReceiverReport(ReceiverReport {
            reporter_ssrc: 5,
            reports: vec![expected],
            profile_extensions: Vec::new(),
        })]
    );
}

struct Doubling;

impl RtpClock for Doubling {
    fn to_rtp_timestamp(&self, ntp: &NtpTime) -> u32 {
        ntp.seconds().wrapping_mul(2)
    }
}

fn rtp_timestamp(packet: &RtcpPacket) -> u32 {
    match packet {
        RtcpPacket::SenderReport(report) => report.sender_info.rtp_timestamp,
        _ => panic!("a sender report was built"),
    }
}

#[test]
fn a_timestamp_can_be_given_in_place_of_the_clock() {
    let mut stats = SenderStatistics {
        sender_ssrc: 1,
        capture_ntp: NtpTime::from_parts(21, 3),
        rtp_timestamp_override: None,
        sender_packet_count: 4,
        sender_octet_count: 5,
        reports: &[],
        profile_extensions: &[9, 9, 9, 9],
    };
    let mut out = new_packet_vec();
    build_sr(&Doubling, &stats, &mut out);
    stats.rtp_timestamp_override = Some(77);
    build_sr(&Doubling, &stats, &mut out);
    build_sr_at(66, &stats, &mut out);
    assert_eq!(out.len(), 3);
    assert_eq!(rtp_timestamp(&out.as_slice()[0]), 42);
    assert_eq!(rtp_timestamp(&out.as_slice()[1]), 77);
    assert_eq!(
        out.as_slice()[2],
        RtcpPacket::SenderReport(SenderReport {
            sender_ssrc: 1,
            sender_info: SenderInfo {
                ntp_timestamp: (21 << 32) | 3,
                rtp_timestamp: 66,
                sender_packet_count: 4,
                sender_octet_count: 5,
            },
            reports: Vec::new(),
            profile_extensions: vec![9, 9, 9, 9],
        })
    );
}

#[test]
fn ntp_timestamps_have_a_short_form() {
    let time = NtpTime::from_parts(0x1122_3344, 0x5566_7788);
    assert_eq!(time.as_u64(), 0x1122_3344_5566_7788);
    assert_eq!(time.lsr(), 0x3344_5566);
    assert_eq!(time.seconds(), 0x1122_3344);
    assert_eq!(time.fraction(), 0x5566_7788);
}

#[test]
fn the_media_clock_follows_the_wall_clock() {
    let origin = WallTime::new(100, 0).expect("valid");
    let clock = RtpClockMapper::new(origin, 1000, 8000);
    let (ntp, rtp) = clock.snapshot(WallTime::new(102, 500_000_000).expect("valid")).expect("later");
    assert_eq!(ntp >> 32, 102 + NTP_UNIX_EPOCH_DELTA_SECS as u64);
    assert_eq!(ntp & 0xffff_ffff, 1 << 31);
    assert_eq!(rtp, 1000 + 20_000);
    assert_eq!(
        clock.snapshot(WallTime::new(99, 999_999_999).expect("valid")),
        Err(BuildError::ClockWentBackwards)
    );
    let early = RtpClockMapper::new(
        WallTime::new(-NTP_UNIX_EPOCH_DELTA_SECS - 5, 0).expect("valid"),
        0,
        8000,
    );
    assert_eq!(
        early.snapshot(WallTime::new(-NTP_UNIX_EPOCH_DELTA_SECS - 1, 0).expect("valid")),
        Err(BuildError::SystemTimeBeforeNtpEpoch)
    );
    assert!(WallTime::new(0, 1_000_000_000).is_none());
}

fn stat(lost: i32) -> ReceptionStat {
    ReceptionStat {
        source_ssrc: 7,
        fraction_lost: 1,
        cumulative_lost: lost,
        extended_highest_sequence: 2,
        interarrival_jitter: 3,
        last_sr_timestamp: 4,
        delay_since_last_sr: 5,
    }
}

#[test]
fn reports_that_were_written_are_parsed_back() {
    let reports = [stat(-8_388_608), stat(-1), stat(8_388_607)];
    let mut out = Vec::new();
    let receiver = ReceiverStat { reporter_ssrc: 6, reports: &reports, profile_extensions: &[1; 8] };
    build_rr_raw(&receiver, &mut out).expect("valid");
    let clock = RtpClockMapper::new(WallTime::new(0, 0).expect("valid"), 0, 90_000);
    let sender = SenderStat {
        sender_ssrc: 8,
        capture_time: WallTime::new(1, 0).expect("valid"),
        sender_packet_count: 10,
        sender_octet_count: 11,
        reports: &reports[1..2],
        profile_extensions: &[],
    };
    build_sr_raw(&clock, &sender, &mut out).expect("valid");
    let packets = parse(&out).expect("valid");
    assert_eq!(packets.len(), 2);
    match &packets[0] {
        RtcpPacket::ReceiverReport(report) => {
            assert_eq!(report.reporter_ssrc, 6);
            assert_eq!(report.reports.len(), 3);
            assert_eq!(report.reports[0].cumulative_lost, -8_388_608);
            assert_eq!(report.reports[1].cumulative_lost, -1);
            assert_eq!(report.reports[2].cumulative_lost, 8_388_607);
            assert_eq!(report.profile_extensions, vec![1; 8]);
        }
        _ => panic!("the first packet is a receiver report"),
    }
    match &packets[1] {
        RtcpPacket::SenderReport(report) => {
            assert_eq!(report.sender_ssrc, 8);
            assert_eq!(report.sender_info.rtp_timestamp, 90_000);
            assert_eq!(report.sender_info.sender_packet_count, 10);
            assert_eq!(report.sender_info.sender_octet_count, 11);
            assert_eq!(report.reports.len(), 1);
        }
        _ => panic!("the second packet is a sender report"),
    }
}

#[test]
fn reports_that_cannot_be_written_are_refused() {
    let mut out = vec![42u8];
    let many = vec![stat(0); 32];
    let too_many = ReceiverStat { reporter_ssrc: 6, reports: &many, profile_extensions: &[] };
    assert_eq!(
        build_rr_raw(&too_many, &mut out),
        Err(BuildError::TooManyReports { count: 32 })
    );
    let misaligned = ReceiverStat { reporter_ssrc: 6, reports: &[], profile_extensions: &[1, 2] };
    assert_eq!(
        build_rr_raw(&misaligned, &mut out),
        Err(BuildError::MisalignedProfileExtension { len: 2 })
    );
    let lost = [stat(8_388_608)];
    let beyond = ReceiverStat { reporter_ssrc: 6, reports: &lost, profile_extensions: &[] };
    assert_eq!(
        build_rr_raw(&beyond, &mut out),
        Err(BuildError::CumulativeLostOutOfRange { value: 8_388_608 })
    );
}

#[test]
fn many_packets_fit_into_one_compound() {
    let bytes: Vec<u8> = EMPTY_RR.iter().copied().cycle().take(8 * 9).collect();
    assert_eq!(parse(&bytes), Ok(vec![empty_report(); 9]));
}
