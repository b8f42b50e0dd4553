//! Reports built from statistics.
pub mod raw;

use crate::rtcp::packet::{
    ReceiverReport, ReceptionReport, RtcpPacket, SenderInfo, SenderReport,
};
use crate::rtcp::RtcpPacketVec;
use vstd::prelude::*;
use vstd::slice::slice_to_vec;

verus! {

use crate::rtcp::parse::{ReceiverReportView, RtcpPacketView, SenderReportView};

/// The smallest number of lost packets that a report can carry.
pub const MIN_CUMULATIVE_LOST: i32 = -8_388_608;

/// The largest number of lost packets that a report can carry.
pub const MAX_CUMULATIVE_LOST: i32 = 8_388_607;

/// A clock that maps wall clock time to the time of a medium.
pub trait RtpClock {
    /// The media time at the given wall clock time.
    fn to_rtp_timestamp(&self, ntp: &NtpTime) -> u32;
}

/// An NTP timestamp: seconds since 1900, modulo 2^32, and a binary fraction.
#[derive(Debug, Clone, Copy, PartialEq, Eq, Structural)]
pub struct NtpTime {
    /// Whole seconds.
    pub seconds: u32,
    /// Fraction of a second in units of 2^-32.
    pub fraction: u32,
}

impl NtpTime {
    /// The timestamp with these parts.
    pub fn from_parts(seconds: u32, fraction: u32) -> (r: Self)
        ensures
            r == (NtpTime { seconds, fraction }),
    {
        NtpTime { seconds, fraction }
    }

    /// Whole seconds.
    pub fn seconds(&self) -> (r: u32)
        ensures
            r == self.seconds,
    {
        self.seconds
    }

    /// Fraction of a second in units of 2^-32.
    pub fn fraction(&self) -> (r: u32)
        ensures
            r == self.fraction,
    {
        self.fraction
    }

    /// The timestamp as a number of units of 2^-32 seconds.
    pub open spec fn units(&self) -> int {
        self.seconds * 0x1_0000_0000 + self.fraction
    }

    /// The timestamp as a number of units of 2^-32 seconds.
    pub fn as_u64(&self) -> (r: u64)
        ensures
            r == self.units(),
    {
        self.seconds as u64 * 0x1_0000_0000 + self.fraction as u64
    }

    /// The middle 32 bits of the timestamp.
    pub open spec fn middle(&self) -> int {
        self.units() / 0x1_0000 % 0x1_0000_0000
    }

    /// The middle 32 bits of the timestamp.
    pub fn lsr(&self) -> (r: u32)
        ensures
            r == self.middle(),
    {
        (self.seconds % 0x1_0000) * 0x1_0000 + self.fraction / 0x1_0000
    }
}

/// A span of time.
#[derive(Debug, Clone, Copy, PartialEq, Eq, Structural)]
pub struct Elapsed {
    /// Whole seconds.
    pub secs: u64,
    /// Nanoseconds on top of them.
    pub nanos: u32,
}

/// What is measured about one source.
#[derive(Debug, Clone, PartialEq, Eq)]
pub struct ReceptionStatistics {
    /// The source.
    pub source_ssrc: u32,
    /// Fraction of packets lost since the last report, in 256ths.
    pub fraction_lost: u8,
    /// Packets lost in all.
    pub cumulative_lost: i32,
    /// Highest sequence number received, with the count of wrap-arounds.
    pub extended_highest_sequence: u32,
    /// Jitter in units of the media clock.
    pub interarrival_jitter: u32,
    /// Timestamp of the last sender report, if one came.
    pub last_sr: Option<NtpTime>,
    /// Time since the last sender report, if one came.
    pub delay_since_last_sr: Option<Elapsed>,
}

/// What a sender report is built from.
#[derive(Debug, Clone, PartialEq, Eq)]
pub struct SenderStatistics<'a> {
    /// The sender.
    pub sender_ssrc: u32,
    /// Wall clock time of the report.
    pub capture_ntp: NtpTime,
    /// The media time of the report, where the clock is not to be asked.
    pub rtp_timestamp_override: Option<u32>,
    /// Packets sent so far.
    pub sender_packet_count: u32,
    /// Payload bytes sent so far.
    pub sender_octet_count: u32,
    /// What is measured about others.
    pub reports: &'a [ReceptionStatistics],
    /// Extensions of the profile.
    pub profile_extensions: &'a [u8],
}

/// What a receiver report is built from.
#[derive(Debug, Clone, PartialEq, Eq)]
pub struct ReceiverStatistics<'a> {
    /// The receiver.
    pub reporter_ssrc: u32,
    /// What is measured about others.
    pub reports: &'a [ReceptionStatistics],
    /// Extensions of the profile.
    pub profile_extensions: &'a [u8],
}

/// The number nearest to `value` that fits in 24 signed bits.
pub open spec fn clamped_lost(value: i32) -> int {
    if value < -0x80_0000 {
        -0x80_0000
    } else if value > 0x7f_ffff {
        0x7f_ffff
    } else {
        value as int
    }
}

/// A span of time in units of 1/65536 seconds, at most what 32 bits hold.
pub open spec fn delay_units(delay: Elapsed) -> int {
    let units = delay.secs * 0x1_0000 + delay.nanos * 0x1_0000 / 1_000_000_000;
    if units > u32::MAX {
        u32::MAX as int
    } else {
        units
    }
}

/// The report block for a measurement. What is not known is written as zero.
pub open spec fn block_from(stats: ReceptionStatistics) -> ReceptionReport {
    ReceptionReport {
        source_ssrc: stats.source_ssrc,
        fraction_lost: stats.fraction_lost,
        cumulative_lost: clamped_lost(stats.cumulative_lost) as i32,
        extended_highest_sequence: stats.extended_highest_sequence,
        interarrival_jitter: stats.interarrival_jitter,
        last_sr_timestamp: match stats.last_sr {
            Some(ntp) => ntp.middle() as u32,
            None => 0,
        },
        delay_since_last_sr: match stats.delay_since_last_sr {
            Some(delay) => delay_units(delay) as u32,
            None => 0,
        },
    }
}

/// The report blocks for a list of measurements.
pub open spec fn blocks_from(list: Seq<ReceptionStatistics>) -> Seq<ReceptionReport> {
    Seq::new(list.len(), |i: int| block_from(list[i]))
}

/// The sender report for statistics and a media time.
pub open spec fn sender_report_from(stats: &SenderStatistics<'_>, rtp_timestamp: u32) -> RtcpPacketView {
    RtcpPacketView::SenderReport(
        SenderReportView {
            sender_ssrc: stats.sender_ssrc,
            sender_info: SenderInfo {
                ntp_timestamp: stats.capture_ntp.units() as u64,
                rtp_timestamp,
                sender_packet_count: stats.sender_packet_count,
                sender_octet_count: stats.sender_octet_count,
            },
            reports: blocks_from(stats.reports@),
            profile_extensions: stats.profile_extensions@,
        },
    )
}

/// The receiver report for statistics.
pub open spec fn receiver_report_from(stats: &ReceiverStatistics<'_>) -> RtcpPacketView {
    RtcpPacketView::ReceiverReport(
        ReceiverReportView {
            reporter_ssrc: stats.reporter_ssrc,
            reports: blocks_from(stats.reports@),
            profile_extensions: stats.profile_extensions@,
        },
    )
}

/// Brings a number of lost packets into range.
fn clamp_cumulative_lost(value: i32) -> (r: i32)
    ensures
        r == clamped_lost(value),
{
    if value < MIN_CUMULATIVE_LOST {
        MIN_CUMULATIVE_LOST
    } else if value > MAX_CUMULATIVE_LOST {
        MAX_CUMULATIVE_LOST
    } else {
        value
    }
}

/// A span of time in units of 1/65536 seconds.
fn encode_delay_since_last_sr(delay: Elapsed) -> (r: u32)
    ensures
        r == delay_units(delay),
{
    let fine: u64 = delay.nanos as u64 * 0x1_0000 / 1_000_000_000;
    if delay.secs >= 0x1_0000 {
        return u32::MAX;
    }
    let total: u64 = delay.secs * 0x1_0000 + fine;
    if total > u32::MAX as u64 {
        u32::MAX
    } else {
        total as u32
    }
}

/// The report block for a measurement.
fn reception_from_stats(stats: &ReceptionStatistics) -> (r: ReceptionReport)
    ensures
        r == block_from(*stats),
{
    ReceptionReport {
        source_ssrc: stats.source_ssrc,
        fraction_lost: stats.fraction_lost,
        cumulative_lost: clamp_cumulative_lost(stats.cumulative_lost),
        extended_highest_sequence: stats.extended_highest_sequence,
        interarrival_jitter: stats.interarrival_jitter,
        last_sr_timestamp: match stats.last_sr {
            Some(ntp) => ntp.lsr(),
            None => 0,
        },
        delay_since_last_sr: match stats.delay_since_last_sr {
            Some(delay) => encode_delay_since_last_sr(delay),
            None => 0,
        },
    }
}

/// The report blocks for a list of measurements.
fn receptions_from_stats(list: &[ReceptionStatistics]) -> (r: Vec<ReceptionReport>)
    ensures
        r@ == blocks_from(list@),
{
    let mut out: Vec<ReceptionReport> = Vec::new();
    let mut i: usize = 0;
    while i < list.len()
        invariant
            i <= list@.len(),
            out@ == blocks_from(list@).take(i as int),
        decreases list@.len() - i,
    {
        out.push(reception_from_stats(&list[i]));
        assert(out@ =~= blocks_from(list@).take(i + 1));
        i += 1;
    }
    assert(out@ =~= blocks_from(list@));
    out
}

/// Builds a sender report for a given media time and appends it.
pub fn build_sr_at(rtp_timestamp: u32, stats: &SenderStatistics<'_>, out: &mut RtcpPacketVec)
    ensures
        final(out)@.len() == old(out)@.len() + 1,
        final(out)@.drop_last() == old(out)@,
        final(out)@.last()@ == sender_report_from(stats, rtp_timestamp),
{
    let report = SenderReport {
        sender_ssrc: stats.sender_ssrc,
        sender_info: SenderInfo {
            ntp_timestamp: stats.capture_ntp.as_u64(),
            rtp_timestamp,
            sender_packet_count: stats.sender_packet_count,
            sender_octet_count: stats.sender_octet_count,
        },
        reports: receptions_from_stats(stats.reports),
        profile_extensions: slice_to_vec(stats.profile_extensions),
    };
    out.push(RtcpPacket::SenderReport(report));
    assert(out@.drop_last() =~= old(out)@);
}

/// Builds a sender report and appends it. The media time is the one that the statistics give, else
/// what the clock says for the wall clock time of the report.
pub fn build_sr<C: RtpClock>(clock: &C, stats: &SenderStatistics<'_>, out: &mut RtcpPacketVec)
    ensures
        final(out)@.len() == old(out)@.len() + 1,
        final(out)@.drop_last() == old(out)@,
        match stats.rtp_timestamp_override {
            Some(rtp_timestamp) => final(out)@.last()@ == sender_report_from(stats, rtp_timestamp),
            None => exists|rtp_timestamp: u32|
                {
                    &&& call_ensures(
                        C::to_rtp_timestamp,
                        (clock, &stats.capture_ntp),
                        rtp_timestamp,
                    )
                    &&& final(out)@.last()@ == #[trigger] sender_report_from(stats, rtp_timestamp)
                },
        },
{
    let rtp_timestamp: u32 = match stats.rtp_timestamp_override {
        Some(rtp_timestamp) => rtp_timestamp,
        None => clock.to_rtp_timestamp(&stats.capture_ntp),
    };
    build_sr_at(rtp_timestamp, stats, out);
}

/// Builds a receiver report and appends it.
pub fn build_rr(stats: &ReceiverStatistics<'_>, out: &mut RtcpPacketVec)
    ensures
        final(out)@.len() == old(out)@.len() + 1,
        final(out)@.drop_last() == old(out)@,
        final(out)@.last()@ == receiver_report_from(stats),
{
    let report = ReceiverReport {
        reporter_ssrc: stats.reporter_ssrc,
        reports: receptions_from_stats(stats.reports),
        profile_extensions: slice_to_vec(stats.profile_extensions),
    };
    out.push(RtcpPacket::ReceiverReport(report));
    assert(out@.drop_last() =~= old(out)@);
}

/// What a report carries of lost packets always fits in 24 signed bits, and a number that fits is
/// carried unchanged.
pub proof fn law_lost_packets_fit(value: i32)
    ensures
        -0x80_0000 <= clamped_lost(value) <= 0x7f_ffff,
        -0x80_0000 <= value <= 0x7f_ffff ==> clamped_lost(value) == value,
        clamped_lost(clamped_lost(value) as i32) == clamped_lost(value),
{
}

/// A longer delay is never reported as a shorter one.
pub proof fn law_delay_is_monotone(a: Elapsed, b: Elapsed)
    requires
        a.nanos < 1_000_000_000,
        b.nanos < 1_000_000_000,
        a.secs * 1_000_000_000 + a.nanos <= b.secs * 1_000_000_000 + b.nanos,
    ensures
        delay_units(a) <= delay_units(b),
{
}

} // verus!
