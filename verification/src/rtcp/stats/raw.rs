//! Reports written straight to the wire.
use crate::rtcp::packet::ReceptionReport;
use crate::rtcp::stats::{MAX_CUMULATIVE_LOST, MIN_CUMULATIVE_LOST};
use crate::wire::{push_be16, push_be32, push_be64};
use vstd::prelude::*;

verus! {

use crate::rtcp::error::RtcpError;
use crate::rtcp::packet::SenderInfo;
use crate::rtcp::parse::{
    be24_signed, blocks_of, compound_of, packet_len, packet_of, packets_of, payload_of, report_at,
    reports_at, ReceiverReportView, RtcpPacketView, SenderReportView,
};
use crate::wire::{
    be16, be16_bytes, be32, be32_bytes, be64, be64_bytes, lemma_be16_round_trip,
    lemma_be32_round_trip, lemma_be64_round_trip,
};
use vstd::arithmetic::div_mod::lemma_hoist_over_denominator;

/// Seconds from 1900 to 1970.
pub const NTP_UNIX_EPOCH_DELTA_SECS: i64 = 2_208_988_800;

/// Why a report cannot be written.
#[derive(Debug, Clone, PartialEq, Eq, Structural)]
pub enum BuildError {
    /// More than 31 report blocks.
    TooManyReports {
        /// How many there are.
        count: usize,
    },
    /// Profile extensions that do not fill whole words.
    MisalignedProfileExtension {
        /// Their length.
        len: usize,
    },
    /// A time before 1900.
    SystemTimeBeforeNtpEpoch,
    /// A time before the origin of the clock.
    ClockWentBackwards,
    /// A number of lost packets that does not fit in 24 signed bits.
    CumulativeLostOutOfRange {
        /// The number.
        value: i32,
    },
}

/// A point in time: seconds since 1970, negative before, and nanoseconds on top of them.
#[derive(Debug, Clone, Copy, PartialEq, Eq)]
pub struct WallTime {
    secs: i64,
    nanos: u32,
}

impl WallTime {
    #[verifier::type_invariant]
    spec fn is_normal(&self) -> bool {
        self.nanos < 1_000_000_000
    }

    /// Seconds since 1970.
    pub closed spec fn whole(&self) -> int {
        self.secs as int
    }

    /// Nanoseconds on top of the seconds.
    pub closed spec fn part(&self) -> int {
        self.nanos as int
    }

    /// Nanoseconds since 1970.
    pub open spec fn total_nanos(&self) -> int {
        self.whole() * 1_000_000_000 + self.part()
    }

    /// The point in time with these parts; the nanoseconds must be less than a second.
    pub fn new(secs: i64, nanos: u32) -> (r: Option<Self>)
        ensures
            match r {
                Some(time) => nanos < 1_000_000_000 && time.whole() == secs && time.part() == nanos,
                None => nanos >= 1_000_000_000,
            },
    {
        if nanos < 1_000_000_000 {
            Some(WallTime { secs, nanos })
        } else {
            None
        }
    }
}

/// The NTP timestamp of a point in time, or nothing before 1900. The seconds wrap around at 2^32.
pub open spec fn ntp_of(whole: int, part: int) -> Option<int> {
    let since_1900 = whole + 2_208_988_800;
    if since_1900 < 0 {
        None
    } else {
        Some(since_1900 % 0x1_0000_0000 * 0x1_0000_0000 + part * 0x1_0000_0000 / 1_000_000_000)
    }
}

/// How often a clock ticks in a span of time.
pub open spec fn ticks_in(nanos: int, clock_rate: int) -> int {
    nanos * clock_rate / 1_000_000_000
}

/// Maps points in time to NTP timestamps and to the time of a medium.
#[derive(Debug, Clone, PartialEq, Eq)]
pub struct RtpClockMapper {
    origin_time: WallTime,
    origin_rtp: u32,
    clock_rate: u32,
}

impl RtpClockMapper {
    /// The point in time at which the medium begins.
    pub closed spec fn origin(&self) -> WallTime {
        self.origin_time
    }

    /// The media time at the origin.
    pub closed spec fn origin_media_time(&self) -> u32 {
        self.origin_rtp
    }

    /// Ticks per second.
    pub closed spec fn rate(&self) -> u32 {
        self.clock_rate
    }

    /// Both timestamps of a point in time, or why there are none.
    pub open spec fn stamps(&self, time: WallTime) -> Result<(int, int), BuildError> {
        match ntp_of(time.whole(), time.part()) {
            Some(ntp) => if time.total_nanos() < self.origin().total_nanos() {
                Err(BuildError::ClockWentBackwards)
            } else {
                Ok(
                    (
                        ntp,
                        (self.origin_media_time() + ticks_in(
                            time.total_nanos() - self.origin().total_nanos(),
                            self.rate() as int,
                        )) % 0x1_0000_0000,
                    ),
                )
            },
            None => Err(BuildError::SystemTimeBeforeNtpEpoch),
        }
    }

    /// A mapping with this origin and rate.
    pub fn new(origin_time: WallTime, origin_rtp: u32, clock_rate: u32) -> (r: Self)
        ensures
            r.origin() == origin_time,
            r.origin_media_time() == origin_rtp,
            r.rate() == clock_rate,
    {
        RtpClockMapper { origin_time, origin_rtp, clock_rate }
    }

    /// Ticks per second.
    pub fn clock_rate(&self) -> (r: u32)
        ensures
            r == self.rate(),
    {
        self.clock_rate
    }

    /// The NTP timestamp and the media time of a point in time.
    pub fn snapshot(&self, capture_time: WallTime) -> (r: Result<(u64, u32), BuildError>)
        ensures
            match r {
                Ok((ntp, rtp)) => self.stamps(capture_time) == Ok::<(int, int), BuildError>(
                    (ntp as int, rtp as int),
                ),
                Err(e) => self.stamps(capture_time) == Err::<(int, int), BuildError>(e),
            },
    {
        let ntp: u64 = match wall_time_to_ntp(capture_time) {
            Ok(ntp) => ntp,
            Err(e) => {
                return Err(e);
            },
        };
        let later: i128 = wall_time_nanos(capture_time);
        let earlier: i128 = wall_time_nanos(self.origin_time);
        if later < earlier {
            return Err(BuildError::ClockWentBackwards);
        }
        let ticks: u128 = duration_to_rtp_ticks((later - earlier) as u128, self.clock_rate);
        let rtp_timestamp: u32 = ((self.origin_rtp as u128 + ticks) % 0x1_0000_0000) as u32;
        Ok((ntp, rtp_timestamp))
    }
}

/// Nanoseconds since 1970.
fn wall_time_nanos(time: WallTime) -> (r: i128)
    ensures
        r == time.total_nanos(),
        -0x8000_0000_0000_0000 * 1_000_000_000 <= r < 0x8000_0000_0000_0000 * 1_000_000_000,
{
    proof {
        use_type_invariant(&time);
    }
    time.secs as i128 * 1_000_000_000 + time.nanos as i128
}

/// The NTP timestamp of a point in time.
fn wall_time_to_ntp(time: WallTime) -> (r: Result<u64, BuildError>)
    ensures
        match r {
            Ok(ntp) => ntp_of(time.whole(), time.part()) == Some(ntp as int),
            Err(e) => ntp_of(time.whole(), time.part()) is None && e
                == BuildError::SystemTimeBeforeNtpEpoch,
        },
{
    proof {
        use_type_invariant(&time);
    }
    let since_1900: i128 = time.secs as i128 + NTP_UNIX_EPOCH_DELTA_SECS as i128;
    if since_1900 < 0 {
        return Err(BuildError::SystemTimeBeforeNtpEpoch);
    }
    let seconds: u64 = (since_1900 as u128 % 0x1_0000_0000) as u64;
    let fraction: u64 = time.nanos as u64 * 0x1_0000_0000 / 1_000_000_000;
    Ok(seconds * 0x1_0000_0000 + fraction)
}

/// How often a clock ticks in a span of time.
fn duration_to_rtp_ticks(nanos: u128, clock_rate: u32) -> (r: u128)
    requires
        nanos < 0x1_0000_0000_0000_0000 * 1_000_000_000,
    ensures
        r == ticks_in(nanos as int, clock_rate as int),
        r <= 0x1_0000_0000_0000_0000 * 0x1_0000_0000,
{
    let rate: u128 = clock_rate as u128;
    let secs: u128 = nanos / 1_000_000_000;
    let rest: u128 = nanos % 1_000_000_000;
    assert(secs * rate <= 0xffff_ffff_ffff_ffff * 0xffff_ffff) by (nonlinear_arith)
        requires
            0 <= secs <= 0xffff_ffff_ffff_ffff,
            0 <= rate <= 0xffff_ffff,
    ;
    assert(rest * rate <= 999_999_999 * 0xffff_ffff) by (nonlinear_arith)
        requires
            0 <= rest <= 999_999_999,
            0 <= rate <= 0xffff_ffff,
    ;
    let whole: u128 = secs * rate;
    let frac: u128 = rest * rate / 1_000_000_000;
    proof {
        assert(nanos * rate == rest * rate + (secs * rate) * 1_000_000_000) by (nonlinear_arith)
            requires
                nanos == secs * 1_000_000_000 + rest,
        ;
        lemma_hoist_over_denominator(rest * rate, secs * rate, 1_000_000_000nat);
    }
    whole + frac
}

/// What one report block is written from.
#[derive(Debug, Clone, PartialEq, Eq)]
pub struct ReceptionStat {
    /// The source.
    pub source_ssrc: u32,
    /// Fraction of packets lost since the last report, in 256ths.
    pub fraction_lost: u8,
    /// Packets lost in all.
    pub cumulative_lost: i32,
    /// Highest sequence number received, with the count of wrap-arounds.
    pub extended_highest_sequence: u32,
    /// Jitter in units of the media clock.
    pub interarrival_jitter: u32,
    /// Middle of the NTP timestamp of the last sender report.
    pub last_sr_timestamp: u32,
    /// Time since the last sender report, in units of 1/65536 seconds.
    pub delay_since_last_sr: u32,
}

/// What a sender report is written from.
#[derive(Debug, Clone, PartialEq, Eq)]
pub struct SenderStat<'a> {
    /// The sender.
    pub sender_ssrc: u32,
    /// Point in time of the report.
    pub capture_time: WallTime,
    /// Packets sent so far.
    pub sender_packet_count: u32,
    /// Payload bytes sent so far.
    pub sender_octet_count: u32,
    /// What is measured about others.
    pub reports: &'a [ReceptionStat],
    /// Extensions of the profile.
    pub profile_extensions: &'a [u8],
}

/// What a receiver report is written from.
#[derive(Debug, Clone, PartialEq, Eq)]
pub struct ReceiverStat<'a> {
    /// The receiver.
    pub reporter_ssrc: u32,
    /// What is measured about others.
    pub reports: &'a [ReceptionStat],
    /// Extensions of the profile.
    pub profile_extensions: &'a [u8],
}

/// Whether a number fits in 24 signed bits.
pub open spec fn lost_fits(value: i32) -> bool {
    -0x80_0000 <= value <= 0x7f_ffff
}

/// A number in 24 bits, in two's complement.
pub open spec fn be24_bytes(value: i32) -> Seq<u8> {
    let bits = if value < 0 {
        value + 0x100_0000
    } else {
        value as int
    };
    seq![(bits / 0x1_0000) as u8, (bits / 0x100 % 0x100) as u8, (bits % 0x100) as u8]
}

/// The first bytes of a report block: source and fraction lost.
pub open spec fn block_lead(stat: ReceptionStat) -> Seq<u8> {
    be32_bytes(stat.source_ssrc).push(stat.fraction_lost)
}

/// A report block on the wire.
pub open spec fn block_bytes(stat: ReceptionStat) -> Seq<u8> {
    block_lead(stat) + be24_bytes(stat.cumulative_lost) + be32_bytes(
        stat.extended_highest_sequence,
    ) + be32_bytes(stat.interarrival_jitter) + be32_bytes(stat.last_sr_timestamp) + be32_bytes(
        stat.delay_since_last_sr,
    )
}

/// Report blocks on the wire.
pub open spec fn blocks_bytes(list: Seq<ReceptionStat>) -> Seq<u8>
    decreases list.len(),
{
    if list.len() == 0 {
        Seq::empty()
    } else {
        blocks_bytes(list.drop_last()) + block_bytes(list.last())
    }
}

/// The position of the first report whose number of lost packets does not fit, else the length.
pub open spec fn first_misfit(list: Seq<ReceptionStat>) -> int
    decreases list.len(),
{
    if list.len() == 0 {
        0
    } else {
        let n = first_misfit(list.drop_last());
        if n < list.len() - 1 || !lost_fits(list.last().cumulative_lost) {
            n
        } else {
            list.len() as int
        }
    }
}

/// The header of a report: version, count of blocks, type, and length in words less one, modulo
/// 2^16.
pub open spec fn report_header(count: int, packet_type: u8, length: int) -> Seq<u8> {
    seq![(128 + count % 32) as u8, packet_type] + be16_bytes((length % 0x1_0000) as u16)
}

/// The reason why reports and extensions are not acceptable, if there is one.
pub open spec fn report_defect(count: int, extension_len: int) -> Option<BuildError> {
    if count > 31 {
        Some(BuildError::TooManyReports { count: count as usize })
    } else if extension_len % 4 != 0 {
        Some(BuildError::MisalignedProfileExtension { len: extension_len as usize })
    } else {
        None
    }
}

/// What writing report blocks and extensions behind `lead` does: all of it, or the bytes up to the
/// first number that does not fit.
pub open spec fn blocks_written(
    before: Seq<u8>,
    after: Seq<u8>,
    lead: Seq<u8>,
    reports: Seq<ReceptionStat>,
    extensions: Seq<u8>,
    r: Result<(), BuildError>,
) -> bool {
    let n = first_misfit(reports);
    match r {
        Ok(_) => n == reports.len() && after == before + lead + blocks_bytes(reports) + extensions,
        Err(e) => {
            &&& n < reports.len()
            &&& e == BuildError::CumulativeLostOutOfRange { value: reports[n].cumulative_lost }
            &&& after == before + lead + blocks_bytes(reports.take(n)) + block_lead(reports[n])
        },
    }
}

/// The bytes of a sender report in front of its blocks.
pub open spec fn sr_lead(
    stat: &SenderStat<'_>,
    ntp_timestamp: u64,
    rtp_timestamp: u32,
) -> Seq<u8> {
    let count = stat.reports@.len() as int;
    let words = 6 + 6 * count + stat.profile_extensions@.len() / 4;
    report_header(count, 200, words) + be32_bytes(stat.sender_ssrc) + be64_bytes(ntp_timestamp)
        + be32_bytes(rtp_timestamp) + be32_bytes(stat.sender_packet_count) + be32_bytes(
        stat.sender_octet_count,
    )
}

/// The bytes of a receiver report in front of its blocks.
pub open spec fn rr_lead(stat: &ReceiverStat<'_>) -> Seq<u8> {
    let count = stat.reports@.len() as int;
    let words = 1 + 6 * count + stat.profile_extensions@.len() / 4;
    report_header(count, 201, words) + be32_bytes(stat.reporter_ssrc)
}

/// Checks count of blocks and length of extensions.
fn validate_report_constraints(count: usize, extension_len: usize) -> (r: Result<(), BuildError>)
    ensures
        match r {
            Ok(_) => report_defect(count as int, extension_len as int) is None,
            Err(e) => report_defect(count as int, extension_len as int) == Some(e),
        },
{
    if count > 31 {
        return Err(BuildError::TooManyReports { count });
    }
    if extension_len % 4 != 0 {
        return Err(BuildError::MisalignedProfileExtension { len: extension_len });
    }
    Ok(())
}

/// Writes the header of a report of `words` words behind the header.
fn write_header(out: &mut Vec<u8>, count: usize, packet_type: u8, words: usize)
    requires
        count <= 31,
    ensures
        final(out)@ == old(out)@ + report_header(count as int, packet_type, words as int),
{
    let ghost before = out@;
    out.push(128 + count as u8);
    out.push(packet_type);
    push_be16(out, (words % 0x1_0000) as u16);
    assert(out@ =~= before + report_header(count as int, packet_type, words as int));
}

/// A number of lost packets in 24 bits.
fn encode_cumulative_lost(value: i32) -> (r: Result<[u8; 3], BuildError>)
    ensures
        match r {
            Ok(bytes) => lost_fits(value) && bytes@ == be24_bytes(value),
            Err(e) => !lost_fits(value) && e == BuildError::CumulativeLostOutOfRange { value },
        },
{
    if value < MIN_CUMULATIVE_LOST || value > MAX_CUMULATIVE_LOST {
        return Err(BuildError::CumulativeLostOutOfRange { value });
    }
    let bits: u32 = if value < 0 {
        (value + 0x100_0000) as u32
    } else {
        value as u32
    };
    let r: [u8; 3] = [
        (bits / 0x1_0000) as u8,
        (bits / 0x100 % 0x100) as u8,
        (bits % 0x100) as u8,
    ];
    assert(r@ =~= be24_bytes(value));
    Ok(r)
}

/// Everything in front of the first misfit fits, and what fits is passed over.
proof fn lemma_first_misfit(list: Seq<ReceptionStat>, n: int)
    requires
        0 <= n <= list.len(),
        forall|k: int| 0 <= k < n ==> lost_fits((#[trigger] list[k]).cumulative_lost),
        n < list.len() ==> !lost_fits(list[n].cumulative_lost),
    ensures
        first_misfit(list) == n,
    decreases list.len(),
{
    if list.len() > 0 {
        let init = list.drop_last();
        if n < list.len() {
            if n < init.len() {
                assert(init[n] == list[n]);
            }
            assert forall|k: int| 0 <= k < n implies lost_fits(
                (#[trigger] init[k]).cumulative_lost,
            ) by {
                assert(init[k] == list[k]);
            }
            lemma_first_misfit(init, n);
        } else {
            assert forall|k: int| 0 <= k < n - 1 implies lost_fits(
                (#[trigger] init[k]).cumulative_lost,
            ) by {
                assert(init[k] == list[k]);
            }
            lemma_first_misfit(init, n - 1);
            assert(lost_fits(list[n - 1].cumulative_lost));
        }
    }
}

/// Writes report blocks; stops at the first number that does not fit.
fn write_reception_reports(out: &mut Vec<u8>, reports: &[ReceptionStat]) -> (r: Result<
    (),
    BuildError,
>)
    ensures
        blocks_written(old(out)@, final(out)@, Seq::empty(), reports@, Seq::empty(), r),
{
    let ghost before = out@;
    let mut i: usize = 0;
    assert(before + blocks_bytes(reports@.take(0)) =~= before);
    while i < reports.len()
        invariant
            i <= reports@.len(),
            before == old(out)@,
            out@ == before + blocks_bytes(reports@.take(i as int)),
            forall|k: int| 0 <= k < i ==> lost_fits((#[trigger] reports@[k]).cumulative_lost),
        decreases reports@.len() - i,
    {
        let report = &reports[i];
        let ghost so_far = out@;
        push_be32(out, report.source_ssrc);
        out.push(report.fraction_lost);
        assert(out@ =~= so_far + block_lead(*report));
        match encode_cumulative_lost(report.cumulative_lost) {
            Ok(bytes) => {
                out.push(bytes[0]);
                out.push(bytes[1]);
                out.push(bytes[2]);
            },
            Err(e) => {
                proof {
                    lemma_first_misfit(reports@, i as int);
                    assert(out@ =~= before + Seq::<u8>::empty() + blocks_bytes(
                        reports@.take(i as int),
                    ) + block_lead(reports@[i as int]));
                }
                return Err(e);
            },
        }
        push_be32(out, report.extended_highest_sequence);
        push_be32(out, report.interarrival_jitter);
        push_be32(out, report.last_sr_timestamp);
        push_be32(out, report.delay_since_last_sr);
        proof {
            assert(out@ =~= so_far + block_bytes(*report));
            assert(reports@.take(i + 1).drop_last() =~= reports@.take(i as int));
            assert(out@ =~= before + blocks_bytes(reports@.take(i + 1)));
        }
        i += 1;
    }
    proof {
        lemma_first_misfit(reports@, reports@.len() as int);
        assert(reports@.take(i as int) =~= reports@);
        assert(out@ =~= before + Seq::<u8>::empty() + blocks_bytes(reports@) + Seq::<u8>::empty());
    }
    Ok(())
}

/// Writes report blocks and extensions behind `lead`, which was just written.
fn write_blocks(
    out: &mut Vec<u8>,
    reports: &[ReceptionStat],
    extensions: &[u8],
    Ghost(before): Ghost<Seq<u8>>,
    Ghost(lead): Ghost<Seq<u8>>,
) -> (r: Result<(), BuildError>)
    requires
        old(out)@ == before + lead,
    ensures
        blocks_written(before, final(out)@, lead, reports@, extensions@, r),
{
    match write_reception_reports(out, reports) {
        Ok(_) => {},
        Err(e) => {
            proof {
                let n = first_misfit(reports@);
                assert(out@ =~= before + lead + blocks_bytes(reports@.take(n)) + block_lead(
                    reports@[n],
                ));
            }
            return Err(e);
        },
    }
    out.extend_from_slice(extensions);
    assert(out@ =~= before + lead + blocks_bytes(reports@) + extensions@);
    Ok(())
}

/// Writes a sender report behind what `out` holds.
pub fn build_sr_raw(clock: &RtpClockMapper, sender_stat: &SenderStat<'_>, out: &mut Vec<u8>) -> (r:
    Result<(), BuildError>)
    ensures
        match report_defect(
            sender_stat.reports@.len() as int,
            sender_stat.profile_extensions@.len() as int,
        ) {
            Some(e) => r == Err::<(), BuildError>(e) && final(out)@ == old(out)@,
            None => match clock.stamps(sender_stat.capture_time) {
                Ok((ntp, rtp)) => blocks_written(
                    old(out)@,
                    final(out)@,
                    sr_lead(sender_stat, ntp as u64, rtp as u32),
                    sender_stat.reports@,
                    sender_stat.profile_extensions@,
                    r,
                ),
                Err(e) => r == Err::<(), BuildError>(e) && final(out)@ == old(out)@,
            },
        },
{
    let count: usize = sender_stat.reports.len();
    let extension_len: usize = sender_stat.profile_extensions.len();
    match validate_report_constraints(count, extension_len) {
        Ok(_) => {},
        Err(e) => {
            return Err(e);
        },
    }
    let (ntp_timestamp, rtp_timestamp) = match clock.snapshot(sender_stat.capture_time) {
        Ok(stamps) => stamps,
        Err(e) => {
            return Err(e);
        },
    };
    let ghost before = out@;
    let ghost lead = sr_lead(sender_stat, ntp_timestamp, rtp_timestamp);
    write_header(out, count, 200, 6 + 6 * count + extension_len / 4);
    push_be32(out, sender_stat.sender_ssrc);
    push_be64(out, ntp_timestamp);
    push_be32(out, rtp_timestamp);
    push_be32(out, sender_stat.sender_packet_count);
    push_be32(out, sender_stat.sender_octet_count);
    assert(out@ =~= before + lead);
    write_blocks(
        out,
        sender_stat.reports,
        sender_stat.profile_extensions,
        Ghost(before),
        Ghost(lead),
    )
}

/// Writes a receiver report behind what `out` holds.
pub fn build_rr_raw(recv_stat: &ReceiverStat<'_>, out: &mut Vec<u8>) -> (r: Result<(), BuildError>)
    ensures
        match report_defect(
            recv_stat.reports@.len() as int,
            recv_stat.profile_extensions@.len() as int,
        ) {
            Some(e) => r == Err::<(), BuildError>(e) && final(out)@ == old(out)@,
            None => blocks_written(
                old(out)@,
                final(out)@,
                rr_lead(recv_stat),
                recv_stat.reports@,
                recv_stat.profile_extensions@,
                r,
            ),
        },
{
    let count: usize = recv_stat.reports.len();
    let extension_len: usize = recv_stat.profile_extensions.len();
    match validate_report_constraints(count, extension_len) {
        Ok(_) => {},
        Err(e) => {
            return Err(e);
        },
    }
    let ghost before = out@;
    let ghost lead = rr_lead(recv_stat);
    write_header(out, count, 201, 1 + 6 * count + extension_len / 4);
    push_be32(out, recv_stat.reporter_ssrc);
    assert(out@ =~= before + lead);
    write_blocks(
        out,
        recv_stat.reports,
        recv_stat.profile_extensions,
        Ghost(before),
        Ghost(lead),
    )
}

/// What the receiver of a report block reads.
pub open spec fn stat_report(stat: ReceptionStat) -> ReceptionReport {
    ReceptionReport {
        source_ssrc: stat.source_ssrc,
        fraction_lost: stat.fraction_lost,
        cumulative_lost: stat.cumulative_lost,
        extended_highest_sequence: stat.extended_highest_sequence,
        interarrival_jitter: stat.interarrival_jitter,
        last_sr_timestamp: stat.last_sr_timestamp,
        delay_since_last_sr: stat.delay_since_last_sr,
    }
}

/// What the receiver of report blocks reads.
pub open spec fn stat_reports(list: Seq<ReceptionStat>) -> Seq<ReceptionReport> {
    Seq::new(list.len(), |i: int| stat_report(list[i]))
}

/// Whether every number of lost packets fits.
pub open spec fn all_lost_fit(list: Seq<ReceptionStat>) -> bool {
    forall|k: int| 0 <= k < list.len() ==> lost_fits((#[trigger] list[k]).cumulative_lost)
}

/// Reading back a number of 24 bits gives the number that was written.
pub proof fn law_lost_round_trip(value: i32)
    requires
        lost_fits(value),
    ensures
        be24_bytes(value).len() == 3,
        be24_signed(be24_bytes(value), 0) == value,
{
}

/// Reading back a report block gives what it was written from.
proof fn lemma_block_round_trip(stat: ReceptionStat)
    requires
        lost_fits(stat.cumulative_lost),
    ensures
        block_bytes(stat).len() == 24,
        report_at(block_bytes(stat), 0) == stat_report(stat),
{
    let bytes = block_bytes(stat);
    law_lost_round_trip(stat.cumulative_lost);
    lemma_be32_round_trip(stat.source_ssrc);
    lemma_be32_round_trip(stat.extended_highest_sequence);
    lemma_be32_round_trip(stat.interarrival_jitter);
    lemma_be32_round_trip(stat.last_sr_timestamp);
    lemma_be32_round_trip(stat.delay_since_last_sr);
    assert(be32(bytes, 0) == be32(be32_bytes(stat.source_ssrc), 0));
    assert(be24_signed(bytes, 5) == be24_signed(be24_bytes(stat.cumulative_lost), 0));
    assert(be32(bytes, 8) == be32(be32_bytes(stat.extended_highest_sequence), 0));
    assert(be32(bytes, 12) == be32(be32_bytes(stat.interarrival_jitter), 0));
    assert(be32(bytes, 16) == be32(be32_bytes(stat.last_sr_timestamp), 0));
    assert(be32(bytes, 20) == be32(be32_bytes(stat.delay_since_last_sr), 0));
}

/// A block has 24 bytes.
proof fn lemma_blocks_len(list: Seq<ReceptionStat>)
    ensures
        blocks_bytes(list).len() == 24 * list.len(),
    decreases list.len(),
{
    if list.len() > 0 {
        lemma_blocks_len(list.drop_last());
    }
}

/// The blocks stand one behind the other.
proof fn lemma_block_at(list: Seq<ReceptionStat>, i: int)
    requires
        0 <= i < list.len(),
    ensures
        blocks_bytes(list).len() == 24 * list.len(),
        blocks_bytes(list).subrange(24 * i, 24 * i + 24) == block_bytes(list[i]),
    decreases list.len(),
{
    let init = list.drop_last();
    lemma_blocks_len(list);
    lemma_blocks_len(init);
    if i == list.len() - 1 {
        assert(blocks_bytes(list).subrange(24 * i, 24 * i + 24) =~= block_bytes(list[i]));
    } else {
        lemma_block_at(init, i);
        assert(init[i] == list[i]);
        assert(blocks_bytes(list).subrange(24 * i, 24 * i + 24) =~= blocks_bytes(init).subrange(
            24 * i,
            24 * i + 24,
        ));
    }
}

/// Behind `fixed` bytes, blocks and extensions are read back as they were written.
proof fn lemma_blocks_round_trip(fixed: Seq<u8>, list: Seq<ReceptionStat>, extensions: Seq<u8>)
    requires
        all_lost_fit(list),
        extensions.len() % 4 == 0,
    ensures
        blocks_of(
            fixed + blocks_bytes(list) + extensions,
            fixed.len() as int,
            list.len() as int,
        ) == Ok::<(Seq<ReceptionReport>, Seq<u8>), RtcpError>((stat_reports(list), extensions)),
{
    let payload = fixed + blocks_bytes(list) + extensions;
    let f = fixed.len() as int;
    lemma_blocks_len(list);
    assert forall|i: int| 0 <= i < list.len() implies #[trigger] reports_at(
        payload,
        f,
        list.len() as int,
    )[i] == stat_reports(list)[i] by {
        lemma_block_at(list, i);
        assert(lost_fits(list[i].cumulative_lost));
        lemma_block_round_trip(list[i]);
        let block = block_bytes(list[i]);
        assert forall|k: int| 0 <= k < 24 implies #[trigger] payload[f + 24 * i + k]
            == block[k] by {
            assert(blocks_bytes(list).subrange(24 * i, 24 * i + 24)[k] == block[k]);
        }
        assert(payload[f + 24 * i + 0] == block[0]);
        assert(report_at(payload, f + 24 * i) == report_at(block, 0)) by {
            let at = f + 24 * i;
            assert(be32(payload, at) == be32(block, 0)) by {
                assert(payload[at + 0] == block[0] && payload[at + 1] == block[1]);
                assert(payload[at + 2] == block[2] && payload[at + 3] == block[3]);
            }
            assert(payload[at + 4] == block[4]);
            assert(be24_signed(payload, at + 5) == be24_signed(block, 5)) by {
                assert(payload[at + 5] == block[5] && payload[at + 6] == block[6]);
                assert(payload[at + 7] == block[7]);
            }
            assert(be32(payload, at + 8) == be32(block, 8)) by {
                assert(payload[at + 8] == block[8] && payload[at + 9] == block[9]);
                assert(payload[at + 10] == block[10] && payload[at + 11] == block[11]);
            }
            assert(be32(payload, at + 12) == be32(block, 12)) by {
                assert(payload[at + 12] == block[12] && payload[at + 13] == block[13]);
                assert(payload[at + 14] == block[14] && payload[at + 15] == block[15]);
            }
            assert(be32(payload, at + 16) == be32(block, 16)) by {
                assert(payload[at + 16] == block[16] && payload[at + 17] == block[17]);
                assert(payload[at + 18] == block[18] && payload[at + 19] == block[19]);
            }
            assert(be32(payload, at + 20) == be32(block, 20)) by {
                assert(payload[at + 20] == block[20] && payload[at + 21] == block[21]);
                assert(payload[at + 22] == block[22] && payload[at + 23] == block[23]);
            }
        }
    }
    assert(reports_at(payload, f, list.len() as int) =~= stat_reports(list));
    assert(payload.skip(f + 24 * list.len()) =~= extensions);
}

/// A report whose length fits in the header is one packet, and its payload is what follows the
/// header.
proof fn lemma_report_packet(count: int, packet_type: u8, words: int, payload: Seq<u8>)
    requires
        0 <= count <= 31,
        0 <= words <= 0xffff,
        payload.len() == 4 * words,
    ensures
        ({
            let bytes = report_header(count, packet_type, words) + payload;
            &&& bytes.len() == 4 * (words + 1)
            &&& packet_len(bytes) == bytes.len()
            &&& payload_of(bytes) == Ok::<Seq<u8>, RtcpError>(payload)
            &&& bytes[0] as int % 32 == count
            &&& bytes[1] == packet_type
        }),
{
    let header = report_header(count, packet_type, words);
    let bytes = header + payload;
    lemma_be16_round_trip(words as u16);
    assert(be16(bytes, 2) == be16(be16_bytes(words as u16), 0));
    assert(bytes.take(bytes.len() as int).skip(4) =~= payload);
}

/// A compound of one report is that report.
proof fn lemma_single_report(bytes: Seq<u8>, packet: RtcpPacketView)
    requires
        bytes.len() > 0,
        packet_len(bytes) == bytes.len(),
        packet_of(bytes, true) == Ok::<RtcpPacketView, RtcpError>(packet),
    ensures
        compound_of(bytes) == Ok::<Seq<RtcpPacketView>, RtcpError>(seq![packet]),
{
    let rest = bytes.skip(packet_len(bytes));
    assert(rest.len() == 0);
    assert(packets_of(rest, false) == Ok::<Seq<RtcpPacketView>, RtcpError>(Seq::empty()));
    assert(seq![packet] + Seq::<RtcpPacketView>::empty() =~= seq![packet]);
}

/// The bytes of a sender report between its header and its blocks.
spec fn sender_fixed(stat: &SenderStat<'_>, ntp_timestamp: u64, rtp_timestamp: u32) -> Seq<u8> {
    be32_bytes(stat.sender_ssrc) + be64_bytes(ntp_timestamp) + be32_bytes(rtp_timestamp)
        + be32_bytes(stat.sender_packet_count) + be32_bytes(stat.sender_octet_count)
}

/// What the fixed part of a sender report is written from can be read at its place.
proof fn lemma_sender_fixed(
    stat: &SenderStat<'_>,
    ntp_timestamp: u64,
    rtp_timestamp: u32,
    tail: Seq<u8>,
)
    ensures
        sender_fixed(stat, ntp_timestamp, rtp_timestamp).len() == 24,
        ({
            let payload = sender_fixed(stat, ntp_timestamp, rtp_timestamp) + tail;
            &&& be32(payload, 0) == stat.sender_ssrc
            &&& be64(payload, 4) == ntp_timestamp
            &&& be32(payload, 12) == rtp_timestamp
            &&& be32(payload, 16) == stat.sender_packet_count
            &&& be32(payload, 20) == stat.sender_octet_count
        }),
{
    let payload = sender_fixed(stat, ntp_timestamp, rtp_timestamp) + tail;
    lemma_be32_round_trip(stat.sender_ssrc);
    lemma_be64_round_trip(ntp_timestamp);
    lemma_be32_round_trip(rtp_timestamp);
    lemma_be32_round_trip(stat.sender_packet_count);
    lemma_be32_round_trip(stat.sender_octet_count);
    assert(be32(payload, 0) == be32(be32_bytes(stat.sender_ssrc), 0));
    assert(be64(payload, 4) == be64(be64_bytes(ntp_timestamp), 0));
    assert(be32(payload, 12) == be32(be32_bytes(rtp_timestamp), 0));
    assert(be32(payload, 16) == be32(be32_bytes(stat.sender_packet_count), 0));
    assert(be32(payload, 20) == be32(be32_bytes(stat.sender_octet_count), 0));
}

/// How the pieces of a sender report are grouped does not matter.
proof fn lemma_sender_image(
    header: Seq<u8>,
    a: Seq<u8>,
    b: Seq<u8>,
    c: Seq<u8>,
    d: Seq<u8>,
    e: Seq<u8>,
    blocks: Seq<u8>,
    extensions: Seq<u8>,
)
    ensures
        header + a + b + c + d + e + blocks + extensions == header + (a + b + c + d + e + blocks
            + extensions),
        a + b + c + d + e + blocks + extensions == a + b + c + d + e + (blocks + extensions),
{
    assert(header + a + b + c + d + e + blocks + extensions =~= header + (a + b + c + d + e
        + blocks + extensions));
    assert(a + b + c + d + e + blocks + extensions =~= a + b + c + d + e + (blocks + extensions));
}

/// Parsing a sender report that was written gives back its timestamps, its counts, its blocks and
/// its extensions, if its length fits in the header.
pub proof fn law_sender_report_round_trip(
    stat: &SenderStat<'_>,
    ntp_timestamp: u64,
    rtp_timestamp: u32,
)
    requires
        report_defect(
            stat.reports@.len() as int,
            stat.profile_extensions@.len() as int,
        ) is None,
        all_lost_fit(stat.reports@),
        6 + 6 * stat.reports@.len() + stat.profile_extensions@.len() / 4 <= 0xffff,
    ensures
        compound_of(
            sr_lead(stat, ntp_timestamp, rtp_timestamp) + blocks_bytes(stat.reports@)
                + stat.profile_extensions@,
        ) == Ok::<Seq<RtcpPacketView>, RtcpError>(
            seq![
                RtcpPacketView::SenderReport(
                    SenderReportView {
                        sender_ssrc: stat.sender_ssrc,
                        sender_info: SenderInfo {
                            ntp_timestamp,
                            rtp_timestamp,
                            sender_packet_count: stat.sender_packet_count,
                            sender_octet_count: stat.sender_octet_count,
                        },
                        reports: stat_reports(stat.reports@),
                        profile_extensions: stat.profile_extensions@,
                    },
                ),
            ],
        ),
{
    let list = stat.reports@;
    let ext = stat.profile_extensions@;
    let count = list.len() as int;
    let words = 6 + 6 * count + ext.len() / 4;
    let fixed = sender_fixed(stat, ntp_timestamp, rtp_timestamp);
    let payload = fixed + blocks_bytes(list) + ext;
    let bytes = report_header(count, 200, words) + payload;
    lemma_blocks_len(list);
    lemma_sender_fixed(stat, ntp_timestamp, rtp_timestamp, blocks_bytes(list) + ext);
    lemma_sender_image(
        report_header(count, 200, words),
        be32_bytes(stat.sender_ssrc),
        be64_bytes(ntp_timestamp),
        be32_bytes(rtp_timestamp),
        be32_bytes(stat.sender_packet_count),
        be32_bytes(stat.sender_octet_count),
        blocks_bytes(list),
        ext,
    );
    lemma_blocks_round_trip(fixed, list, ext);
    lemma_report_packet(count, 200, words, payload);
    lemma_single_report(bytes, packet_of(bytes, true)->Ok_0);
}

/// Parsing a receiver report that was written gives back its blocks and its extensions, if its
/// length fits in the header.
pub proof fn law_receiver_report_round_trip(stat: &ReceiverStat<'_>)
    requires
        report_defect(
            stat.reports@.len() as int,
            stat.profile_extensions@.len() as int,
        ) is None,
        all_lost_fit(stat.reports@),
        1 + 6 * stat.reports@.len() + stat.profile_extensions@.len() / 4 <= 0xffff,
    ensures
        compound_of(rr_lead(stat) + blocks_bytes(stat.reports@) + stat.profile_extensions@) == Ok::<
            Seq<RtcpPacketView>,
            RtcpError,
        >(
            seq![
                RtcpPacketView::ReceiverReport(
                    ReceiverReportView {
                        reporter_ssrc: stat.reporter_ssrc,
                        reports: stat_reports(stat.reports@),
                        profile_extensions: stat.profile_extensions@,
                    },
                ),
            ],
        ),
{
    let list = stat.reports@;
    let ext = stat.profile_extensions@;
    let count = list.len() as int;
    let words = 1 + 6 * count + ext.len() / 4;
    let fixed = be32_bytes(stat.reporter_ssrc);
    let payload = fixed + blocks_bytes(list) + ext;
    let bytes = report_header(count, 201, words) + payload;
    lemma_blocks_len(list);
    lemma_be32_round_trip(stat.reporter_ssrc);
    lemma_blocks_round_trip(fixed, list, ext);
    lemma_report_packet(count, 201, words, payload);
    assert(be32(payload, 0) == be32(be32_bytes(stat.reporter_ssrc), 0));
    lemma_single_report(bytes, packet_of(bytes, true)->Ok_0);
    assert(rr_lead(stat) + blocks_bytes(list) + ext =~= bytes);
}

/// Media time that advances by whole seconds advances by the clock rate for each of them.
pub proof fn law_ticks_of_whole_seconds(seconds: int, clock_rate: int)
    requires
        seconds >= 0,
    ensures
        ticks_in(seconds * 1_000_000_000, clock_rate) == seconds * clock_rate,
{
    assert(seconds * 1_000_000_000 * clock_rate == 0 + (seconds * clock_rate) * 1_000_000_000)
        by (nonlinear_arith);
    lemma_hoist_over_denominator(0, seconds * clock_rate, 1_000_000_000nat);
}

/// Timestamps count from 1900: seventy years, seventeen of them with a day more, before 1970. A second
/// is 2^32 units, and a part of a second as many units as fit. Before 1900 there is none.
pub proof fn law_timestamps_count_from_1900(whole: int, part: int)
    requires
        0 <= part < 1_000_000_000,
    ensures
        ({
            let years = (70 * 365 + 17) * 86400;
            &&& whole < -years <==> ntp_of(whole, part) is None
            &&& -years <= whole < 4294967296 - years ==> {
                &&& ntp_of(whole, 0) == Some((whole + years) * 4294967296)
                &&& ntp_of(whole, part) matches Some(stamp)
                &&& 0 <= stamp - (whole + years) * 4294967296 < 4294967296
                &&& (stamp - (whole + years) * 4294967296) * 1_000_000_000 <= part * 4294967296
                &&& part * 4294967296 < (stamp - (whole + years) * 4294967296 + 1) * 1_000_000_000
            }
            &&& whole >= -years ==> ntp_of(whole + 4294967296, part) == ntp_of(whole, part)
        }),
{
}

/// Media time advances by the clock rate in a second, rounded down, and begins at the origin with the
/// time of the origin.
pub proof fn law_media_time(nanos: int, clock_rate: int)
    requires
        nanos >= 0,
        clock_rate >= 0,
    ensures
        ticks_in(0, clock_rate) == 0,
        ticks_in(nanos, clock_rate) * 1_000_000_000 <= nanos * clock_rate,
        nanos * clock_rate < (ticks_in(nanos, clock_rate) + 1) * 1_000_000_000,
{
    assert(0 * clock_rate == 0) by (nonlinear_arith);
}

/// A point in time has timestamps exactly if it lies behind 1900 and not in front of the origin; at the
/// origin the media time is that of the origin.
pub proof fn law_stamps_of_a_point_in_time(clock: &RtpClockMapper, time: WallTime)
    ensures
        time.whole() < -2208988800 ==> clock.stamps(time) == Err::<(int, int), BuildError>(
            BuildError::SystemTimeBeforeNtpEpoch,
        ),
        time.whole() >= -2208988800 && time.total_nanos() < clock.origin().total_nanos()
            ==> clock.stamps(time) == Err::<(int, int), BuildError>(BuildError::ClockWentBackwards),
        time.whole() >= -2208988800 && time.total_nanos() >= clock.origin().total_nanos() ==> {
            let passed = time.total_nanos() - clock.origin().total_nanos();
            &&& clock.stamps(time) matches Ok((ntp, media))
            &&& Some(ntp) == ntp_of(time.whole(), time.part())
            &&& media == (clock.origin_media_time() + ticks_in(passed, clock.rate() as int))
                % 4294967296
            &&& passed == 0 ==> media == clock.origin_media_time()
        },
        time.total_nanos() == time.whole() * 1_000_000_000 + time.part(),
{
    law_media_time(0, clock.rate() as int);
}

/// The report that is named is the first whose number of lost packets does not fit in 24 signed bits.
pub proof fn law_first_misfit(list: Seq<ReceptionStat>)
    ensures
        ({
            let n = first_misfit(list);
            &&& 0 <= n <= list.len()
            &&& forall|k: int|
                0 <= k < n ==> -8388608 <= (#[trigger] list[k]).cumulative_lost <= 8388607
            &&& n < list.len() ==> list[n].cumulative_lost < -8388608 || list[n].cumulative_lost
                > 8388607
        }),
    decreases list.len(),
{
    if list.len() > 0 {
        let init = list.drop_last();
        law_first_misfit(init);
        assert(forall|k: int| 0 <= k < init.len() ==> init[k] == #[trigger] list[k]);
    }
}

/// A report carries at most 31 blocks, and extensions that fill whole words; too many blocks are named
/// first.
pub proof fn law_acceptable_reports(count: usize, extension_len: usize)
    ensures
        report_defect(count as int, extension_len as int) is None <==> count <= 31 && extension_len % 4
            == 0,
        count > 31 ==> report_defect(count as int, extension_len as int) == Some(
            BuildError::TooManyReports { count },
        ),
        count <= 31 && extension_len % 4 != 0 ==> report_defect(count as int, extension_len as int)
            == Some(BuildError::MisalignedProfileExtension { len: extension_len }),
{
}

/// Writing blocks succeeds exactly if every number of lost packets fits; what was there stays in front
/// of what is written, and an error names the first number that does not fit.
pub proof fn law_blocks_are_written(
    before: Seq<u8>,
    after: Seq<u8>,
    lead: Seq<u8>,
    reports: Seq<ReceptionStat>,
    extensions: Seq<u8>,
    r: Result<(), BuildError>,
)
    requires
        blocks_written(before, after, lead, reports, extensions, r),
    ensures
        before.is_prefix_of(after),
        r is Ok <==> all_lost_fit(reports),
        r is Ok ==> after == before + lead + blocks_bytes(reports) + extensions,
        r matches Err(e) ==> (e matches BuildError::CumulativeLostOutOfRange { value } && (value
            < -8388608 || value > 8388607)),
{
    law_first_misfit(reports);
    let n = first_misfit(reports);
    if n < reports.len() {
        assert(!lost_fits(reports[n].cumulative_lost));
        assert(before.is_prefix_of(
            before + lead + blocks_bytes(reports.take(n)) + block_lead(reports[n]),
        ));
    } else {
        assert(before.is_prefix_of(before + lead + blocks_bytes(reports) + extensions));
    }
}

/// What reports are made of on the wire: blocks one behind the other, a header of version two, count,
/// type and length, and in front of the blocks the sender with its times and counts, or the receiver.
pub proof fn law_reports_on_the_wire(
    list: Seq<ReceptionStat>,
    last: ReceptionStat,
    count: int,
    packet_type: u8,
    length: int,
)
    requires
        0 <= count < 32,
        0 <= length < 65536,
    ensures
        blocks_bytes(Seq::empty()) == Seq::<u8>::empty(),
        blocks_bytes(list.push(last)) == blocks_bytes(list) + block_bytes(last),
        report_header(count, packet_type, length).len() == 4,
        report_header(count, packet_type, length)[0] == 128 + count,
        report_header(count, packet_type, length)[1] == packet_type,
        report_header(count, packet_type, length)[2] * 256 + report_header(
            count,
            packet_type,
            length,
        )[3] == length,
        stat_report(last).source_ssrc == last.source_ssrc,
        stat_report(last).fraction_lost == last.fraction_lost,
        stat_report(last).cumulative_lost == last.cumulative_lost,
        stat_report(last).extended_highest_sequence == last.extended_highest_sequence,
        stat_report(last).interarrival_jitter == last.interarrival_jitter,
        stat_report(last).last_sr_timestamp == last.last_sr_timestamp,
        stat_report(last).delay_since_last_sr == last.delay_since_last_sr,
        stat_reports(list).len() == list.len(),
        forall|i: int|
            0 <= i < list.len() ==> #[trigger] stat_reports(list)[i] == stat_report(list[i]),
{
    assert(list.push(last).drop_last() =~= list);
}

} // verus!
