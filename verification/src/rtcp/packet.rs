//! RTCP packets.
use vstd::prelude::*;

verus! {

/// What a sender reports about itself.
#[derive(Debug, Clone, PartialEq, Eq)]
pub struct SenderInfo {
    /// Wall clock time as NTP timestamp.
    pub ntp_timestamp: u64,
    /// The same instant in units of the media clock.
    pub rtp_timestamp: u32,
    /// Packets sent so far.
    pub sender_packet_count: u32,
    /// Payload bytes sent so far.
    pub sender_octet_count: u32,
}

/// What a receiver reports about one source.
#[derive(Debug, Clone, PartialEq, Eq)]
pub struct ReceptionReport {
    /// The source.
    pub source_ssrc: u32,
    /// Fraction of packets lost since the last report, in 256ths.
    pub fraction_lost: u8,
    /// Packets lost in all, a signed number of 24 bits.
    pub cumulative_lost: i32,
    /// Highest sequence number received, with the count of wrap-arounds.
    pub extended_highest_sequence: u32,
    /// Jitter in units of the media clock.
    pub interarrival_jitter: u32,
    /// Middle of the NTP timestamp of the last sender report.
    pub last_sr_timestamp: u32,
    /// Time since the last sender report, in units of 1/65536 seconds.
    pub delay_since_last_sr: u32,
}

/// A sender report.
#[derive(Debug, Clone, PartialEq, Eq)]
pub struct SenderReport {
    /// The sender.
    pub sender_ssrc: u32,
    /// What it reports about itself.
    pub sender_info: SenderInfo,
    /// What it reports about others.
    pub reports: Vec<ReceptionReport>,
    /// Extensions of the profile.
    pub profile_extensions: Vec<u8>,
}

/// A receiver report.
#[derive(Debug, Clone, PartialEq, Eq)]
pub struct ReceiverReport {
    /// The receiver.
    pub reporter_ssrc: u32,
    /// What it reports about others.
    pub reports: Vec<ReceptionReport>,
    /// Extensions of the profile.
    pub profile_extensions: Vec<u8>,
}

/// An item of a source description.
#[derive(Debug, Clone, PartialEq, Eq)]
pub struct SdesItem {
    /// Which item.
    pub item_type: u8,
    /// Its value.
    pub value: Vec<u8>,
}

/// What is said of one source.
#[derive(Debug, Clone, PartialEq, Eq)]
pub struct SdesChunk {
    /// The source.
    pub source: u32,
    /// What is said of it.
    pub items: Vec<SdesItem>,
}

/// A source description.
#[derive(Debug, Clone, PartialEq, Eq)]
pub struct SourceDescription {
    /// One chunk for each source.
    pub chunks: Vec<SdesChunk>,
}

/// Sources that leave.
#[derive(Debug, Clone, PartialEq, Eq)]
pub struct Goodbye {
    /// The sources.
    pub sources: Vec<u32>,
    /// Why they leave, if that is given as text.
    pub reason: Option<String>,
}

/// An RTCP packet.
#[derive(Debug, Clone, PartialEq, Eq)]
pub enum RtcpPacket {
    /// A sender report.
    SenderReport(SenderReport),
    /// A receiver report.
    ReceiverReport(ReceiverReport),
    /// A source description.
    SourceDescription(SourceDescription),
    /// Sources that leave.
    Goodbye(Goodbye),
}

} // verus!
