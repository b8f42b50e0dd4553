//! RTCP: compound packets, and reports built from statistics.
pub mod error;
pub mod laws;
pub mod packet;
pub mod parse;
pub mod stats;

use crate::rtcp::packet::RtcpPacket;
use vstd::prelude::*;

verus! {

/// Marker for the RTCP codec.
#[derive(Debug, Clone, Copy)]
pub struct RtcpCodecScaffold;

impl Default for RtcpCodecScaffold {
    fn default() -> (r: Self)
        ensures
            r == RtcpCodecScaffold,
    {
        RtcpCodecScaffold
    }
}

impl RtcpCodecScaffold {
    /// The marker.
    pub fn new() -> (r: Self)
        ensures
            r == RtcpCodecScaffold,
    {
        RtcpCodecScaffold
    }
}

/// The packets of a compound packet, in a `smallvec::SmallVec` with room for four on the stack.
#[verifier::external_body]
#[derive(Debug)]
pub struct RtcpPacketVec {
    inner: smallvec::SmallVec<[RtcpPacket; 4]>,
}

/// The packets that a `SmallVec` holds, in order.
pub uninterp spec fn held_packets(list: RtcpPacketVec) -> Seq<RtcpPacket>;

impl View for RtcpPacketVec {
    type V = Seq<RtcpPacket>;

    open spec fn view(&self) -> Seq<RtcpPacket> {
        held_packets(*self)
    }
}

/// Calls `smallvec::SmallVec::new`. Taken on trust: a new list holds nothing.
#[verifier::external_body]
pub fn new_packet_vec() -> (r: RtcpPacketVec)
    ensures
        held_packets(r) == Seq::<RtcpPacket>::empty(),
{
    RtcpPacketVec { inner: smallvec::SmallVec::new() }
}

/// Calls `smallvec::SmallVec::push`. Taken on trust: the packet is appended and the others stay.
#[verifier::external_body]
fn push_packet(list: &mut RtcpPacketVec, packet: RtcpPacket)
    ensures
        held_packets(*final(list)) == held_packets(*old(list)).push(packet),
{
    list.inner.push(packet)
}

/// Calls `smallvec::SmallVec::as_slice`. Taken on trust: the slice shows the packets in order.
#[verifier::external_body]
fn packet_slice(list: &RtcpPacketVec) -> (r: &[RtcpPacket])
    ensures
        r@ == held_packets(*list),
{
    list.inner.as_slice()
}

impl RtcpPacketVec {
    /// Appends a packet.
    pub fn push(&mut self, packet: RtcpPacket)
        ensures
            final(self)@ == old(self)@.push(packet),
    {
        push_packet(self, packet);
    }

    /// The packets, in order.
    pub fn as_slice(&self) -> (r: &[RtcpPacket])
        ensures
            r@ == self@,
    {
        packet_slice(self)
    }

    /// How many packets there are.
    pub fn len(&self) -> (r: usize)
        ensures
            r == self@.len(),
    {
        packet_slice(self).len()
    }
}

} // verus!
