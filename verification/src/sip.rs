//! SIP messages: parsing, formatting, INVITE transactions and WebSocket transport.
pub mod error;
pub mod fmt;
pub mod laws;
pub mod parse;
pub mod registrar;
pub mod round_trip;
pub mod transaction;
pub mod types;
pub mod ws;

use vstd::prelude::*;

verus! {

/// Marker for the SIP codec.
#[derive(Debug, Clone, Copy)]
pub struct SipCodecScaffold;

impl Default for SipCodecScaffold {
    fn default() -> (r: Self)
        ensures
            r == SipCodecScaffold,
    {
        SipCodecScaffold
    }
}

impl SipCodecScaffold {
    /// The marker.
    pub fn new() -> (r: Self)
        ensures
            r == SipCodecScaffold,
    {
        SipCodecScaffold
    }
}

} // verus!
