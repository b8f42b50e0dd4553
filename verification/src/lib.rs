//! Media and signalling codecs.
pub mod buffer;
pub mod error;
pub mod line;
pub mod mock;
pub mod rtcp;
pub mod rtp;
pub mod script;
pub mod sdp;
pub mod sip;
pub mod tck;
pub mod text;
pub mod wire;
