//! Reading SIP messages.
pub mod common;
pub mod headers;
pub mod laws;
pub mod request;
pub mod response;
