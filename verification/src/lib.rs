//! Readers for the binary files and the TCP quote protocol of a Chinese
//! retail securities desktop application: fixed-record day and minute bar
//! files, the encrypted corporate-action ("gbbq") file, the forward-adjustment
//! engine, and the request/response codecs of the market-data protocol.

use vstd::prelude::*;

pub mod bytes_helper;
pub mod cmd;
pub mod eastmoney;
pub mod fetch_code;
pub mod file;
pub mod tcp;

verus! {

/// The error taxonomy of the crate.
///
/// `Io` carries the message of an underlying byte-source failure (the I/O
/// itself happens outside this library); `Invalid` reports a fixed-size
/// record whose field did not hold a plausible value; `CorruptFrame`
/// reports a response body that disagrees with its frame header;
/// `Custom` reports an engine-internal failure.
#[derive(Debug, Clone, PartialEq, Eq)]
pub enum Error {
    Io(String),
    Invalid { expected: String, found: String },
    CorruptFrame,
    Custom(&'static str),
}

} // verus!
