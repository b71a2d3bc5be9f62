//! Driver core for a USB-attached power-profiling instrument: a programmable
//! voltage source combined with a wide-range current meter and an 8-pin
//! digital logic port.
//!
//! This crate holds the verified heart of the driver:
//!
//! - the command codec: opcode and operand encoding, and the rule that decides
//!   when a response is complete ([`cmd`]);
//! - the metadata parser: the instrument's textual calibration block turned
//!   into a typed record ([`metadata`]);
//! - the sample decoder and accumulator: 32-bit sample words split into ADC
//!   value, range, wrapping counter and logic-port state, with missed-sample
//!   accounting ([`measurement`]);
//! - the spike-filter control state machine that governs range-switch
//!   suppression ([`measurement`]);
//! - the chunk reducer's pin logic: pin-pattern matching and per-pin majority
//!   vote ([`reduce`]).
//!
//! Serial I/O, threading and the floating-point calibration arithmetic sit
//! with the caller; the functions here take and return plain values so that
//! every rule they implement is stated in a contract and proved.

pub mod cmd;
pub mod measurement;
pub mod metadata;
pub mod reduce;
pub mod text;
pub mod types;

use vstd::prelude::*;

verus! {

/// Highest output sample rate a caller may ask for; also the number of raw
/// samples the instrument produces per second, so `SPS_MAX / sps` is the
/// number of raw samples averaged into one output sample.
pub const SPS_MAX: usize = 90_000;

/// Error raised by the metadata parser.
///
/// Transport failures (the serial port, channels, I/O) belong to the layer
/// that owns the port and are not represented here.
#[derive(Debug, Clone, PartialEq, Eq)]
pub enum Error {
    /// The metadata blob is not valid UTF-8.
    Utf8,
    /// A line of the metadata blob is not a recognized `Key: Value` pair,
    /// or its value does not parse; carries the offending line's bytes.
    Parse(Vec<u8>),
}

} // verus!
