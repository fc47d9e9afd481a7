//! Errors of the codec; none is fatal, the caller decides what to do.
use vstd::prelude::*;
use crate::types::ControlPacketType;

verus! {

/// Why a buffer could not be decoded.
#[derive(Debug, Clone, Copy, PartialEq, Eq, Structural)]
pub enum CodecError {
    /// The buffer is shorter than the header (for a data header: not exactly
    /// its size).
    InsufficientData { expected_min: usize, got: usize },
    /// The packet-family marker bit is not the one this decoder reads.
    WrongPacketFamily { expected_bit: u8 },
    /// The payload length does not fit the declared control type.
    MalformedPayload { packet_type: ControlPacketType, expected_len: usize, observed_len: usize },
    /// The buffer is larger than any datagram this codec accepts.
    TooLarge { max_len: usize, got: usize },
}

} // verus!
