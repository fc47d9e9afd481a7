//! Header codec for a UDP-based reliable transport: data and control packet
//! headers, and the type-specific payloads of control packets.
use vstd::prelude::*;

pub mod control;
pub mod data;
pub mod error;
pub mod payload;
pub mod types;
pub mod wire;

pub use control::{
    UDTControlPacketHeader, decode_control_header, encode_control_header,
    parse_control_packet_header,
};
pub use data::{UDTDataPacketHeader, decode_data_header, encode_data_header};
pub use error::CodecError;
pub use payload::{
    AckInfo, ControlPacketInfo, HandshakeInfo, LossRange, PeerAddress, decode_control_payload,
    encode_control_payload,
};
pub use types::{ControlPacketType, DataSeqType, UDTConnType, UDTSockType};

verus! {

/// Sets up the library; there is nothing to set up, so it reports success (0).
pub fn startup() -> (r: u16)
    ensures
        r == 0,
{
    0
}

/// Releases what the library holds; there is nothing to release, so it
/// reports success (0).
pub fn cleanup() -> (r: u16)
    ensures
        r == 0,
{
    0
}

} // verus!
