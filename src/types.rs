//! The numeric tags of the wire format and the symbols they stand for.
use vstd::prelude::*;

verus! {

/// Where a data packet stands in its message (the two-bit position field).
#[derive(Debug, Clone, Copy, PartialEq, Eq, Structural)]
pub enum DataSeqType {
    FirstPacket,
    LastPacket,
    OnlyPacket,
    MiddlePacket,
}

/// The position named by a two-bit tag: `0b10` first, `0b01` last, `0b11`
/// only, `0b00` middle.
pub open spec fn position_of(tag: u8) -> DataSeqType {
    if tag == 2 {
        DataSeqType::FirstPacket
    } else if tag == 1 {
        DataSeqType::LastPacket
    } else if tag == 3 {
        DataSeqType::OnlyPacket
    } else {
        DataSeqType::MiddlePacket
    }
}

/// The two-bit tag of a position.
pub open spec fn position_tag(p: DataSeqType) -> u8 {
    match p {
        DataSeqType::FirstPacket => 2,
        DataSeqType::LastPacket => 1,
        DataSeqType::OnlyPacket => 3,
        DataSeqType::MiddlePacket => 0,
    }
}

impl DataSeqType {
    /// The two-bit tag that this position is written as.
    pub fn tag(&self) -> (r: u8)
        ensures
            r == position_tag(*self),
            r < 4,
    {
        match self {
            DataSeqType::FirstPacket => 2,
            DataSeqType::LastPacket => 1,
            DataSeqType::OnlyPacket => 3,
            DataSeqType::MiddlePacket => 0,
        }
    }
}

/// Reads the position from the low two bits of a byte; the other bits are
/// ignored, so every byte names exactly one position.
impl From<u8> for DataSeqType {
    fn from(dataseqtype: u8) -> (r: DataSeqType) {
        let tag: u8 = dataseqtype & 3;
        if tag == 2 {
            DataSeqType::FirstPacket
        } else if tag == 1 {
            DataSeqType::LastPacket
        } else if tag == 3 {
            DataSeqType::OnlyPacket
        } else {
            DataSeqType::MiddlePacket
        }
    }
}

impl vstd::std_specs::convert::FromSpecImpl<u8> for DataSeqType {
    open spec fn obeys_from_spec() -> bool {
        true
    }

    open spec fn from_spec(v: u8) -> DataSeqType {
        position_of(v & 3)
    }
}

/// Each of the four two-bit tags names exactly one position, and the tag of
/// that position is the tag read.
pub proof fn lemma_position_exhaustive(tag: u8)
    requires
        tag < 4,
    ensures
        (tag == 2) == (position_of(tag) == DataSeqType::FirstPacket),
        (tag == 1) == (position_of(tag) == DataSeqType::LastPacket),
        (tag == 3) == (position_of(tag) == DataSeqType::OnlyPacket),
        (tag == 0) == (position_of(tag) == DataSeqType::MiddlePacket),
        position_tag(position_of(tag)) == tag,
{
}

/// Every position is read back from its own tag.
pub proof fn lemma_position_tag_round_trip(p: DataSeqType)
    ensures
        position_tag(p) < 4,
        position_of(position_tag(p)) == p,
{
}

/// The socket type carried in a handshake.
#[derive(Debug, Clone, Copy, PartialEq, Eq, Structural)]
pub enum UDTSockType {
    STREAM,
    DGRAM,
    /// A code that names neither type, kept as it was read.
    Unknown(u32),
}

/// Wire code of a stream socket.
pub const SOCK_STREAM_CODE: u32 = 1;

/// Wire code of a datagram socket.
pub const SOCK_DGRAM_CODE: u32 = 2;

/// The socket type named by a code.
pub open spec fn sock_type_of(code: u32) -> UDTSockType {
    if code == SOCK_STREAM_CODE {
        UDTSockType::STREAM
    } else if code == SOCK_DGRAM_CODE {
        UDTSockType::DGRAM
    } else {
        UDTSockType::Unknown(code)
    }
}

/// The code of a socket type.
pub open spec fn sock_type_code(t: UDTSockType) -> u32 {
    match t {
        UDTSockType::STREAM => SOCK_STREAM_CODE,
        UDTSockType::DGRAM => SOCK_DGRAM_CODE,
        UDTSockType::Unknown(c) => c,
    }
}

impl UDTSockType {
    /// The socket type named by a code; other codes give `Unknown`.
    pub fn from_code(code: u32) -> (r: UDTSockType)
        ensures
            r == sock_type_of(code),
    {
        if code == SOCK_STREAM_CODE {
            UDTSockType::STREAM
        } else if code == SOCK_DGRAM_CODE {
            UDTSockType::DGRAM
        } else {
            UDTSockType::Unknown(code)
        }
    }

    /// The code that this socket type is written as.
    pub fn code(&self) -> (r: u32)
        ensures
            r == sock_type_code(*self),
    {
        match self {
            UDTSockType::STREAM => SOCK_STREAM_CODE,
            UDTSockType::DGRAM => SOCK_DGRAM_CODE,
            UDTSockType::Unknown(c) => *c,
        }
    }

    /// `Unknown` holds only codes that name no known type.
    pub open spec fn wf(&self) -> bool {
        match self {
            UDTSockType::Unknown(c) => c != SOCK_STREAM_CODE && c != SOCK_DGRAM_CODE,
            _ => true,
        }
    }
}

/// The connection type carried in a handshake.
#[derive(Debug, Clone, Copy, PartialEq, Eq, Structural)]
pub enum UDTConnType {
    Regular,
    Rendezvous,
    /// A code that names neither type, kept as it was read.
    Unknown(u32),
}

/// Wire code of a regular (client/server) connection.
pub const CONN_REGULAR_CODE: u32 = 1;

/// Wire code of a rendezvous connection.
pub const CONN_RENDEZVOUS_CODE: u32 = 0;

/// The connection type named by a code.
pub open spec fn conn_type_of(code: u32) -> UDTConnType {
    if code == CONN_REGULAR_CODE {
        UDTConnType::Regular
    } else if code == CONN_RENDEZVOUS_CODE {
        UDTConnType::Rendezvous
    } else {
        UDTConnType::Unknown(code)
    }
}

/// The code of a connection type.
pub open spec fn conn_type_code(t: UDTConnType) -> u32 {
    match t {
        UDTConnType::Regular => CONN_REGULAR_CODE,
        UDTConnType::Rendezvous => CONN_RENDEZVOUS_CODE,
        UDTConnType::Unknown(c) => c,
    }
}

impl UDTConnType {
    /// The connection type named by a code; other codes give `Unknown`.
    pub fn from_code(code: u32) -> (r: UDTConnType)
        ensures
            r == conn_type_of(code),
    {
        if code == CONN_REGULAR_CODE {
            UDTConnType::Regular
        } else if code == CONN_RENDEZVOUS_CODE {
            UDTConnType::Rendezvous
        } else {
            UDTConnType::Unknown(code)
        }
    }

    /// The code that this connection type is written as.
    pub fn code(&self) -> (r: u32)
        ensures
            r == conn_type_code(*self),
    {
        match self {
            UDTConnType::Regular => CONN_REGULAR_CODE,
            UDTConnType::Rendezvous => CONN_RENDEZVOUS_CODE,
            UDTConnType::Unknown(c) => *c,
        }
    }

    /// `Unknown` holds only codes that name no known type.
    pub open spec fn wf(&self) -> bool {
        match self {
            UDTConnType::Unknown(c) => c != CONN_REGULAR_CODE && c != CONN_RENDEZVOUS_CODE,
            _ => true,
        }
    }
}

/// The type of a control packet (the 15-bit type field).
#[derive(Debug, Clone, Copy, PartialEq, Eq, Structural)]
pub enum ControlPacketType {
    Handshake,
    KeepAlive,
    Ack,
    NegativeAck,
    Unused,
    Shutdown,
    AckAck,
    MsgDropRequest,
    Custom,
    /// A code reserved for future types, kept as it was read.
    Unknown(u16),
}

/// The type code of a custom control packet.
pub const CUSTOM_TYPE_CODE: u16 = 0x7FFF;

/// The control packet type named by a code: 0 to 7 in the order of the
/// variants, `0x7FFF` custom, any other code `Unknown` with that code.
pub open spec fn control_type_of(code: u16) -> ControlPacketType {
    if code == 0 {
        ControlPacketType::Handshake
    } else if code == 1 {
        ControlPacketType::KeepAlive
    } else if code == 2 {
        ControlPacketType::Ack
    } else if code == 3 {
        ControlPacketType::NegativeAck
    } else if code == 4 {
        ControlPacketType::Unused
    } else if code == 5 {
        ControlPacketType::Shutdown
    } else if code == 6 {
        ControlPacketType::AckAck
    } else if code == 7 {
        ControlPacketType::MsgDropRequest
    } else if code == CUSTOM_TYPE_CODE {
        ControlPacketType::Custom
    } else {
        ControlPacketType::Unknown(code)
    }
}

/// The code of a control packet type.
pub open spec fn control_type_code(t: ControlPacketType) -> u16 {
    match t {
        ControlPacketType::Handshake => 0,
        ControlPacketType::KeepAlive => 1,
        ControlPacketType::Ack => 2,
        ControlPacketType::NegativeAck => 3,
        ControlPacketType::Unused => 4,
        ControlPacketType::Shutdown => 5,
        ControlPacketType::AckAck => 6,
        ControlPacketType::MsgDropRequest => 7,
        ControlPacketType::Custom => CUSTOM_TYPE_CODE,
        ControlPacketType::Unknown(c) => c,
    }
}

impl ControlPacketType {
    /// The code that this type is written as.
    pub fn code(&self) -> (r: u16)
        ensures
            r == control_type_code(*self),
    {
        match self {
            ControlPacketType::Handshake => 0,
            ControlPacketType::KeepAlive => 1,
            ControlPacketType::Ack => 2,
            ControlPacketType::NegativeAck => 3,
            ControlPacketType::Unused => 4,
            ControlPacketType::Shutdown => 5,
            ControlPacketType::AckAck => 6,
            ControlPacketType::MsgDropRequest => 7,
            ControlPacketType::Custom => CUSTOM_TYPE_CODE,
            ControlPacketType::Unknown(c) => *c,
        }
    }

    /// The type fits the 15-bit field, and `Unknown` holds only codes that
    /// name no known type.
    pub open spec fn wf(&self) -> bool {
        match self {
            ControlPacketType::Unknown(c) => c < 0x8000 && c != CUSTOM_TYPE_CODE && c > 7,
            _ => true,
        }
    }
}

/// Every code names exactly one type; codes outside the known ones are kept
/// in `Unknown` and never rejected.
impl From<u16> for ControlPacketType {
    fn from(controlpackettype: u16) -> (r: ControlPacketType) {
        match controlpackettype {
            0x0 => ControlPacketType::Handshake,
            0x1 => ControlPacketType::KeepAlive,
            0x2 => ControlPacketType::Ack,
            0x3 => ControlPacketType::NegativeAck,
            0x4 => ControlPacketType::Unused,
            0x5 => ControlPacketType::Shutdown,
            0x6 => ControlPacketType::AckAck,
            0x7 => ControlPacketType::MsgDropRequest,
            0x7FFF => ControlPacketType::Custom,
            c => ControlPacketType::Unknown(c),
        }
    }
}

impl vstd::std_specs::convert::FromSpecImpl<u16> for ControlPacketType {
    open spec fn obeys_from_spec() -> bool {
        true
    }

    open spec fn from_spec(v: u16) -> ControlPacketType {
        control_type_of(v)
    }
}

/// A type read from a 15-bit code is well formed and is written back as
/// that code.
pub proof fn lemma_control_type_round_trip(code: u16)
    requires
        code < 0x8000,
    ensures
        control_type_of(code).wf(),
        control_type_code(control_type_of(code)) == code,
{
}

/// A well-formed type is read back from its own code, which fits 15 bits.
pub proof fn lemma_control_code_round_trip(t: ControlPacketType)
    requires
        t.wf(),
    ensures
        control_type_code(t) < 0x8000,
        control_type_of(control_type_code(t)) == t,
{
}

/// Code `0x0` is a handshake, `0x7FFF` custom, and a reserved code such as
/// `0x9` is unknown and keeps its code.
pub proof fn lemma_control_type_mapping()
    ensures
        control_type_of(0x0) == ControlPacketType::Handshake,
        control_type_of(0x7FFF) == ControlPacketType::Custom,
        control_type_of(0x9) == ControlPacketType::Unknown(9),
{
}

/// A socket type read from a code is well formed and written back as that code.
pub proof fn lemma_sock_type_round_trip(code: u32, t: UDTSockType)
    ensures
        sock_type_of(code).wf(),
        sock_type_code(sock_type_of(code)) == code,
        t.wf() ==> sock_type_of(sock_type_code(t)) == t,
{
}

/// A connection type read from a code is well formed and written back as
/// that code.
pub proof fn lemma_conn_type_round_trip(code: u32, t: UDTConnType)
    ensures
        conn_type_of(code).wf(),
        conn_type_code(conn_type_of(code)) == code,
        t.wf() ==> conn_type_of(conn_type_code(t)) == t,
{
}

} // verus!
