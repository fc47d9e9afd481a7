//! The fixed 16-byte header of a data packet.
use vstd::prelude::*;
use crate::error::CodecError;
use crate::types::{DataSeqType, position_of, position_tag};
use crate::wire::{word_at, word_bytes, read_word, push_word, lemma_bytes_of_word, lemma_word_at_window};

verus! {

/// Size in bytes of every packet header.
pub const HEADER_LEN: usize = 16;

/// The header of a data packet.
#[derive(Debug, Clone, Copy, PartialEq, Eq, Structural)]
pub struct UDTDataPacketHeader {
    /// Sequence number, 31 bits.
    pub seq_no: u32,
    /// Position of the packet in its message.
    pub seq_type: DataSeqType,
    /// Whether the message must be delivered in order.
    pub in_order: bool,
    /// Message number, 29 bits.
    pub msg_no: u32,
    pub timestamp: u32,
    pub dest_socket_id: u32,
}

/// Largest sequence number plus one.
pub const SEQ_NO_LIMIT: u32 = 0x8000_0000;

/// Largest message number plus one.
pub const MSG_NO_LIMIT: u32 = 0x2000_0000;

impl UDTDataPacketHeader {
    /// The numbers fit their fields.
    pub open spec fn wf(&self) -> bool {
        self.seq_no < SEQ_NO_LIMIT && self.msg_no < MSG_NO_LIMIT
    }
}

/// The second word of a data header: position tag in the top two bits, the
/// in-order flag below it, the message number in the low 29 bits.
pub open spec fn data_word2(h: UDTDataPacketHeader) -> u32 {
    ((position_tag(h.seq_type) as u32) << 30u32) | ((if h.in_order { 1u32 } else { 0u32 })
        << 29u32) | h.msg_no
}

/// The header that 16 bytes hold, the marker bit aside.
pub open spec fn data_header_of(s: Seq<u8>) -> UDTDataPacketHeader {
    let w1 = word_at(s, 0);
    let w2 = word_at(s, 4);
    UDTDataPacketHeader {
        seq_no: w1 & 0x7FFF_FFFF,
        seq_type: position_of((w2 >> 30u32) as u8),
        in_order: (w2 >> 29u32) & 1 == 1,
        msg_no: w2 & 0x1FFF_FFFF,
        timestamp: word_at(s, 8),
        dest_socket_id: word_at(s, 12),
    }
}

/// The top (marker) bit of the first word: 0 for data, 1 for control.
pub open spec fn family_bit(s: Seq<u8>) -> u32 {
    word_at(s, 0) >> 31u32
}

/// What decoding `s` as a data header gives.
pub open spec fn decode_data_spec(s: Seq<u8>) -> Result<UDTDataPacketHeader, CodecError> {
    if s.len() != HEADER_LEN {
        Err(CodecError::InsufficientData { expected_min: HEADER_LEN, got: s.len() as usize })
    } else if family_bit(s) != 0 {
        Err(CodecError::WrongPacketFamily { expected_bit: 0 })
    } else {
        Ok(data_header_of(s))
    }
}

/// The 16 bytes of a data header.
pub open spec fn data_header_bytes(h: UDTDataPacketHeader) -> Seq<u8> {
    word_bytes(h.seq_no) + word_bytes(data_word2(h)) + word_bytes(h.timestamp) + word_bytes(
        h.dest_socket_id,
    )
}

/// Decodes a data packet header from exactly 16 bytes.
pub fn decode_data_header(bytes: &[u8]) -> (r: Result<UDTDataPacketHeader, CodecError>)
    ensures
        r == decode_data_spec(bytes@),
        r is Ok ==> r->Ok_0.wf(),
{
    if bytes.len() != HEADER_LEN {
        return Err(CodecError::InsufficientData { expected_min: HEADER_LEN, got: bytes.len() });
    }
    let w1 = read_word(bytes, 0);
    if w1 >> 31u32 != 0 {
        return Err(CodecError::WrongPacketFamily { expected_bit: 0 });
    }
    let w2 = read_word(bytes, 4);
    let timestamp = read_word(bytes, 8);
    let dest_socket_id = read_word(bytes, 12);
    assert(w1 & 0x7FFF_FFFF < 0x8000_0000 && w2 & 0x1FFF_FFFF < 0x2000_0000) by (bit_vector);
    assert((w2 >> 30u32) < 4 && ((w2 >> 30u32) as u8) & 3 == (w2 >> 30u32) as u8) by (bit_vector);
    Ok(
        UDTDataPacketHeader {
            seq_no: w1 & 0x7FFF_FFFF,
            seq_type: DataSeqType::from((w2 >> 30u32) as u8),
            in_order: (w2 >> 29u32) & 1 == 1,
            msg_no: w2 & 0x1FFF_FFFF,
            timestamp,
            dest_socket_id,
        },
    )
}

/// Encodes a data packet header as 16 bytes.
pub fn encode_data_header(h: &UDTDataPacketHeader) -> (r: Vec<u8>)
    requires
        h.wf(),
    ensures
        r@ == data_header_bytes(*h),
        r@.len() == HEADER_LEN,
{
    let tag = h.seq_type.tag() as u32;
    let flag: u32 = if h.in_order { 1 } else { 0 };
    let w2 = (tag << 30u32) | (flag << 29u32) | h.msg_no;
    let mut out: Vec<u8> = Vec::new();
    push_word(&mut out, h.seq_no);
    push_word(&mut out, w2);
    push_word(&mut out, h.timestamp);
    push_word(&mut out, h.dest_socket_id);
    out
}

/// Decoding the bytes of a valid data header gives that header back.
pub proof fn lemma_data_decode_encode(h: UDTDataPacketHeader)
    requires
        h.wf(),
    ensures
        decode_data_spec(data_header_bytes(h)) == Ok::<UDTDataPacketHeader, CodecError>(h),
{
    let s = data_header_bytes(h);
    let w2 = data_word2(h);
    assert(s.subrange(0, 4) =~= word_bytes(h.seq_no));
    assert(s.subrange(4, 8) =~= word_bytes(w2));
    assert(s.subrange(8, 12) =~= word_bytes(h.timestamp));
    assert(s.subrange(12, 16) =~= word_bytes(h.dest_socket_id));
    lemma_word_at_window(s, 0, h.seq_no);
    lemma_word_at_window(s, 4, w2);
    lemma_word_at_window(s, 8, h.timestamp);
    lemma_word_at_window(s, 12, h.dest_socket_id);
    let seq = h.seq_no;
    assert(seq < 0x8000_0000 ==> seq >> 31u32 == 0 && seq & 0x7FFF_FFFF == seq) by (bit_vector);
    let t = position_tag(h.seq_type) as u32;
    let b: u32 = if h.in_order { 1 } else { 0 };
    let m = h.msg_no;
    assert(t < 4 && b < 2 && m < 0x2000_0000 ==> ({
        let w = (t << 30u32) | (b << 29u32) | m;
        (w >> 30u32) == t && (w >> 29u32) & 1 == b && w & 0x1FFF_FFFF == m
    })) by (bit_vector);
    assert(((w2 >> 30u32) as u8) as u32 == w2 >> 30u32) by (bit_vector);
}

/// Encoding the header decoded from well-formed bytes gives those bytes back.
pub proof fn lemma_data_encode_decode(s: Seq<u8>)
    requires
        decode_data_spec(s) is Ok,
    ensures
        data_header_bytes(data_header_of(s)) == s,
        data_header_of(s).wf(),
{
    let h = data_header_of(s);
    let w1 = word_at(s, 0);
    let w2 = word_at(s, 4);
    assert(w1 >> 31u32 == 0 ==> w1 & 0x7FFF_FFFF == w1) by (bit_vector);
    assert(w1 & 0x7FFF_FFFF < 0x8000_0000 && w2 & 0x1FFF_FFFF < 0x2000_0000) by (bit_vector);
    let t8 = (w2 >> 30u32) as u8;
    assert(t8 < 4 && t8 as u32 == w2 >> 30u32) by (bit_vector)
        requires
            t8 == (w2 >> 30u32) as u8,
    ;
    assert(position_tag(position_of(t8)) == t8);
    assert((((w2 >> 30u32) << 30u32) | ((if (w2 >> 29u32) & 1 == 1 { 1u32 } else { 0u32 })
        << 29u32) | (w2 & 0x1FFF_FFFF)) == w2) by (bit_vector);
    assert(data_word2(h) == w2);
    lemma_bytes_of_word(s, 0);
    lemma_bytes_of_word(s, 4);
    lemma_bytes_of_word(s, 8);
    lemma_bytes_of_word(s, 12);
    assert(data_header_bytes(h) =~= s);
}

} // verus!
