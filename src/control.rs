//! The fixed 16-byte header common to all control packets, and whole
//! control packets (header and payload).
use vstd::prelude::*;
use crate::data::{HEADER_LEN, family_bit};
use crate::error::CodecError;
use crate::payload::{
    ControlInfoView, ControlPacketInfo, MAX_DATAGRAM_LEN, decode_control_payload,
    encode_control_payload, lemma_payload_decode_encode, lemma_payload_encode_decode,
    losses_canonical, payload_bytes, payload_view_of,
};
use crate::types::{
    ControlPacketType, control_type_code, control_type_of, lemma_control_code_round_trip,
    lemma_control_type_round_trip,
};
use crate::wire::{
    word_at, words_bytes, words_of, read_word, push_words, lemma_words_round_trip,
    lemma_bytes_of_words,
};

verus! {

/// The common header of a control packet.
#[derive(Debug, Clone, Copy, PartialEq, Eq, Structural)]
pub struct UDTControlPacketHeader {
    pub packet_type: ControlPacketType,
    /// Sub-code of a custom packet; kept whatever the type.
    pub custom_type: u16,
    /// Type-dependent 32-bit field (for an acknowledgement of an
    /// acknowledgement, the message id).
    pub additional_info: u32,
    pub timestamp: u32,
    pub dest_socket_id: u32,
}

impl UDTControlPacketHeader {
    /// The type is one that decoding could give.
    pub open spec fn wf(&self) -> bool {
        self.packet_type.wf()
    }
}

/// The first word of a control header: the marker bit, the 15-bit type code,
/// the 16-bit custom type.
pub open spec fn control_word1(h: UDTControlPacketHeader) -> u32 {
    0x8000_0000u32 | (((control_type_code(h.packet_type) & 0x7FFF) as u32) << 16u32) | (
    h.custom_type as u32)
}

/// The four words of a control header.
pub open spec fn control_header_words(h: UDTControlPacketHeader) -> Seq<u32> {
    seq![control_word1(h), h.additional_info, h.timestamp, h.dest_socket_id]
}

/// The header that the first 16 bytes of `s` hold, the marker bit aside.
pub open spec fn control_header_of(s: Seq<u8>) -> UDTControlPacketHeader {
    let w1 = word_at(s, 0);
    UDTControlPacketHeader {
        packet_type: control_type_of(((w1 >> 16u32) & 0x7FFF) as u16),
        custom_type: (w1 & 0xFFFF) as u16,
        additional_info: word_at(s, 4),
        timestamp: word_at(s, 8),
        dest_socket_id: word_at(s, 12),
    }
}

/// What decoding the common header of `s` gives: the header and the bytes
/// after it.
pub open spec fn decode_control_spec(s: Seq<u8>) -> Result<
    (UDTControlPacketHeader, Seq<u8>),
    CodecError,
> {
    if s.len() < HEADER_LEN {
        Err(CodecError::InsufficientData { expected_min: HEADER_LEN, got: s.len() as usize })
    } else if s.len() > MAX_DATAGRAM_LEN {
        Err(CodecError::TooLarge { max_len: MAX_DATAGRAM_LEN, got: s.len() as usize })
    } else if family_bit(s) != 1 {
        Err(CodecError::WrongPacketFamily { expected_bit: 1 })
    } else {
        Ok((control_header_of(s), s.subrange(HEADER_LEN as int, s.len() as int)))
    }
}

/// What decoding a whole control packet gives: the header, then the payload
/// read by the header's type.
pub open spec fn parse_control_spec(s: Seq<u8>) -> Result<
    (UDTControlPacketHeader, ControlInfoView),
    CodecError,
> {
    match decode_control_spec(s) {
        Ok((h, p)) => match payload_view_of(h.packet_type, p) {
            Ok(v) => Ok((h, v)),
            Err(e) => Err(e),
        },
        Err(e) => Err(e),
    }
}

/// The bytes of a control packet.
pub open spec fn control_packet_bytes(h: UDTControlPacketHeader, v: ControlInfoView) -> Seq<u8> {
    words_bytes(control_header_words(h)) + payload_bytes(v)
}

/// Decodes the common header of a control packet and hands back the bytes
/// that follow it, unread. Unknown type codes are kept, never rejected.
pub fn decode_control_header(bytes: &[u8]) -> (r: Result<
    (UDTControlPacketHeader, Vec<u8>),
    CodecError,
>)
    ensures
        match r {
            Ok((h, p)) => decode_control_spec(bytes@) == Ok::<
                (UDTControlPacketHeader, Seq<u8>),
                CodecError,
            >((h, p@)),
            Err(e) => decode_control_spec(bytes@) == Err::<
                (UDTControlPacketHeader, Seq<u8>),
                CodecError,
            >(e),
        },
{
    let n = bytes.len();
    if n < HEADER_LEN {
        return Err(CodecError::InsufficientData { expected_min: HEADER_LEN, got: n });
    }
    if n > MAX_DATAGRAM_LEN {
        return Err(CodecError::TooLarge { max_len: MAX_DATAGRAM_LEN, got: n });
    }
    let w1 = read_word(bytes, 0);
    if w1 >> 31u32 != 1 {
        return Err(CodecError::WrongPacketFamily { expected_bit: 1 });
    }
    let additional_info = read_word(bytes, 4);
    let timestamp = read_word(bytes, 8);
    let dest_socket_id = read_word(bytes, 12);
    let h = UDTControlPacketHeader {
        packet_type: ControlPacketType::from(((w1 >> 16u32) & 0x7FFF) as u16),
        custom_type: (w1 & 0xFFFF) as u16,
        additional_info,
        timestamp,
        dest_socket_id,
    };
    let payload = vstd::slice::slice_to_vec(vstd::slice::slice_subrange(bytes, HEADER_LEN, n));
    Ok((h, payload))
}

/// Decodes a whole control packet: the common header, then the payload by
/// the layout of the header's type.
pub fn parse_control_packet_header(data: &[u8]) -> (r: Result<
    (UDTControlPacketHeader, ControlPacketInfo),
    CodecError,
>)
    ensures
        match r {
            Ok((h, i)) => parse_control_spec(data@) == Ok::<
                (UDTControlPacketHeader, ControlInfoView),
                CodecError,
            >((h, i@)),
            Err(e) => parse_control_spec(data@) == Err::<
                (UDTControlPacketHeader, ControlInfoView),
                CodecError,
            >(e),
        },
{
    let (h, payload) = match decode_control_header(data) {
        Ok(hp) => hp,
        Err(e) => {
            return Err(e);
        },
    };
    match decode_control_payload(h.packet_type, payload.as_slice()) {
        Ok(i) => Ok((h, i)),
        Err(e) => Err(e),
    }
}

/// Encodes a control packet: the common header, then the payload.
pub fn encode_control_header(h: &UDTControlPacketHeader, info: &ControlPacketInfo) -> (r: Vec<
    u8,
>)
    ensures
        r@ == control_packet_bytes(*h, info@),
{
    let code = h.packet_type.code();
    let w1 = 0x8000_0000u32 | (((code & 0x7FFF) as u32) << 16u32) | (h.custom_type as u32);
    let mut ws: Vec<u32> = Vec::new();
    ws.push(w1);
    ws.push(h.additional_info);
    ws.push(h.timestamp);
    ws.push(h.dest_socket_id);
    assert(ws@ =~= control_header_words(*h));
    let mut out: Vec<u8> = Vec::new();
    push_words(&mut out, &ws);
    let body = encode_control_payload(info);
    let mut i: usize = 0;
    let ghost head = out@;
    while i < body.len()
        invariant
            i <= body@.len(),
            out@ == head + body@.take(i as int),
        decreases body@.len() - i,
    {
        out.push(body[i]);
        assert(body@.take(i + 1) =~= body@.take(i as int).push(body@[i as int]));
        i = i + 1;
    }
    assert(body@.take(i as int) =~= body@);
    assert(head =~= words_bytes(control_header_words(*h)));
    out
}

/// The first word of an encoded header carries the marker bit, the type code
/// and the custom type, each read back unchanged.
proof fn lemma_word1_fields(c: u16, ct: u16)
    requires
        c < 0x8000,
    ensures
        ({
            let w1 = 0x8000_0000u32 | (((c & 0x7FFF) as u32) << 16u32) | (ct as u32);
            w1 >> 31u32 == 1 && ((w1 >> 16u32) & 0x7FFF) as u16 == c && (w1 & 0xFFFF) as u16
                == ct
        }),
{
    assert(c < 0x8000 ==> ({
        let w1 = 0x8000_0000u32 | (((c & 0x7FFF) as u32) << 16u32) | (ct as u32);
        w1 >> 31u32 == 1 && ((w1 >> 16u32) & 0x7FFF) as u16 == c && (w1 & 0xFFFF) as u16 == ct
    })) by (bit_vector);
}

/// Decoding the bytes of a valid control packet gives its header and
/// payload back.
pub proof fn lemma_control_decode_encode(h: UDTControlPacketHeader, v: ControlInfoView)
    requires
        h.wf(),
        v.wf(),
        v.fits(h.packet_type),
        HEADER_LEN + payload_bytes(v).len() <= MAX_DATAGRAM_LEN,
    ensures
        parse_control_spec(control_packet_bytes(h, v)) == Ok::<
            (UDTControlPacketHeader, ControlInfoView),
            CodecError,
        >((h, v)),
{
    let hw = control_header_words(h);
    let wb = words_bytes(hw);
    let pb = payload_bytes(v);
    let s = wb + pb;
    lemma_words_round_trip(hw);
    assert forall|k: int| 0 <= k < 4 implies #[trigger] word_at(s, 4 * k) == hw[k] by {
        assert(word_at(wb, 4 * k) == words_of(wb)[k]);
        assert(s[4 * k] == wb[4 * k] && s[4 * k + 1] == wb[4 * k + 1] && s[4 * k + 2] == wb[4 * k
            + 2] && s[4 * k + 3] == wb[4 * k + 3]);
    }
    assert(word_at(s, 0) == hw[0] && word_at(s, 4) == hw[1] && word_at(s, 8) == hw[2]
        && word_at(s, 12) == hw[3]);
    lemma_control_code_round_trip(h.packet_type);
    lemma_word1_fields(control_type_code(h.packet_type), h.custom_type);
    assert(control_header_of(s) == h);
    assert(s.subrange(HEADER_LEN as int, s.len() as int) =~= pb);
    lemma_payload_decode_encode(h.packet_type, v);
}

/// A control packet read from bytes is valid, and, where its loss ranges are
/// written canonically, encoding it gives the bytes back.
pub proof fn lemma_control_encode_decode(s: Seq<u8>)
    requires
        parse_control_spec(s) is Ok,
        parse_control_spec(s)->Ok_0.0.packet_type is NegativeAck ==> losses_canonical(
            words_of(s.subrange(HEADER_LEN as int, s.len() as int)),
        ),
    ensures
        ({
            let (h, v) = parse_control_spec(s)->Ok_0;
            h.wf() && v.wf() && v.fits(h.packet_type) && control_packet_bytes(h, v) == s
        }),
{
    let (h, v) = parse_control_spec(s)->Ok_0;
    let head = s.subrange(0, HEADER_LEN as int);
    let p = s.subrange(HEADER_LEN as int, s.len() as int);
    lemma_payload_encode_decode(h.packet_type, p);
    let w1 = word_at(s, 0);
    let c = ((w1 >> 16u32) & 0x7FFF) as u16;
    assert(c < 0x8000) by (bit_vector)
        requires
            c == ((w1 >> 16u32) & 0x7FFF) as u16,
    ;
    lemma_control_type_round_trip(c);
    let ct = (w1 & 0xFFFF) as u16;
    assert(w1 >> 31u32 == 1 ==> 0x8000_0000u32 | (((c & 0x7FFF) as u32) << 16u32) | (ct as u32)
        == w1) by (bit_vector)
        requires
            c == ((w1 >> 16u32) & 0x7FFF) as u16,
            ct == (w1 & 0xFFFF) as u16,
    ;
    assert(control_word1(h) == w1);
    lemma_bytes_of_words(head);
    let hw = words_of(head);
    assert forall|k: int| 0 <= k < 4 implies #[trigger] hw[k] == word_at(s, 4 * k) by {
        assert(head[4 * k] == s[4 * k] && head[4 * k + 1] == s[4 * k + 1] && head[4 * k + 2] == s[4
            * k + 2] && head[4 * k + 3] == s[4 * k + 3]);
    }
    assert(control_header_words(h) =~= hw);
    assert(head + p =~= s);
}

/// Every buffer shorter than a header is refused as too short by both
/// decoders, whatever it holds.
pub proof fn lemma_short_input_rejected(s: Seq<u8>)
    requires
        s.len() < HEADER_LEN,
    ensures
        crate::data::decode_data_spec(s) == Err::<crate::data::UDTDataPacketHeader, CodecError>(
            CodecError::InsufficientData { expected_min: HEADER_LEN, got: s.len() as usize },
        ),
        parse_control_spec(s) == Err::<(UDTControlPacketHeader, ControlInfoView), CodecError>(
            CodecError::InsufficientData { expected_min: HEADER_LEN, got: s.len() as usize },
        ),
{
}

} // verus!
