//! The type-specific payloads that follow the common control header.
use vstd::prelude::*;
use crate::error::CodecError;
use crate::types::{
    ControlPacketType, UDTConnType, UDTSockType, conn_type_code, conn_type_of, sock_type_code,
    sock_type_of,
};
use crate::wire::{
    words_bytes, words_of, read_word, push_words, lemma_words_round_trip, lemma_bytes_of_words,
    lemma_words_bytes_append,
};

verus! {

/// Largest buffer, header included, that the codec accepts.
pub const MAX_DATAGRAM_LEN: usize = 65536;

/// Payload length of a handshake.
pub const HANDSHAKE_LEN: usize = 48;

/// Payload length of a full acknowledgement.
pub const ACK_LEN: usize = 24;

/// Payload length of a light acknowledgement, and of a shutdown.
pub const SEQ_ONLY_LEN: usize = 4;

/// Payload length of a message drop request.
pub const MSG_DROP_LEN: usize = 8;

/// An inclusive range of lost sequence numbers.
#[derive(Debug, Clone, Copy, PartialEq, Eq, Structural)]
pub struct LossRange {
    pub start: u32,
    pub end: u32,
}

impl LossRange {
    /// The start fits 31 bits, so the top bit is free for the range marker.
    pub open spec fn wf(&self) -> bool {
        self.start < 0x8000_0000
    }
}

/// The peer address of a handshake: 16 bytes, an IPv4 address in the first
/// four when the other twelve are zero, else an IPv6 address.
#[derive(Debug, Clone, Copy, PartialEq, Eq, Structural)]
pub enum PeerAddress {
    /// The address as a big-endian word.
    V4(u32),
    /// The address as four big-endian words.
    V6(u32, u32, u32, u32),
}

impl PeerAddress {
    /// An IPv6 address is not one that would be read as IPv4.
    pub open spec fn wf(&self) -> bool {
        match self {
            PeerAddress::V6(_, b, c, d) => !(b == 0 && c == 0 && d == 0),
            _ => true,
        }
    }
}

/// The address that four words hold.
pub open spec fn address_of(a: u32, b: u32, c: u32, d: u32) -> PeerAddress {
    if b == 0 && c == 0 && d == 0 {
        PeerAddress::V4(a)
    } else {
        PeerAddress::V6(a, b, c, d)
    }
}

/// The four words of an address.
pub open spec fn address_words(p: PeerAddress) -> Seq<u32> {
    match p {
        PeerAddress::V4(a) => seq![a, 0, 0, 0],
        PeerAddress::V6(a, b, c, d) => seq![a, b, c, d],
    }
}

/// The payload of a handshake.
#[derive(Debug, Clone, Copy, PartialEq, Eq, Structural)]
pub struct HandshakeInfo {
    pub udt_version: u32,
    pub sock_type: UDTSockType,
    pub initial_seq_no: u32,
    pub mtu: u32,
    pub max_flow_window: u32,
    pub conn_type: UDTConnType,
    pub socket_id: u32,
    pub syn_cookie: u32,
    pub peer_ip: PeerAddress,
}

impl HandshakeInfo {
    /// Every tagged field holds a value that decoding could give.
    pub open spec fn wf(&self) -> bool {
        self.sock_type.wf() && self.conn_type.wf() && self.peer_ip.wf()
    }
}

/// The twelve words of a handshake payload.
pub open spec fn handshake_words(h: HandshakeInfo) -> Seq<u32> {
    seq![
        h.udt_version,
        sock_type_code(h.sock_type),
        h.initial_seq_no,
        h.mtu,
        h.max_flow_window,
        conn_type_code(h.conn_type),
        h.socket_id,
        h.syn_cookie,
    ] + address_words(h.peer_ip)
}

/// The handshake that twelve words hold.
pub open spec fn handshake_of(ws: Seq<u32>) -> HandshakeInfo {
    HandshakeInfo {
        udt_version: ws[0],
        sock_type: sock_type_of(ws[1]),
        initial_seq_no: ws[2],
        mtu: ws[3],
        max_flow_window: ws[4],
        conn_type: conn_type_of(ws[5]),
        socket_id: ws[6],
        syn_cookie: ws[7],
        peer_ip: address_of(ws[8], ws[9], ws[10], ws[11]),
    }
}

/// The payload of a full acknowledgement.
#[derive(Debug, Clone, Copy, PartialEq, Eq, Structural)]
pub struct AckInfo {
    pub seq_no: u32,
    pub rtt: u32,
    pub rtt_variance: u32,
    pub avail_buffer_size: u32,
    pub rx_packets_per_second: u32,
    pub link_capacity: u32,
}

/// The six words of a full acknowledgement.
pub open spec fn ack_words(a: AckInfo) -> Seq<u32> {
    seq![
        a.seq_no,
        a.rtt,
        a.rtt_variance,
        a.avail_buffer_size,
        a.rx_packets_per_second,
        a.link_capacity,
    ]
}

/// The acknowledgement that six words hold.
pub open spec fn ack_of(ws: Seq<u32>) -> AckInfo {
    AckInfo {
        seq_no: ws[0],
        rtt: ws[1],
        rtt_variance: ws[2],
        avail_buffer_size: ws[3],
        rx_packets_per_second: ws[4],
        link_capacity: ws[5],
    }
}

/// The decoded payload of a control packet; which variant applies follows
/// from the packet's type.
#[derive(Debug, Clone, PartialEq, Eq)]
pub enum ControlPacketInfo {
    Handshake(HandshakeInfo),
    KeepAlive,
    Ack(AckInfo),
    /// An acknowledgement that carries the sequence number alone.
    LightAck { seq_no: u32 },
    /// Lost sequence numbers, as inclusive ranges in the order sent.
    NegativeAck { losses: Vec<LossRange> },
    Unused,
    Shutdown { seq_no: u32 },
    /// Carries nothing: the acknowledged message id is the header's
    /// additional info.
    AckAck,
    MsgDropRequest { first_seq_no: u32, last_seq_no: u32 },
    /// Bytes that the caller reads by the header's custom type.
    Custom { data: Vec<u8> },
    /// The bytes of a type this codec does not know, unchanged.
    Unknown { data: Vec<u8> },
}

/// What a control payload holds, with its lists as sequences.
pub enum ControlInfoView {
    Handshake(HandshakeInfo),
    KeepAlive,
    Ack(AckInfo),
    LightAck { seq_no: u32 },
    NegativeAck { losses: Seq<LossRange> },
    Unused,
    Shutdown { seq_no: u32 },
    AckAck,
    MsgDropRequest { first_seq_no: u32, last_seq_no: u32 },
    Custom { data: Seq<u8> },
    Unknown { data: Seq<u8> },
}

impl View for ControlPacketInfo {
    type V = ControlInfoView;

    open spec fn view(&self) -> ControlInfoView {
        match self {
            ControlPacketInfo::Handshake(h) => ControlInfoView::Handshake(*h),
            ControlPacketInfo::KeepAlive => ControlInfoView::KeepAlive,
            ControlPacketInfo::Ack(a) => ControlInfoView::Ack(*a),
            ControlPacketInfo::LightAck { seq_no } => ControlInfoView::LightAck { seq_no: *seq_no },
            ControlPacketInfo::NegativeAck { losses } => ControlInfoView::NegativeAck {
                losses: losses@,
            },
            ControlPacketInfo::Unused => ControlInfoView::Unused,
            ControlPacketInfo::Shutdown { seq_no } => ControlInfoView::Shutdown { seq_no: *seq_no },
            ControlPacketInfo::AckAck => ControlInfoView::AckAck,
            ControlPacketInfo::MsgDropRequest { first_seq_no, last_seq_no } =>
                ControlInfoView::MsgDropRequest {
                first_seq_no: *first_seq_no,
                last_seq_no: *last_seq_no,
            },
            ControlPacketInfo::Custom { data } => ControlInfoView::Custom { data: data@ },
            ControlPacketInfo::Unknown { data } => ControlInfoView::Unknown { data: data@ },
        }
    }
}

impl ControlInfoView {
    /// Every field holds a value that decoding could give.
    pub open spec fn wf(&self) -> bool {
        match self {
            ControlInfoView::Handshake(h) => h.wf(),
            ControlInfoView::NegativeAck { losses } => forall|k: int|
                0 <= k < losses.len() ==> #[trigger] losses[k].wf(),
            _ => true,
        }
    }

    /// The payload is of the kind that packets of type `t` carry.
    pub open spec fn fits(&self, t: ControlPacketType) -> bool {
        match self {
            ControlInfoView::Handshake(_) => t == ControlPacketType::Handshake,
            ControlInfoView::KeepAlive => t == ControlPacketType::KeepAlive,
            ControlInfoView::Ack(_) => t == ControlPacketType::Ack,
            ControlInfoView::LightAck { .. } => t == ControlPacketType::Ack,
            ControlInfoView::NegativeAck { .. } => t == ControlPacketType::NegativeAck,
            ControlInfoView::Unused => t == ControlPacketType::Unused,
            ControlInfoView::Shutdown { .. } => t == ControlPacketType::Shutdown,
            ControlInfoView::AckAck => t == ControlPacketType::AckAck,
            ControlInfoView::MsgDropRequest { .. } => t == ControlPacketType::MsgDropRequest,
            ControlInfoView::Custom { .. } => t == ControlPacketType::Custom,
            ControlInfoView::Unknown { .. } => t is Unknown,
        }
    }
}

/// The loss ranges that a list of entries holds: an entry with the top bit
/// clear is one lost number, one with it set starts a range that the next
/// entry ends. `None` when a range start has no end.
pub open spec fn losses_of_words(ws: Seq<u32>) -> Option<Seq<LossRange>>
    decreases ws.len(),
{
    if ws.len() == 0 {
        Some(Seq::empty())
    } else if ws[0] >> 31u32 == 0 {
        match losses_of_words(ws.drop_first()) {
            Some(t) => Some(seq![LossRange { start: ws[0], end: ws[0] }] + t),
            None => None,
        }
    } else if ws.len() < 2 {
        None
    } else {
        match losses_of_words(ws.subrange(2, ws.len() as int)) {
            Some(t) => Some(seq![LossRange { start: ws[0] & 0x7FFF_FFFF, end: ws[1] }] + t),
            None => None,
        }
    }
}

/// No range in the entries is written as a pair of equal numbers, which
/// would be read as a single lost number.
pub open spec fn losses_canonical(ws: Seq<u32>) -> bool
    decreases ws.len(),
{
    if ws.len() == 0 {
        true
    } else if ws[0] >> 31u32 == 0 {
        losses_canonical(ws.drop_first())
    } else if ws.len() < 2 {
        true
    } else {
        ws[0] & 0x7FFF_FFFF != ws[1] && losses_canonical(ws.subrange(2, ws.len() as int))
    }
}

/// The entries of one range: a single number alone, else start with the top
/// bit set and then end.
pub open spec fn range_words(r: LossRange) -> Seq<u32> {
    if r.start == r.end {
        seq![r.start]
    } else {
        seq![r.start | 0x8000_0000, r.end]
    }
}

/// The entries of a list of ranges.
pub open spec fn loss_words(ls: Seq<LossRange>) -> Seq<u32>
    decreases ls.len(),
{
    if ls.len() == 0 {
        Seq::empty()
    } else {
        range_words(ls[0]) + loss_words(ls.drop_first())
    }
}

/// The error for a payload of `observed` bytes where `t` needs `expected`.
pub open spec fn malformed(t: ControlPacketType, expected: int, observed: int) -> Result<
    ControlInfoView,
    CodecError,
> {
    Err(
        CodecError::MalformedPayload {
            packet_type: t,
            expected_len: expected as usize,
            observed_len: observed as usize,
        },
    )
}

/// What decoding payload `p` of a packet of type `t` gives.
pub open spec fn payload_view_of(t: ControlPacketType, p: Seq<u8>) -> Result<
    ControlInfoView,
    CodecError,
> {
    let n = p.len() as int;
    let ws = words_of(p);
    if n > MAX_DATAGRAM_LEN {
        Err(CodecError::TooLarge { max_len: MAX_DATAGRAM_LEN, got: n as usize })
    } else {
        match t {
            ControlPacketType::Handshake => if n == HANDSHAKE_LEN {
                Ok(ControlInfoView::Handshake(handshake_of(ws)))
            } else {
                malformed(t, HANDSHAKE_LEN as int, n)
            },
            ControlPacketType::KeepAlive => if n == 0 {
                Ok(ControlInfoView::KeepAlive)
            } else {
                malformed(t, 0, n)
            },
            ControlPacketType::Ack => if n == ACK_LEN {
                Ok(ControlInfoView::Ack(ack_of(ws)))
            } else if n == SEQ_ONLY_LEN {
                Ok(ControlInfoView::LightAck { seq_no: ws[0] })
            } else {
                malformed(t, ACK_LEN as int, n)
            },
            ControlPacketType::NegativeAck => if n % 4 != 0 {
                malformed(t, n - n % 4 + 4, n)
            } else {
                match losses_of_words(ws) {
                    Some(ls) => Ok(ControlInfoView::NegativeAck { losses: ls }),
                    None => malformed(t, n + 4, n),
                }
            },
            ControlPacketType::Unused => if n == 0 {
                Ok(ControlInfoView::Unused)
            } else {
                malformed(t, 0, n)
            },
            ControlPacketType::Shutdown => if n == SEQ_ONLY_LEN {
                Ok(ControlInfoView::Shutdown { seq_no: ws[0] })
            } else {
                malformed(t, SEQ_ONLY_LEN as int, n)
            },
            ControlPacketType::AckAck => if n == 0 {
                Ok(ControlInfoView::AckAck)
            } else {
                malformed(t, 0, n)
            },
            ControlPacketType::MsgDropRequest => if n == MSG_DROP_LEN {
                Ok(ControlInfoView::MsgDropRequest { first_seq_no: ws[0], last_seq_no: ws[1] })
            } else {
                malformed(t, MSG_DROP_LEN as int, n)
            },
            ControlPacketType::Custom => Ok(ControlInfoView::Custom { data: p }),
            ControlPacketType::Unknown(_) => Ok(ControlInfoView::Unknown { data: p }),
        }
    }
}

/// The bytes of a payload.
pub open spec fn payload_bytes(v: ControlInfoView) -> Seq<u8> {
    match v {
        ControlInfoView::Handshake(h) => words_bytes(handshake_words(h)),
        ControlInfoView::Ack(a) => words_bytes(ack_words(a)),
        ControlInfoView::LightAck { seq_no } => words_bytes(seq![seq_no]),
        ControlInfoView::NegativeAck { losses } => words_bytes(loss_words(losses)),
        ControlInfoView::Shutdown { seq_no } => words_bytes(seq![seq_no]),
        ControlInfoView::MsgDropRequest { first_seq_no, last_seq_no } => words_bytes(
            seq![first_seq_no, last_seq_no],
        ),
        ControlInfoView::Custom { data } => data,
        ControlInfoView::Unknown { data } => data,
        _ => Seq::empty(),
    }
}

/// A decoding result with the payload seen through its view.
pub open spec fn result_view(r: Result<ControlPacketInfo, CodecError>) -> Result<
    ControlInfoView,
    CodecError,
> {
    match r {
        Ok(i) => Ok(i@),
        Err(e) => Err(e),
    }
}

/// `a` before the ranges of `o`, if there are any.
pub open spec fn prepend_opt(a: Seq<LossRange>, o: Option<Seq<LossRange>>) -> Option<
    Seq<LossRange>,
> {
    match o {
        Some(t) => Some(a + t),
        None => None,
    }
}

/// Reads the loss ranges of a negative acknowledgement; `None` when the last
/// entry starts a range with no end.
pub fn decode_losses(p: &[u8]) -> (r: Option<Vec<LossRange>>)
    requires
        p@.len() % 4 == 0,
    ensures
        match r {
            Some(v) => losses_of_words(words_of(p@)) == Some(v@),
            None => losses_of_words(words_of(p@)) is None,
        },
{
    let ghost ws = words_of(p@);
    let n = p.len();
    let mut acc: Vec<LossRange> = Vec::new();
    let mut i: usize = 0;
    assert(ws.subrange(0, ws.len() as int) =~= ws);
    assert(acc@ + Seq::<LossRange>::empty() =~= Seq::<LossRange>::empty());
    assert(prepend_opt(acc@, losses_of_words(ws)) =~= losses_of_words(ws));
    while i < n
        invariant
            n == p@.len(),
            n % 4 == 0,
            i % 4 == 0,
            i <= n,
            ws == words_of(p@),
            losses_of_words(ws) == prepend_opt(acc@, losses_of_words(
                ws.subrange(i as int / 4, ws.len() as int),
            )),
        decreases n - i,
    {
        let ghost k = i as int / 4;
        let ghost rest = ws.subrange(k, ws.len() as int);
        let w = read_word(p, i);
        assert(rest[0] == w);
        if w >> 31u32 == 0 {
            let r = LossRange { start: w, end: w };
            assert(rest.drop_first() =~= ws.subrange(k + 1, ws.len() as int));
            proof {
                match losses_of_words(rest.drop_first()) {
                    Some(t) => {
                        assert(acc@ + (seq![r] + t) =~= acc@.push(r) + t);
                    },
                    None => {},
                }
            }
            acc.push(r);
            i = i + 4;
        } else {
            if n - i < 8 {
                assert(rest.len() < 2);
                return None;
            }
            let e = read_word(p, i + 4);
            assert(rest[1] == e);
            assert(w & 0x7FFF_FFFF < 0x8000_0000) by (bit_vector);
            let r = LossRange { start: w & 0x7FFF_FFFF, end: e };
            assert(rest.subrange(2, rest.len() as int) =~= ws.subrange(k + 2, ws.len() as int));
            proof {
                match losses_of_words(rest.subrange(2, rest.len() as int)) {
                    Some(t) => {
                        assert(acc@ + (seq![r] + t) =~= acc@.push(r) + t);
                    },
                    None => {},
                }
            }
            acc.push(r);
            i = i + 8;
        }
    }
    assert(ws.subrange(i as int / 4, ws.len() as int) =~= Seq::<u32>::empty());
    assert(acc@ + Seq::<LossRange>::empty() =~= acc@);
    Some(acc)
}

/// The error for a payload of `observed` bytes where `t` needs `expected`.
fn malformed_err(t: ControlPacketType, expected: usize, observed: usize) -> (r: Result<
    ControlPacketInfo,
    CodecError,
>)
    ensures
        result_view(r) == malformed(t, expected as int, observed as int),
{
    Err(
        CodecError::MalformedPayload {
            packet_type: t,
            expected_len: expected,
            observed_len: observed,
        },
    )
}

/// Decodes the payload of a control packet of type `t` by the layout of
/// that type. Custom and unknown types keep the bytes unchanged.
pub fn decode_control_payload(t: ControlPacketType, payload: &[u8]) -> (r: Result<
    ControlPacketInfo,
    CodecError,
>)
    ensures
        result_view(r) == payload_view_of(t, payload@),
{
    let n = payload.len();
    let ghost ws = words_of(payload@);
    if n > MAX_DATAGRAM_LEN {
        return Err(CodecError::TooLarge { max_len: MAX_DATAGRAM_LEN, got: n });
    }
    match t {
        ControlPacketType::Handshake => {
            if n != HANDSHAKE_LEN {
                return malformed_err(t, HANDSHAKE_LEN, n);
            }
            let udt_version = read_word(payload, 0);
            let sock = read_word(payload, 4);
            let initial_seq_no = read_word(payload, 8);
            let mtu = read_word(payload, 12);
            let max_flow_window = read_word(payload, 16);
            let conn = read_word(payload, 20);
            let socket_id = read_word(payload, 24);
            let syn_cookie = read_word(payload, 28);
            let a = read_word(payload, 32);
            let b = read_word(payload, 36);
            let c = read_word(payload, 40);
            let d = read_word(payload, 44);
            let peer_ip = if b == 0 && c == 0 && d == 0 {
                PeerAddress::V4(a)
            } else {
                PeerAddress::V6(a, b, c, d)
            };
            assert(ws[0] == udt_version && ws[1] == sock && ws[2] == initial_seq_no && ws[3] == mtu
                && ws[4] == max_flow_window && ws[5] == conn && ws[6] == socket_id && ws[7]
                == syn_cookie && ws[8] == a && ws[9] == b && ws[10] == c && ws[11] == d);
            Ok(
                ControlPacketInfo::Handshake(
                    HandshakeInfo {
                        udt_version,
                        sock_type: UDTSockType::from_code(sock),
                        initial_seq_no,
                        mtu,
                        max_flow_window,
                        conn_type: UDTConnType::from_code(conn),
                        socket_id,
                        syn_cookie,
                        peer_ip,
                    },
                ),
            )
        },
        ControlPacketType::KeepAlive => {
            if n != 0 {
                return malformed_err(t, 0, n);
            }
            Ok(ControlPacketInfo::KeepAlive)
        },
        ControlPacketType::Ack => {
            if n == ACK_LEN {
                let seq_no = read_word(payload, 0);
                let rtt = read_word(payload, 4);
                let rtt_variance = read_word(payload, 8);
                let avail_buffer_size = read_word(payload, 12);
                let rx_packets_per_second = read_word(payload, 16);
                let link_capacity = read_word(payload, 20);
                assert(ws[0] == seq_no && ws[1] == rtt && ws[2] == rtt_variance && ws[3]
                    == avail_buffer_size && ws[4] == rx_packets_per_second && ws[5]
                    == link_capacity);
                Ok(
                    ControlPacketInfo::Ack(
                        AckInfo {
                            seq_no,
                            rtt,
                            rtt_variance,
                            avail_buffer_size,
                            rx_packets_per_second,
                            link_capacity,
                        },
                    ),
                )
            } else if n == SEQ_ONLY_LEN {
                let seq_no = read_word(payload, 0);
                assert(ws[0] == seq_no);
                Ok(ControlPacketInfo::LightAck { seq_no })
            } else {
                malformed_err(t, ACK_LEN, n)
            }
        },
        ControlPacketType::NegativeAck => {
            if n % 4 != 0 {
                return malformed_err(t, n - n % 4 + 4, n);
            }
            match decode_losses(payload) {
                Some(losses) => Ok(ControlPacketInfo::NegativeAck { losses }),
                None => malformed_err(t, n + 4, n),
            }
        },
        ControlPacketType::Unused => {
            if n != 0 {
                return malformed_err(t, 0, n);
            }
            Ok(ControlPacketInfo::Unused)
        },
        ControlPacketType::Shutdown => {
            if n != SEQ_ONLY_LEN {
                return malformed_err(t, SEQ_ONLY_LEN, n);
            }
            let seq_no = read_word(payload, 0);
            assert(ws[0] == seq_no);
            Ok(ControlPacketInfo::Shutdown { seq_no })
        },
        ControlPacketType::AckAck => {
            if n != 0 {
                return malformed_err(t, 0, n);
            }
            Ok(ControlPacketInfo::AckAck)
        },
        ControlPacketType::MsgDropRequest => {
            if n != MSG_DROP_LEN {
                return malformed_err(t, MSG_DROP_LEN, n);
            }
            let first_seq_no = read_word(payload, 0);
            let last_seq_no = read_word(payload, 4);
            assert(ws[0] == first_seq_no && ws[1] == last_seq_no);
            Ok(ControlPacketInfo::MsgDropRequest { first_seq_no, last_seq_no })
        },
        ControlPacketType::Custom => Ok(
            ControlPacketInfo::Custom { data: vstd::slice::slice_to_vec(payload) },
        ),
        ControlPacketType::Unknown(_) => Ok(
            ControlPacketInfo::Unknown { data: vstd::slice::slice_to_vec(payload) },
        ),
    }
}

/// The entries of a list of ranges with one more range at its end.
pub proof fn lemma_loss_words_push(ls: Seq<LossRange>, r: LossRange)
    ensures
        loss_words(ls.push(r)) == loss_words(ls) + range_words(r),
    decreases ls.len(),
{
    if ls.len() == 0 {
        assert(ls.push(r).drop_first() =~= Seq::<LossRange>::empty());
        assert(loss_words(ls.push(r).drop_first()) == Seq::<u32>::empty());
        assert(ls.push(r)[0] == r);
        assert(loss_words(ls.push(r)) =~= loss_words(ls) + range_words(r));
    } else {
        lemma_loss_words_push(ls.drop_first(), r);
        let a = range_words(ls[0]);
        let b = loss_words(ls.drop_first());
        assert(ls.push(r).drop_first() =~= ls.drop_first().push(r));
        assert(ls.push(r)[0] == ls[0]);
        assert(loss_words(ls.push(r)) == a + (b + range_words(r)));
        assert(loss_words(ls) == a + b);
        assert(a + (b + range_words(r)) =~= (a + b) + range_words(r));
    }
}

/// Appends the entries of the loss ranges to `out`.
fn push_losses(out: &mut Vec<u8>, losses: &Vec<LossRange>)
    ensures
        final(out)@ == old(out)@ + words_bytes(loss_words(losses@)),
{
    let mut i: usize = 0;
    assert(losses@.take(0) =~= Seq::<LossRange>::empty());
    assert(out@ =~= old(out)@ + words_bytes(loss_words(losses@.take(0))));
    while i < losses.len()
        invariant
            i <= losses@.len(),
            out@ == old(out)@ + words_bytes(loss_words(losses@.take(i as int))),
        decreases losses@.len() - i,
    {
        let r = losses[i];
        let mut ws: Vec<u32> = Vec::new();
        if r.start == r.end {
            ws.push(r.start);
        } else {
            ws.push(r.start | 0x8000_0000);
            ws.push(r.end);
        }
        assert(ws@ =~= range_words(r));
        push_words(out, &ws);
        assert(losses@.take(i + 1) =~= losses@.take(i as int).push(r));
        proof {
            lemma_loss_words_push(losses@.take(i as int), r);
            lemma_words_bytes_append(loss_words(losses@.take(i as int)), range_words(r));
        }
        assert(out@ =~= old(out)@ + words_bytes(loss_words(losses@.take(i + 1))));
        i = i + 1;
    }
    assert(losses@.take(i as int) =~= losses@);
}

/// Appends the bytes of `data` to `out`.
fn push_bytes(out: &mut Vec<u8>, data: &Vec<u8>)
    ensures
        final(out)@ == old(out)@ + data@,
{
    let mut i: usize = 0;
    while i < data.len()
        invariant
            i <= data@.len(),
            out@ == old(out)@ + data@.take(i as int),
        decreases data@.len() - i,
    {
        out.push(data[i]);
        assert(data@.take(i + 1) =~= data@.take(i as int).push(data@[i as int]));
        i = i + 1;
    }
    assert(data@.take(i as int) =~= data@);
}

/// Encodes a control payload by the layout of its kind.
pub fn encode_control_payload(info: &ControlPacketInfo) -> (r: Vec<u8>)
    ensures
        r@ == payload_bytes(info@),
{
    let mut out: Vec<u8> = Vec::new();
    let mut ws: Vec<u32> = Vec::new();
    match info {
        ControlPacketInfo::Handshake(h) => {
            ws.push(h.udt_version);
            ws.push(h.sock_type.code());
            ws.push(h.initial_seq_no);
            ws.push(h.mtu);
            ws.push(h.max_flow_window);
            ws.push(h.conn_type.code());
            ws.push(h.socket_id);
            ws.push(h.syn_cookie);
            match h.peer_ip {
                PeerAddress::V4(a) => {
                    ws.push(a);
                    ws.push(0);
                    ws.push(0);
                    ws.push(0);
                },
                PeerAddress::V6(a, b, c, d) => {
                    ws.push(a);
                    ws.push(b);
                    ws.push(c);
                    ws.push(d);
                },
            }
            assert(ws@ =~= handshake_words(*h));
            push_words(&mut out, &ws);
        },
        ControlPacketInfo::Ack(a) => {
            ws.push(a.seq_no);
            ws.push(a.rtt);
            ws.push(a.rtt_variance);
            ws.push(a.avail_buffer_size);
            ws.push(a.rx_packets_per_second);
            ws.push(a.link_capacity);
            assert(ws@ =~= ack_words(*a));
            push_words(&mut out, &ws);
        },
        ControlPacketInfo::LightAck { seq_no } => {
            ws.push(*seq_no);
            assert(ws@ =~= seq![*seq_no]);
            push_words(&mut out, &ws);
        },
        ControlPacketInfo::NegativeAck { losses } => {
            push_losses(&mut out, losses);
        },
        ControlPacketInfo::Shutdown { seq_no } => {
            ws.push(*seq_no);
            assert(ws@ =~= seq![*seq_no]);
            push_words(&mut out, &ws);
        },
        ControlPacketInfo::MsgDropRequest { first_seq_no, last_seq_no } => {
            ws.push(*first_seq_no);
            ws.push(*last_seq_no);
            assert(ws@ =~= seq![*first_seq_no, *last_seq_no]);
            push_words(&mut out, &ws);
        },
        ControlPacketInfo::Custom { data } => {
            push_bytes(&mut out, data);
        },
        ControlPacketInfo::Unknown { data } => {
            push_bytes(&mut out, data);
        },
        _ => {},
    }
    assert(out@ =~= payload_bytes(info@));
    out
}

/// Reading back the entries of valid ranges gives the ranges.
pub proof fn lemma_losses_decode_encode(ls: Seq<LossRange>)
    requires
        forall|k: int| 0 <= k < ls.len() ==> #[trigger] ls[k].wf(),
    ensures
        losses_of_words(loss_words(ls)) == Some(ls),
    decreases ls.len(),
{
    if ls.len() == 0 {
        assert(loss_words(ls) =~= Seq::<u32>::empty());
        assert(ls =~= Seq::<LossRange>::empty());
    } else {
        let r = ls[0];
        let rest = ls.drop_first();
        assert forall|k: int| 0 <= k < rest.len() implies #[trigger] rest[k].wf() by {
            assert(rest[k] == ls[k + 1]);
        }
        lemma_losses_decode_encode(rest);
        let ws = loss_words(ls);
        let start = r.start;
        assert(r.wf());
        if r.start == r.end {
            assert(start < 0x8000_0000 ==> start >> 31u32 == 0) by (bit_vector);
            assert(ws.drop_first() =~= loss_words(rest));
            assert(seq![LossRange { start: ws[0], end: ws[0] }] + rest =~= ls);
        } else {
            assert(start < 0x8000_0000 ==> (start | 0x8000_0000) >> 31u32 == 1 && (start
                | 0x8000_0000) & 0x7FFF_FFFF == start) by (bit_vector);
            assert(ws.subrange(2, ws.len() as int) =~= loss_words(rest));
            assert(seq![LossRange { start: ws[0] & 0x7FFF_FFFF, end: ws[1] }] + rest =~= ls);
        }
    }
}

/// Every range read from entries has a start that fits 31 bits.
pub proof fn lemma_losses_wf(ws: Seq<u32>)
    requires
        losses_of_words(ws) is Some,
    ensures
        forall|k: int|
            0 <= k < losses_of_words(ws)->Some_0.len() ==> #[trigger] losses_of_words(
                ws,
            )->Some_0[k].wf(),
    decreases ws.len(),
{
    if ws.len() > 0 {
        let w = ws[0];
        if w >> 31u32 == 0 {
            lemma_losses_wf(ws.drop_first());
            assert(w >> 31u32 == 0 ==> w < 0x8000_0000) by (bit_vector);
        } else {
            lemma_losses_wf(ws.subrange(2, ws.len() as int));
            assert(w & 0x7FFF_FFFF < 0x8000_0000) by (bit_vector);
        }
        let ls = losses_of_words(ws)->Some_0;
        assert forall|k: int| 0 <= k < ls.len() implies #[trigger] ls[k].wf() by {
            if k > 0 {
                if w >> 31u32 == 0 {
                    assert(ls[k] == losses_of_words(ws.drop_first())->Some_0[k - 1]);
                } else {
                    assert(ls[k] == losses_of_words(ws.subrange(2, ws.len() as int))->Some_0[k
                        - 1]);
                }
            }
        }
    }
}

/// Writing out the ranges read from canonical entries gives the entries.
pub proof fn lemma_losses_encode_decode(ws: Seq<u32>)
    requires
        losses_of_words(ws) is Some,
        losses_canonical(ws),
    ensures
        loss_words(losses_of_words(ws)->Some_0) == ws,
    decreases ws.len(),
{
    let ls = losses_of_words(ws)->Some_0;
    if ws.len() == 0 {
        assert(ls =~= Seq::<LossRange>::empty());
        assert(loss_words(ls) =~= ws);
    } else {
        let w = ws[0];
        if w >> 31u32 == 0 {
            let tail = ws.drop_first();
            lemma_losses_encode_decode(tail);
            assert(ls.drop_first() =~= losses_of_words(tail)->Some_0);
            assert(loss_words(ls) =~= ws);
        } else {
            let tail = ws.subrange(2, ws.len() as int);
            lemma_losses_encode_decode(tail);
            assert(w >> 31u32 == 1 ==> (w & 0x7FFF_FFFF) | 0x8000_0000 == w) by (bit_vector);
            assert(w >> 31u32 != 0 ==> w >> 31u32 == 1) by (bit_vector);
            assert(ls.drop_first() =~= losses_of_words(tail)->Some_0);
            assert(loss_words(ls) =~= ws);
        }
    }
}

/// Decoding the bytes of a valid payload, as a packet of a type it fits,
/// gives the payload back.
pub proof fn lemma_payload_decode_encode(t: ControlPacketType, v: ControlInfoView)
    requires
        v.wf(),
        v.fits(t),
        payload_bytes(v).len() <= MAX_DATAGRAM_LEN,
    ensures
        payload_view_of(t, payload_bytes(v)) == Ok::<ControlInfoView, CodecError>(v),
{
    match v {
        ControlInfoView::Handshake(h) => {
            lemma_words_round_trip(handshake_words(h));
            crate::types::lemma_sock_type_round_trip(0, h.sock_type);
            crate::types::lemma_conn_type_round_trip(0, h.conn_type);
            assert(handshake_of(handshake_words(h)) == h);
        },
        ControlInfoView::Ack(a) => {
            lemma_words_round_trip(ack_words(a));
            assert(ack_of(ack_words(a)) == a);
        },
        ControlInfoView::LightAck { seq_no } => {
            lemma_words_round_trip(seq![seq_no]);
        },
        ControlInfoView::NegativeAck { losses } => {
            lemma_words_round_trip(loss_words(losses));
            lemma_losses_decode_encode(losses);
        },
        ControlInfoView::Shutdown { seq_no } => {
            lemma_words_round_trip(seq![seq_no]);
        },
        ControlInfoView::MsgDropRequest { first_seq_no, last_seq_no } => {
            lemma_words_round_trip(seq![first_seq_no, last_seq_no]);
        },
        _ => {},
    }
}

/// A payload read from bytes is valid and fits its type, and, where its
/// loss ranges are written canonically, writing it out gives the bytes back.
pub proof fn lemma_payload_encode_decode(t: ControlPacketType, p: Seq<u8>)
    requires
        payload_view_of(t, p) is Ok,
        t is NegativeAck ==> losses_canonical(words_of(p)),
    ensures
        payload_view_of(t, p)->Ok_0.wf(),
        payload_view_of(t, p)->Ok_0.fits(t),
        payload_bytes(payload_view_of(t, p)->Ok_0) == p,
{
    let v = payload_view_of(t, p)->Ok_0;
    let ws = words_of(p);
    if p.len() % 4 == 0 {
        lemma_bytes_of_words(p);
    }
    match v {
        ControlInfoView::Handshake(h) => {
            crate::types::lemma_sock_type_round_trip(ws[1], h.sock_type);
            crate::types::lemma_conn_type_round_trip(ws[5], h.conn_type);
            assert(handshake_words(h) =~= ws);
        },
        ControlInfoView::Ack(a) => {
            assert(ack_words(a) =~= ws);
        },
        ControlInfoView::LightAck { seq_no } => {
            assert(seq![seq_no] =~= ws);
        },
        ControlInfoView::NegativeAck { losses } => {
            lemma_losses_wf(ws);
            lemma_losses_encode_decode(ws);
        },
        ControlInfoView::Shutdown { seq_no } => {
            assert(seq![seq_no] =~= ws);
        },
        ControlInfoView::MsgDropRequest { first_seq_no, last_seq_no } => {
            assert(seq![first_seq_no, last_seq_no] =~= ws);
        },
        ControlInfoView::KeepAlive | ControlInfoView::Unused | ControlInfoView::AckAck => {
            assert(p =~= Seq::<u8>::empty());
        },
        _ => {},
    }
}

} // verus!
