use udt::{
    AckInfo, CodecError, ControlPacketInfo, ControlPacketType, DataSeqType, HandshakeInfo,
    LossRange, PeerAddress, UDTConnType, UDTControlPacketHeader, UDTDataPacketHeader,
    UDTSockType, cleanup, decode_control_header, decode_control_payload, decode_data_header,
    encode_control_header, encode_control_payload, encode_data_header,
    parse_control_packet_header, startup,
};

fn control_bytes(word1: [u8; 4], payload: &[u8]) -> Vec<u8> {
    let mut v = word1.to_vec();
    v.extend_from_slice(&[0, 0, 0, 7, 0, 0, 0, 9, 0, 0, 0, 3]);
    v.extend_from_slice(payload);
    v
}

#[test]
fn zero_bytes_decode_to_middle_packet() {
    let h = decode_data_header(&[0u8; 16]).unwrap();
    assert_eq!(
        h,
        UDTDataPacketHeader {
            seq_no: 0,
            seq_type: DataSeqType::MiddlePacket,
            in_order: false,
            msg_no: 0,
            timestamp: 0,
            dest_socket_id: 0,
        }
    );
}

#[test]
fn data_decoder_rejects_control_marker() {
    let mut b = [0u8; 16];
    b[0] = 0x80;
    assert_eq!(decode_data_header(&b), Err(CodecError::WrongPacketFamily { expected_bit: 0 }));
}

#[test]
fn data_fields_are_read_big_endian() {
    let b = [
        0x12, 0x34, 0x56, 0x78, 0xA0, 0x00, 0x01, 0x02, 0, 0, 0x01, 0x00, 0xDE, 0xAD, 0xBE, 0xEF,
    ];
    let h = decode_data_header(&b).unwrap();
    assert_eq!(h.seq_no, 0x1234_5678);
    assert_eq!(h.seq_type, DataSeqType::FirstPacket);
    assert!(h.in_order);
    assert_eq!(h.msg_no, 0x0102);
    assert_eq!(h.timestamp, 256);
    assert_eq!(h.dest_socket_id, 0xDEAD_BEEF);
    assert_eq!(encode_data_header(&h), b.to_vec());
}

#[test]
fn data_header_round_trip() {
    let h = UDTDataPacketHeader {
        seq_no: 0x7FFF_FFFF,
        seq_type: DataSeqType::OnlyPacket,
        in_order: true,
        msg_no: 0x1FFF_FFFF,
        timestamp: 123_456,
        dest_socket_id: 42,
    };
    let b = encode_data_header(&h);
    assert_eq!(b.len(), 16);
    assert_eq!(b[0], 0x7F);
    assert_eq!(b[4], 0xFF);
    assert_eq!(decode_data_header(&b), Ok(h));
}

#[test]
fn data_decoder_wants_exactly_sixteen_bytes() {
    for n in 0..16usize {
        assert_eq!(
            decode_data_header(&vec![0u8; n]),
            Err(CodecError::InsufficientData { expected_min: 16, got: n })
        );
    }
    assert_eq!(
        decode_data_header(&[0u8; 17]),
        Err(CodecError::InsufficientData { expected_min: 16, got: 17 })
    );
}

#[test]
fn position_tags_are_exhaustive() {
    assert_eq!(DataSeqType::from(0b10u8), DataSeqType::FirstPacket);
    assert_eq!(DataSeqType::from(0b01u8), DataSeqType::LastPacket);
    assert_eq!(DataSeqType::from(0b11u8), DataSeqType::OnlyPacket);
    assert_eq!(DataSeqType::from(0b00u8), DataSeqType::MiddlePacket);
    for t in 0..4u8 {
        assert_eq!(DataSeqType::from(t).tag(), t);
    }
}

#[test]
fn control_type_codes_map() {
    assert_eq!(ControlPacketType::from(0x0u16), ControlPacketType::Handshake);
    assert_eq!(ControlPacketType::from(0x7FFFu16), ControlPacketType::Custom);
    assert_eq!(ControlPacketType::from(0x9u16), ControlPacketType::Unknown(9));
    assert_eq!(ControlPacketType::from(0x3u16), ControlPacketType::NegativeAck);
    for c in 0..8u16 {
        assert_eq!(ControlPacketType::from(c).code(), c);
    }
    assert_eq!(ControlPacketType::Unknown(9).code(), 9);
}

#[test]
fn handshake_header_scenario() {
    let b = [0x80, 0x00, 0x00, 0x00, 0, 0, 0, 0, 0, 0, 0, 0, 0, 0, 0, 1];
    let (h, payload) = decode_control_header(&b).unwrap();
    assert_eq!(h.packet_type, ControlPacketType::Handshake);
    assert_eq!(h.additional_info, 0);
    assert_eq!(h.dest_socket_id, 1);
    assert_eq!(h.timestamp, 0);
    assert!(payload.is_empty());
    assert_eq!(
        parse_control_packet_header(&b),
        Err(CodecError::MalformedPayload {
            packet_type: ControlPacketType::Handshake,
            expected_len: 48,
            observed_len: 0,
        })
    );
}

#[test]
fn control_header_keeps_all_fields() {
    let b = [0x80, 0x06, 0x12, 0x34, 0xE0, 0, 0, 1, 0, 0, 0, 2, 0, 0, 0, 3, 0xAA];
    let (h, payload) = decode_control_header(&b).unwrap();
    assert_eq!(h.packet_type, ControlPacketType::AckAck);
    assert_eq!(h.custom_type, 0x1234);
    assert_eq!(h.additional_info, 0xE000_0001);
    assert_eq!(h.timestamp, 2);
    assert_eq!(h.dest_socket_id, 3);
    assert_eq!(payload, vec![0xAA]);
}

#[test]
fn control_decoder_rejects_data_marker() {
    assert_eq!(
        decode_control_header(&[0u8; 16]),
        Err(CodecError::WrongPacketFamily { expected_bit: 1 })
    );
}

#[test]
fn short_buffers_are_insufficient_for_control() {
    for n in 0..16usize {
        let b = vec![0xFFu8; n];
        assert_eq!(
            decode_control_header(&b),
            Err(CodecError::InsufficientData { expected_min: 16, got: n })
        );
        assert_eq!(
            parse_control_packet_header(&b),
            Err(CodecError::InsufficientData { expected_min: 16, got: n })
        );
    }
}

#[test]
fn oversized_buffers_are_refused() {
    let mut b = vec![0u8; 65537];
    b[0] = 0x80;
    assert_eq!(
        decode_control_header(&b),
        Err(CodecError::TooLarge { max_len: 65536, got: 65537 })
    );
    b.pop();
    b[1] = 0x03;
    let (h, payload) = decode_control_header(&b).unwrap();
    assert_eq!(h.packet_type, ControlPacketType::NegativeAck);
    assert_eq!(payload.len(), 65520);
    match parse_control_packet_header(&b).unwrap().1 {
        ControlPacketInfo::NegativeAck { losses } => assert_eq!(losses.len(), 16380),
        other => panic!("unexpected payload {:?}", other),
    }
}

#[test]
fn every_length_decodes_without_fault() {
    for n in (0..65536usize).step_by(997) {
        let mut b = vec![0x5Au8; n];
        let _ = decode_data_header(&b);
        if n > 0 {
            b[0] = 0x80;
        }
        let _ = parse_control_packet_header(&b);
    }
}

#[test]
fn single_loss_entry() {
    let info = decode_control_payload(ControlPacketType::NegativeAck, &[0, 0, 0, 5]).unwrap();
    assert_eq!(info, ControlPacketInfo::NegativeAck { losses: vec![LossRange { start: 5, end: 5 }] });
}

#[test]
fn loss_ranges_and_singles() {
    let p = [0x80, 0, 0, 2, 0, 0, 0, 9, 0, 0, 0, 20];
    let info = decode_control_payload(ControlPacketType::NegativeAck, &p).unwrap();
    let expected = ControlPacketInfo::NegativeAck {
        losses: vec![LossRange { start: 2, end: 9 }, LossRange { start: 20, end: 20 }],
    };
    assert_eq!(info, expected);
    assert_eq!(encode_control_payload(&info), p.to_vec());
    assert_eq!(
        decode_control_payload(ControlPacketType::NegativeAck, &[]),
        Ok(ControlPacketInfo::NegativeAck { losses: vec![] })
    );
}

#[test]
fn loss_range_without_end_is_malformed() {
    assert_eq!(
        decode_control_payload(ControlPacketType::NegativeAck, &[0x80, 0, 0, 2]),
        Err(CodecError::MalformedPayload {
            packet_type: ControlPacketType::NegativeAck,
            expected_len: 8,
            observed_len: 4,
        })
    );
    assert_eq!(
        decode_control_payload(ControlPacketType::NegativeAck, &[0, 0, 0, 2, 1]),
        Err(CodecError::MalformedPayload {
            packet_type: ControlPacketType::NegativeAck,
            expected_len: 8,
            observed_len: 5,
        })
    );
}

#[test]
fn handshake_payload_round_trip() {
    let mut p = Vec::new();
    for w in [4u32, 2, 1000, 1500, 25600, 1, 77, 0xC0FFEE] {
        p.extend_from_slice(&w.to_be_bytes());
    }
    p.extend_from_slice(&[127, 0, 0, 1]);
    p.extend_from_slice(&[0u8; 12]);
    let info = decode_control_payload(ControlPacketType::Handshake, &p).unwrap();
    let expected = HandshakeInfo {
        udt_version: 4,
        sock_type: UDTSockType::DGRAM,
        initial_seq_no: 1000,
        mtu: 1500,
        max_flow_window: 25600,
        conn_type: UDTConnType::Regular,
        socket_id: 77,
        syn_cookie: 0xC0FFEE,
        peer_ip: PeerAddress::V4(0x7F00_0001),
    };
    assert_eq!(info, ControlPacketInfo::Handshake(expected));
    assert_eq!(encode_control_payload(&info), p);
}

#[test]
fn handshake_ipv6_and_unknown_codes() {
    let mut p = Vec::new();
    for w in [4u32, 9, 0, 0, 0, 7, 0, 0, 0x2001_0db8, 0, 0, 1] {
        p.extend_from_slice(&w.to_be_bytes());
    }
    match decode_control_payload(ControlPacketType::Handshake, &p).unwrap() {
        ControlPacketInfo::Handshake(h) => {
            assert_eq!(h.sock_type, UDTSockType::Unknown(9));
            assert_eq!(h.conn_type, UDTConnType::Unknown(7));
            assert_eq!(h.peer_ip, PeerAddress::V6(0x2001_0db8, 0, 0, 1));
        }
        other => panic!("unexpected payload {:?}", other),
    }
    assert_eq!(UDTSockType::from_code(1), UDTSockType::STREAM);
    assert_eq!(UDTConnType::from_code(0), UDTConnType::Rendezvous);
    assert_eq!(UDTSockType::DGRAM.code(), 2);
    assert_eq!(UDTConnType::Regular.code(), 1);
}

#[test]
fn ack_full_and_light() {
    let mut p = Vec::new();
    for w in [10u32, 20, 30, 40, 50, 60] {
        p.extend_from_slice(&w.to_be_bytes());
    }
    assert_eq!(
        decode_control_payload(ControlPacketType::Ack, &p),
        Ok(ControlPacketInfo::Ack(AckInfo {
            seq_no: 10,
            rtt: 20,
            rtt_variance: 30,
            avail_buffer_size: 40,
            rx_packets_per_second: 50,
            link_capacity: 60,
        }))
    );
    assert_eq!(
        decode_control_payload(ControlPacketType::Ack, &p[..4]),
        Ok(ControlPacketInfo::LightAck { seq_no: 10 })
    );
    assert_eq!(
        decode_control_payload(ControlPacketType::Ack, &p[..8]),
        Err(CodecError::MalformedPayload {
            packet_type: ControlPacketType::Ack,
            expected_len: 24,
            observed_len: 8,
        })
    );
}

#[test]
fn fixed_payloads() {
    assert_eq!(
        decode_control_payload(ControlPacketType::Shutdown, &[0, 0, 1, 0]),
        Ok(ControlPacketInfo::Shutdown { seq_no: 256 })
    );
    assert_eq!(
        decode_control_payload(ControlPacketType::MsgDropRequest, &[0, 0, 0, 1, 0, 0, 0, 2]),
        Ok(ControlPacketInfo::MsgDropRequest { first_seq_no: 1, last_seq_no: 2 })
    );
    assert_eq!(
        decode_control_payload(ControlPacketType::KeepAlive, &[]),
        Ok(ControlPacketInfo::KeepAlive)
    );
    assert_eq!(
        decode_control_payload(ControlPacketType::Unused, &[]),
        Ok(ControlPacketInfo::Unused)
    );
    assert_eq!(
        decode_control_payload(ControlPacketType::AckAck, &[]),
        Ok(ControlPacketInfo::AckAck)
    );
    assert_eq!(
        decode_control_payload(ControlPacketType::KeepAlive, &[1]),
        Err(CodecError::MalformedPayload {
            packet_type: ControlPacketType::KeepAlive,
            expected_len: 0,
            observed_len: 1,
        })
    );
    assert_eq!(
        decode_control_payload(ControlPacketType::Shutdown, &[]),
        Err(CodecError::MalformedPayload {
            packet_type: ControlPacketType::Shutdown,
            expected_len: 4,
            observed_len: 0,
        })
    );
}

#[test]
fn unknown_type_keeps_payload() {
    let b = control_bytes([0x80, 0x09, 0, 0], &[1, 2, 3]);
    let (h, info) = parse_control_packet_header(&b).unwrap();
    assert_eq!(h.packet_type, ControlPacketType::Unknown(9));
    assert_eq!(info, ControlPacketInfo::Unknown { data: vec![1, 2, 3] });
    assert_eq!(encode_control_header(&h, &info), b);
}

#[test]
fn custom_type_keeps_payload_and_subcode() {
    let b = control_bytes([0xFF, 0xFF, 0xAB, 0xCD], &[9, 8]);
    let (h, info) = parse_control_packet_header(&b).unwrap();
    assert_eq!(h.packet_type, ControlPacketType::Custom);
    assert_eq!(h.custom_type, 0xABCD);
    assert_eq!(info, ControlPacketInfo::Custom { data: vec![9, 8] });
    assert_eq!(encode_control_header(&h, &info), b);
}

#[test]
fn control_packet_round_trip() {
    let h = UDTControlPacketHeader {
        packet_type: ControlPacketType::MsgDropRequest,
        custom_type: 5,
        additional_info: 0xFFFF_FFFF,
        timestamp: 1,
        dest_socket_id: 2,
    };
    let info = ControlPacketInfo::MsgDropRequest { first_seq_no: 3, last_seq_no: 4 };
    let b = encode_control_header(&h, &info);
    assert_eq!(&b[..4], &[0x80, 0x07, 0x00, 0x05]);
    assert_eq!(b.len(), 24);
    assert_eq!(parse_control_packet_header(&b), Ok((h, info)));
}

#[test]
fn startup_and_cleanup_succeed() {
    assert_eq!(startup(), 0);
    assert_eq!(cleanup(), 0);
}
