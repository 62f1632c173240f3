use sstp_proto::packet::{
    decode, describe_status, encode_ctrl, encode_data, status_reason, Attr, AttrType, DecodeError,
    MsgType, Packet, PacketReader, CTRL_HEADER_LEN, FLAG_CTRL, PKT_HEADER_LEN, PROTO_VERSION,
};

#[test]
fn describe_status_decodes_reference_status_codes() {
    let mut data = vec![0u8, 0, 0, 4];
    data.extend_from_slice(&0x0au32.to_be_bytes());
    let attrs = vec![Attr { attr_type: AttrType::StatusInfo, data }];
    let described = describe_status(&attrs).unwrap();
    assert!(described.contains("Attribute is missing"), "{described}");
    assert!(described.contains("code 10"), "{described}");
    assert!(described.contains("attribute 4"), "{described}");
}

#[test]
fn describe_status_is_none_without_a_status_info_attribute() {
    let attrs = vec![Attr { attr_type: AttrType::EncapProtocol, data: vec![0, 1] }];
    assert_eq!(describe_status(&attrs), None);
}

#[test]
fn describe_status_handles_truncated_attribute_without_panicking() {
    let attrs = vec![Attr { attr_type: AttrType::StatusInfo, data: vec![0, 0, 0] }];
    let described = describe_status(&attrs).unwrap();
    assert!(described.contains("malformed"), "{described}");
}

#[test]
fn unknown_status_code_has_a_fallback_message() {
    assert_eq!(status_reason(0xFF), "Unknown Status Attribute");
}

#[test]
fn data_packet_round_trips() {
    let ppp_frame = b"\xff\x03\xc0\x21hello-ppp-frame";
    let wire = encode_data(ppp_frame);
    assert_eq!(wire[0], PROTO_VERSION);
    assert_eq!(wire[1], 0, "data packets must not set the CTRL flag");
    match decode(&wire).unwrap() {
        Packet::Data(payload) => assert_eq!(payload, ppp_frame),
        other => panic!("expected Data, got {other:?}"),
    }
}

#[test]
fn connect_request_matches_reference_shape() {
    let proto_ppp: [u8; 2] = 1u16.to_be_bytes();
    let wire = encode_ctrl(MsgType::ConnectRequest, &[(AttrType::EncapProtocol, &proto_ppp)]);
    assert_eq!(wire.len(), 14);
    assert_eq!(wire[1] & FLAG_CTRL, FLAG_CTRL);

    match decode(&wire).unwrap() {
        Packet::Ctrl { msg_type, attrs } => {
            assert_eq!(msg_type, MsgType::ConnectRequest);
            assert_eq!(attrs.len(), 1);
            assert_eq!(attrs[0].attr_type, AttrType::EncapProtocol);
            assert_eq!(attrs[0].data, proto_ppp);
        }
        other => panic!("expected Ctrl, got {other:?}"),
    }
}

#[test]
fn connect_ack_crypto_bind_req_decodes_hash_protocol_and_nonce() {
    let mut payload = vec![0u8; 36];
    payload[3] = 0x02;
    let nonce: Vec<u8> = (0u8..32).collect();
    payload[4..].copy_from_slice(&nonce);

    let wire = encode_ctrl(MsgType::ConnectAck, &[(AttrType::CryptoBindRequest, &payload)]);
    match decode(&wire).unwrap() {
        Packet::Ctrl { msg_type, attrs } => {
            assert_eq!(msg_type, MsgType::ConnectAck);
            let attr = &attrs[0];
            assert_eq!(attr.attr_type, AttrType::CryptoBindRequest);
            assert_eq!(attr.data.len(), 36);
            let hash_proto = attr.data[3];
            let received_nonce = &attr.data[4..];
            assert_eq!(hash_proto, 0x02);
            assert_eq!(received_nonce, &nonce[..]);
        }
        other => panic!("expected Ctrl, got {other:?}"),
    }
}

#[test]
fn multiple_attributes_round_trip_in_order() {
    let a = [0xAAu8, 0xBB];
    let b = [0x01u8, 0x02, 0x03];
    let wire = encode_ctrl(MsgType::Connected, &[(AttrType::CryptoBind, &a), (AttrType::StatusInfo, &b)]);
    match decode(&wire).unwrap() {
        Packet::Ctrl { attrs, .. } => {
            assert_eq!(attrs.len(), 2);
            assert_eq!(attrs[0].data, a);
            assert_eq!(attrs[1].data, b);
        }
        other => panic!("expected Ctrl, got {other:?}"),
    }
}

#[test]
fn rejects_wrong_version() {
    let mut wire = encode_data(b"x");
    wire[0] = 0x20;
    assert_eq!(decode(&wire), Err(DecodeError::BadVersion(0x20)));
}

#[test]
fn empty_and_truncated_buffers_are_incomplete_not_a_hard_error() {
    assert_eq!(decode(&[]), Err(DecodeError::Incomplete));
    let wire = encode_ctrl(MsgType::EchoRequest, &[]);
    for cut in 0..wire.len() {
        assert_eq!(decode(&wire[..cut]), Err(DecodeError::Incomplete), "cut at {cut}");
    }
}

#[test]
fn attribute_length_overrunning_packet_is_malformed_not_a_panic() {
    let mut wire = encode_ctrl(MsgType::ConnectAck, &[(AttrType::StatusInfo, &[1, 2, 3, 4])]);
    let attr_len_pos = PKT_HEADER_LEN + CTRL_HEADER_LEN + 2;
    wire[attr_len_pos..attr_len_pos + 2].copy_from_slice(&0xFFFFu16.to_be_bytes());
    assert!(matches!(decode(&wire), Err(DecodeError::Malformed(_))));
}

#[test]
fn packet_reader_reassembles_fragmented_stream() {
    let pkt1 = encode_data(b"first-frame");
    let pkt2 = encode_ctrl(MsgType::EchoRequest, &[]);

    let mut all = Vec::new();
    all.extend_from_slice(&pkt1);
    all.extend_from_slice(&pkt2);

    let mut reader = PacketReader::new();
    for byte in &all {
        reader.push(&[*byte]);
    }

    let first = reader.next_packet().unwrap().expect("first packet ready");
    assert_eq!(first, Packet::Data(b"first-frame".to_vec()));

    let second = reader.next_packet().unwrap().expect("second packet ready");
    match second {
        Packet::Ctrl { msg_type, .. } => assert_eq!(msg_type, MsgType::EchoRequest),
        other => panic!("expected Ctrl, got {other:?}"),
    }

    assert!(reader.next_packet().unwrap().is_none(), "nothing left to read");
}

#[test]
fn packet_reader_handles_two_packets_delivered_in_one_chunk() {
    let mut all = encode_data(b"a");
    all.extend_from_slice(&encode_data(b"bb"));

    let mut reader = PacketReader::new();
    reader.push(&all);

    assert_eq!(reader.next_packet().unwrap(), Some(Packet::Data(b"a".to_vec())));
    assert_eq!(reader.next_packet().unwrap(), Some(Packet::Data(b"bb".to_vec())));
    assert_eq!(reader.next_packet().unwrap(), None);
}

#[test]
fn every_packet_error_has_its_words() {
    assert_eq!(DecodeError::Incomplete.message(), "incomplete packet");
    assert_eq!(DecodeError::BadVersion(0x0a).message(), "unsupported SSTP version 0x0a");
    assert_eq!(
        DecodeError::Malformed("control packet shorter than control header").message(),
        "malformed SSTP packet: control packet shorter than control header"
    );
}

#[test]
fn data_packet_has_its_exact_wire_form() {
    assert_eq!(encode_data(&[0xAA, 0xBB]), vec![0x10, 0x00, 0x00, 0x06, 0xAA, 0xBB]);
}

#[test]
fn control_packet_has_its_exact_wire_form() {
    let wire = encode_ctrl(MsgType::Abort, &[(AttrType::StatusInfo, &[1, 2])]);
    assert_eq!(wire, vec![0x10, 0x01, 0x00, 0x0e, 0x00, 0x05, 0x00, 0x01, 0x00, 0x02, 0x00, 0x06, 1, 2]);
}

#[test]
fn length_field_keeps_its_low_sixteen_bits() {
    let wire = encode_data(&vec![0u8; 0x1_0000]);
    assert_eq!(wire.len(), 0x1_0004);
    assert_eq!(&wire[..4], &[0x10, 0x00, 0x00, 0x04]);
}

#[test]
fn each_length_error_is_told_apart() {
    assert_eq!(
        decode(&[0x10, 0, 0, 3]),
        Err(DecodeError::Malformed("header length smaller than header itself"))
    );
    assert_eq!(
        decode(&[0x10, 1, 0, 6, 0, 8]),
        Err(DecodeError::Malformed("control packet shorter than control header"))
    );
    assert_eq!(
        decode(&[0x10, 1, 0, 9, 0, 8, 0, 1, 0]),
        Err(DecodeError::Malformed("attribute header runs past packet end"))
    );
    assert_eq!(
        decode(&[0x10, 1, 0, 12, 0, 8, 0, 1, 0, 2, 0, 3]),
        Err(DecodeError::Malformed("attribute length invalid or runs past packet end"))
    );
}

#[test]
fn unknown_numbers_are_kept() {
    let wire = encode_ctrl(MsgType::Unknown(0x1234), &[(AttrType::Unknown(9), &[7])]);
    let expected = Packet::Ctrl {
        msg_type: MsgType::Unknown(0x1234),
        attrs: vec![Attr { attr_type: AttrType::Unknown(9), data: vec![7] }],
    };
    assert_eq!(decode(&wire), Ok(expected));
}

#[test]
fn unknown_number_with_a_name_comes_back_under_its_name() {
    let wire = encode_ctrl(MsgType::Unknown(8), &[]);
    assert_eq!(decode(&wire), Ok(Packet::Ctrl { msg_type: MsgType::EchoRequest, attrs: vec![] }));
}

#[test]
fn bytes_behind_a_packet_play_no_part() {
    let mut wire = encode_data(&[1, 2, 3]);
    wire.extend_from_slice(&[0x20, 0xff]);
    assert_eq!(decode(&wire), Ok(Packet::Data(vec![1, 2, 3])));
}

#[test]
fn every_truncation_of_a_packet_with_attributes_is_incomplete() {
    let wire = encode_ctrl(MsgType::ConnectAck, &[(AttrType::CryptoBindRequest, &[5; 36])]);
    for cut in 0..wire.len() {
        assert_eq!(decode(&wire[..cut]), Err(DecodeError::Incomplete));
    }
}

#[test]
fn reader_keeps_bytes_that_are_no_packet() {
    let mut reader = PacketReader::new();
    reader.push(&[0x20, 0, 0, 4]);
    assert_eq!(reader.next_packet(), Err(DecodeError::BadVersion(0x20)));
    assert_eq!(reader.next_packet(), Err(DecodeError::BadVersion(0x20)));
}

#[test]
fn reader_yields_frames_in_the_order_sent() {
    let mut reader = PacketReader::default();
    let mut stream = Vec::new();
    for n in 0u8..20 {
        stream.extend_from_slice(&encode_data(&vec![n; n as usize]));
    }
    for part in stream.chunks(7) {
        reader.push(part);
    }
    for n in 0u8..20 {
        assert_eq!(reader.next_packet(), Ok(Some(Packet::Data(vec![n; n as usize]))));
    }
    assert_eq!(reader.next_packet(), Ok(None));
}

#[test]
fn status_sentences_are_exact() {
    let attr = |data: Vec<u8>| vec![Attr { attr_type: AttrType::StatusInfo, data }];
    assert_eq!(
        describe_status(&attr(vec![0, 0, 0, 3, 0, 0, 0, 4])).unwrap(),
        "Value of attribute is incorrect (code 4, attribute 3)"
    );
    assert_eq!(
        describe_status(&attr(vec![0, 0, 0, 255, 1, 2, 3, 4, 99])).unwrap(),
        "Unknown Status Attribute (code 16909060, attribute 255)"
    );
    assert_eq!(
        describe_status(&attr(vec![0x0a, 0xff, 0])).unwrap(),
        "malformed status-info attribute: [0a, ff, 00]"
    );
    assert_eq!(describe_status(&attr(vec![])).unwrap(), "malformed status-info attribute: []");
}

#[test]
fn the_first_status_attribute_counts() {
    let attrs = vec![
        Attr { attr_type: AttrType::NoError, data: vec![] },
        Attr { attr_type: AttrType::StatusInfo, data: vec![0, 0, 0, 1, 0, 0, 0, 1] },
        Attr { attr_type: AttrType::StatusInfo, data: vec![] },
    ];
    assert_eq!(describe_status(&attrs).unwrap(), "Received Duplicate Attribute (code 1, attribute 1)");
}

#[test]
fn every_known_status_code_has_its_words() {
    assert_eq!(status_reason(0x02), "Unrecognized Attribute");
    assert_eq!(status_reason(0x03), "Invalid Attribute Length");
    assert_eq!(status_reason(0x09), "Attribute is invalid or not supported");
    assert_eq!(status_reason(0x0b), "Invalid info attribute");
    assert_eq!(status_reason(0x05), "Unknown Status Attribute");
}
