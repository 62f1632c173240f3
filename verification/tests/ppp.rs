use sstp_proto::ppp::{decode, encode, strip_address_control, Protocol};

#[test]
fn round_trips_known_protocol() {
    let wire = encode(Protocol::Lcp, &[1, 2, 3]);
    assert_eq!(wire, vec![0xFF, 0x03, 0xC0, 0x21, 1, 2, 3], "must include the default Address/Control prefix");
    let (proto, payload) = decode(&wire).unwrap();
    assert_eq!(proto, Protocol::Lcp);
    assert_eq!(payload, &[1, 2, 3]);
}

#[test]
fn decode_tolerates_a_missing_address_control_prefix() {
    let (proto, payload) = decode(&[0xC0, 0x21, 1, 2, 3]).unwrap();
    assert_eq!(proto, Protocol::Lcp);
    assert_eq!(payload, &[1, 2, 3]);
}

#[test]
fn unknown_protocol_preserved_numerically() {
    let wire = encode(Protocol::Unknown(0x8281), &[]);
    let (proto, _) = decode(&wire).unwrap();
    assert_eq!(proto, Protocol::Unknown(0x8281));
}

#[test]
fn short_frame_is_none_not_a_panic() {
    assert_eq!(decode(&[]), None);
    assert_eq!(decode(&[0x00]), None);
}

#[test]
fn prefix_alone_is_too_short() {
    assert_eq!(decode(&[0xFF, 0x03]), None);
    assert_eq!(decode(&[0xFF, 0x03, 0xC0]), None);
}

#[test]
fn prefix_is_taken_off_once() {
    assert_eq!(strip_address_control(&[0xFF, 0x03, 0xFF, 0x03, 9]), &[0xFF, 0x03, 9]);
    assert_eq!(strip_address_control(&[0xFF]), &[0xFF]);
    assert_eq!(strip_address_control(&[0xFF, 0x04, 1]), &[0xFF, 0x04, 1]);
}

#[test]
fn frame_reads_the_same_with_and_without_prefix() {
    for protocol in [Protocol::Ip, Protocol::Lcp, Protocol::Pap, Protocol::Chap, Protocol::Ipcp] {
        let wire = encode(protocol, &[4, 5]);
        assert_eq!(decode(&wire), Some((protocol, &[4u8, 5][..])));
        assert_eq!(decode(&wire[2..]), Some((protocol, &[4u8, 5][..])));
    }
}

#[test]
fn protocol_numbers_survive() {
    for v in [0x0021u16, 0xC021, 0xC023, 0xC223, 0x8021, 0, 0xFFFF] {
        assert_eq!(Protocol::from_u16(v).to_u16(), v);
    }
}
