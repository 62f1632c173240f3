use sstp_proto::cp::{
    decode, decode_options, drop_kinds, encode, encode_options, set_values, Code, Opt,
};

#[test]
fn frame_round_trips() {
    let wire = encode(Code::ConfigureRequest, 7, &[0xAA, 0xBB]);
    let frame = decode(&wire).unwrap();
    assert_eq!(frame.code, Code::ConfigureRequest);
    assert_eq!(frame.id, 7);
    assert_eq!(frame.data, vec![0xAA, 0xBB]);
}

#[test]
fn options_round_trip() {
    let opts = vec![Opt::new(5, &[0x01, 0x02, 0x03, 0x04]), Opt::new(7, &[])];
    let wire = encode_options(&opts);
    let decoded = decode_options(&wire);
    assert_eq!(decoded, opts);
}

#[test]
fn decode_stops_cleanly_on_truncated_option() {
    let mut buf = encode_options(&[Opt::new(1, &[0xAA, 0xBB])]);
    buf.push(0x99);
    let decoded = decode_options(&buf);
    assert_eq!(decoded, vec![Opt::new(1, &[0xAA, 0xBB])]);
}

#[test]
fn decode_frame_rejects_length_past_buffer() {
    let mut wire = encode(Code::ConfigureAck, 1, &[1, 2, 3]);
    wire[2..4].copy_from_slice(&0xFFFFu16.to_be_bytes());
    assert_eq!(decode(&wire), None);
}

#[test]
fn decodes_captured_real_world_lcp_confreq() {
    let opts = vec![Opt::new(5, &0x6770957fu32.to_be_bytes()), Opt::new(7, &[]), Opt::new(8, &[])];
    let data = encode_options(&opts);
    let wire = encode(Code::ConfigureRequest, 1, &data);
    let frame = decode(&wire).unwrap();
    assert_eq!(decode_options(&frame.data), opts);
}

#[test]
fn control_frame_has_its_exact_wire_form() {
    assert_eq!(encode(Code::EchoRequest, 7, &[1, 2]), vec![9, 7, 0, 6, 1, 2]);
    assert_eq!(encode_options(&[Opt::new(3, &[9]), Opt::new(8, &[])]), vec![3, 3, 9, 8, 2]);
}

#[test]
fn control_frame_ignores_what_follows_it() {
    let frame = decode(&[5, 1, 0, 5, 42, 99, 99]).unwrap();
    assert_eq!(frame.code, Code::TerminateRequest);
    assert_eq!(frame.data, vec![42]);
}

#[test]
fn control_frame_shorter_than_its_header_is_none() {
    assert_eq!(decode(&[1, 1, 0]), None);
    assert_eq!(decode(&[1, 1, 0, 3]), None);
    assert_eq!(decode(&[1, 1, 0, 5]), None);
}

#[test]
fn unknown_control_code_is_kept() {
    let frame = decode(&encode(Code::Unknown(77), 1, &[])).unwrap();
    assert_eq!(frame.code, Code::Unknown(77));
}

#[test]
fn option_length_keeps_its_low_eight_bits() {
    let wire = encode_options(&[Opt { kind: 1, data: vec![0; 254] }]);
    assert_eq!(&wire[..2], &[1, 0]);
    let wire = encode_options(&[Opt { kind: 1, data: vec![0; 253] }]);
    assert_eq!(&wire[..2], &[1, 255]);
}

#[test]
fn option_without_room_for_its_header_ends_the_list() {
    assert_eq!(decode_options(&[1, 1, 2, 2]), vec![]);
    assert_eq!(decode_options(&[7, 2, 1, 0]), vec![Opt::new(7, &[])]);
}

#[test]
fn suggested_values_replace_the_first_of_their_kind() {
    let mut opts = vec![Opt::new(1, &[1]), Opt::new(2, &[2]), Opt::new(1, &[3])];
    set_values(&mut opts, &[Opt::new(1, &[9, 9]), Opt::new(5, &[5])]);
    assert_eq!(opts, vec![Opt::new(1, &[9, 9]), Opt::new(2, &[2]), Opt::new(1, &[3])]);
}

#[test]
fn rejected_kinds_are_dropped_everywhere() {
    let mut opts = vec![Opt::new(1, &[1]), Opt::new(2, &[2]), Opt::new(1, &[3])];
    drop_kinds(&mut opts, &[Opt::new(1, &[])]);
    assert_eq!(opts, vec![Opt::new(2, &[2])]);
}
