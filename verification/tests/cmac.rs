use sstp_proto::cmac::{build_connected_message, compound_mac, place_mac, HashAlgo, SEED};

#[test]
fn sha1_matches_reference_test_vector() {
        let sstp_msg: [u8; 112] = [
        0x10, 0x01, 0x00, 0x70, 0x00, 0x04, 0x00, 0x01,
        0x00, 0x03, 0x00, 0x68, 0x00, 0x00, 0x00, 0x01,
        0x0F, 0x1A, 0x2D, 0x58, 0xD4, 0xA3, 0xE3, 0x00,
        0x0F, 0xAD, 0x3C, 0xE4, 0x90, 0x6E, 0x07, 0xB7,
        0x07, 0xAA, 0x9E, 0x44, 0x1C, 0xCE, 0xAC, 0x5C,
        0xBD, 0x7B, 0x2C, 0xC1, 0xC9, 0xD8, 0x6C, 0xDF,
        0x58, 0x26, 0xB6, 0x29, 0xBD, 0xA5, 0x9B, 0x8E,
        0x6F, 0xD8, 0xDC, 0xD2, 0x62, 0x2F, 0xD3, 0x4C,
        0x53, 0x48, 0x05, 0xA5, 0x00, 0x00, 0x00, 0x00,
        0x00, 0x00, 0x00, 0x00, 0x00, 0x00, 0x00, 0x00,
        0x00, 0x00, 0x00, 0x00, 0x00, 0x00, 0x00, 0x00,
        0x00, 0x00, 0x00, 0x00, 0x00, 0x00, 0x00, 0x00,
        0x00, 0x00, 0x00, 0x00, 0x00, 0x00, 0x00, 0x00,
        0x00, 0x00, 0x00, 0x00, 0x00, 0x00, 0x00, 0x00,
    ];
    let send_key: [u8; 16] = [
        0x4B, 0x31, 0x28, 0xF4, 0x39, 0x25, 0xD9, 0x00, 0x6E, 0xEF, 0xB1, 0xC4, 0xE8, 0x65, 0x15, 0xA1,
    ];
    let recv_key: [u8; 16] = [
        0xD8, 0x8E, 0x56, 0xBA, 0xB3, 0xCA, 0x2B, 0xDF, 0x03, 0x73, 0xB7, 0xF5, 0xA8, 0xA1, 0x3B, 0x19,
    ];
    let expected: [u8; 20] = [
        0x69, 0x91, 0x5D, 0xD5, 0x83, 0xD8, 0x06, 0x2F, 0xEF, 0x16, 0xF6, 0x1D, 0xB2, 0xF0, 0x32, 0x90, 0xEC,
        0x27, 0xCB, 0x6C,
    ];

    let result = compound_mac(HashAlgo::Sha1, &send_key, &recv_key, &sstp_msg);
    assert_eq!(result, expected);
}

#[test]
fn build_connected_message_matches_reference_sha1_vector() {
        let sstp_msg_no_mac: [u8; 112] = [
        0x10, 0x01, 0x00, 0x70, 0x00, 0x04, 0x00, 0x01,
        0x00, 0x03, 0x00, 0x68, 0x00, 0x00, 0x00, 0x01,
        0x0F, 0x1A, 0x2D, 0x58, 0xD4, 0xA3, 0xE3, 0x00,
        0x0F, 0xAD, 0x3C, 0xE4, 0x90, 0x6E, 0x07, 0xB7,
        0x07, 0xAA, 0x9E, 0x44, 0x1C, 0xCE, 0xAC, 0x5C,
        0xBD, 0x7B, 0x2C, 0xC1, 0xC9, 0xD8, 0x6C, 0xDF,
        0x58, 0x26, 0xB6, 0x29, 0xBD, 0xA5, 0x9B, 0x8E,
        0x6F, 0xD8, 0xDC, 0xD2, 0x62, 0x2F, 0xD3, 0x4C,
        0x53, 0x48, 0x05, 0xA5, 0x00, 0x00, 0x00, 0x00,
        0x00, 0x00, 0x00, 0x00, 0x00, 0x00, 0x00, 0x00,
        0x00, 0x00, 0x00, 0x00, 0x00, 0x00, 0x00, 0x00,
        0x00, 0x00, 0x00, 0x00, 0x00, 0x00, 0x00, 0x00,
        0x00, 0x00, 0x00, 0x00, 0x00, 0x00, 0x00, 0x00,
        0x00, 0x00, 0x00, 0x00, 0x00, 0x00, 0x00, 0x00,
    ];
    let send_key: [u8; 16] = [
        0x4B, 0x31, 0x28, 0xF4, 0x39, 0x25, 0xD9, 0x00, 0x6E, 0xEF, 0xB1, 0xC4, 0xE8, 0x65, 0x15, 0xA1,
    ];
    let recv_key: [u8; 16] = [
        0xD8, 0x8E, 0x56, 0xBA, 0xB3, 0xCA, 0x2B, 0xDF, 0x03, 0x73, 0xB7, 0xF5, 0xA8, 0xA1, 0x3B, 0x19,
    ];
    let expected_mac: [u8; 20] = [
        0x69, 0x91, 0x5D, 0xD5, 0x83, 0xD8, 0x06, 0x2F, 0xEF, 0x16, 0xF6, 0x1D, 0xB2, 0xF0, 0x32, 0x90, 0xEC,
        0x27, 0xCB, 0x6C,
    ];

    let nonce: [u8; 32] = sstp_msg_no_mac[16..48].try_into().unwrap();
    let cert_hash: [u8; 32] = sstp_msg_no_mac[48..80].try_into().unwrap();

    let built = build_connected_message(HashAlgo::Sha1, &nonce, &cert_hash, &send_key, &recv_key);

    let mut expected_packet = sstp_msg_no_mac.to_vec();
    expected_packet[80..100].copy_from_slice(&expected_mac);

    assert_eq!(built, expected_packet);
}

#[test]
fn sha256_matches_reference_test_vector() {
        let sstp_msg: [u8; 112] = [
        0x10, 0x01, 0x00, 0x70, 0x00, 0x04, 0x00, 0x01,
        0x00, 0x03, 0x00, 0x68, 0x00, 0x00, 0x00, 0x02,
        0x41, 0x2B, 0x48, 0x9A, 0xEB, 0xD7, 0xEC, 0xC7,
        0xD0, 0x89, 0x66, 0xF2, 0x6B, 0xE7, 0xCD, 0x72,
        0xB2, 0x31, 0xA0, 0xE9, 0x21, 0x0D, 0x7C, 0x91,
        0xB3, 0x08, 0x86, 0x2B, 0x03, 0x44, 0xC4, 0x35,
        0x79, 0x93, 0xEF, 0x31, 0x4C, 0x49, 0x3D, 0xAC,
        0xE9, 0xF0, 0x2D, 0x60, 0xE7, 0xE6, 0x1C, 0x84,
        0xB6, 0x69, 0x0A, 0xAF, 0xE9, 0xD7, 0xAE, 0xEA,
        0x92, 0xCB, 0xBE, 0x8A, 0xD5, 0x99, 0x42, 0x2D,
        0x00, 0x00, 0x00, 0x00, 0x00, 0x00, 0x00, 0x00,
        0x00, 0x00, 0x00, 0x00, 0x00, 0x00, 0x00, 0x00,
        0x00, 0x00, 0x00, 0x00, 0x00, 0x00, 0x00, 0x00,
        0x00, 0x00, 0x00, 0x00, 0x00, 0x00, 0x00, 0x00,
    ];
    let send_key: [u8; 16] = [
        0x2A, 0x1B, 0xB4, 0x0D, 0x55, 0xAB, 0x0F, 0x5E, 0xF3, 0x2F, 0x06, 0xF2, 0xB3, 0xCC, 0x73, 0xC4,
    ];
    let recv_key: [u8; 16] = [
        0x8F, 0xD3, 0xFA, 0xC4, 0x1D, 0x7A, 0x13, 0x15, 0xA1, 0x92, 0x28, 0xD9, 0x02, 0x4C, 0xA1, 0x64,
    ];
    let expected: [u8; 32] = [
        0x52, 0xA6, 0x8E, 0xFD, 0x8C, 0xFF, 0xBF, 0x52, 0x77, 0x0B, 0x8F, 0x0F, 0xE8, 0xEC, 0x73, 0x71, 0x65,
        0x83, 0xAF, 0x6D, 0x61, 0x1E, 0xB6, 0xD1, 0x79, 0xB3, 0xB2, 0x08, 0x40, 0x98, 0x54, 0x49,
    ];

    let result = compound_mac(HashAlgo::Sha256, &send_key, &recv_key, &sstp_msg);
    assert_eq!(result, expected);
}

#[test]
fn seed_matches_reference_byte_array() {
    assert_eq!(SEED.len(), 29);
    let expected: [u8; 29] = [
        0x53, 0x53, 0x54, 0x50, 0x20, 0x69, 0x6E, 0x6E, 0x65, 0x72, 0x20, 0x6d, 0x65, 0x74, 0x68, 0x6F, 0x64,
        0x20, 0x64, 0x65, 0x72, 0x69, 0x76, 0x65, 0x64, 0x20, 0x43, 0x4D, 0x4B,
    ];
    assert_eq!(SEED.as_bytes(), &expected[..]);
}

#[test]
fn every_part_of_the_final_message_has_its_place() {
    let nonce = [0x11u8; 32];
    let cert = [0x22u8; 32];
    let message = build_connected_message(HashAlgo::Sha256, &nonce, &cert, &[3; 16], &[4; 16]);
    assert_eq!(message.len(), 112);
    assert_eq!(message[15], 2);
    assert_eq!(&message[16..48], &nonce);
    assert_eq!(&message[48..80], &cert);
    let mut blank = message.clone();
    for byte in &mut blank[80..112] {
        *byte = 0;
    }
    assert_eq!(&message[80..112], &compound_mac(HashAlgo::Sha256, &[3; 16], &[4; 16], &blank)[..]);
}

#[test]
fn codes_are_as_long_as_their_hash() {
    assert_eq!(compound_mac(HashAlgo::Sha1, &[0; 16], &[0; 16], &[]).len(), 20);
    assert_eq!(compound_mac(HashAlgo::Sha256, &[0; 16], &[0; 16], &[]).len(), 32);
}

#[test]
fn codes_depend_on_both_keys_and_the_message() {
    let code = compound_mac(HashAlgo::Sha1, &[1; 16], &[2; 16], &[3]);
    assert_ne!(code, compound_mac(HashAlgo::Sha1, &[2; 16], &[1; 16], &[3]));
    assert_ne!(code, compound_mac(HashAlgo::Sha1, &[1; 16], &[2; 16], &[4]));
}

#[test]
fn a_code_is_written_into_its_field_only() {
    let mut message: Vec<u8> = vec![9; 112];
    place_mac(&mut message, &[1, 2, 3]);
    assert_eq!(&message[79..84], &[9, 1, 2, 3, 9]);
    assert_eq!(message.len(), 112);
}

#[test]
fn hashes_have_names() {
    assert_eq!(HashAlgo::Sha1.name(), "Sha1");
    assert_eq!(HashAlgo::Sha256.name(), "Sha256");
}
