use sstp_proto::chap::encode_utf16le;
use sstp_proto::mppe::{
    mppe_get_keys, widen, MASTER_KEY_MAGIC, SESSION_KEY_MAGIC_CLIENT_RECV,
    SESSION_KEY_MAGIC_CLIENT_SEND,
};

#[test]
fn magic_strings_match_reference_byte_arrays() {
    assert_eq!(MASTER_KEY_MAGIC.len(), 27);
    let expected_master_magic: [u8; 27] = [
        0x54, 0x68, 0x69, 0x73, 0x20, 0x69, 0x73, 0x20, 0x74, 0x68, 0x65, 0x20, 0x4d, 0x50, 0x50, 0x45, 0x20,
        0x4d, 0x61, 0x73, 0x74, 0x65, 0x72, 0x20, 0x4b, 0x65, 0x79,
    ];
    assert_eq!(MASTER_KEY_MAGIC.as_bytes(), &expected_master_magic[..]);

    assert_eq!(SESSION_KEY_MAGIC_CLIENT_SEND.len(), 84);
    assert_eq!(SESSION_KEY_MAGIC_CLIENT_RECV.len(), 84);
}

#[test]
fn matches_reference_implementation_test_vector() {
    let nt_response: [u8; 24] = [
        0x85, 0x9a, 0x0c, 0x0e, 0xce, 0x47, 0x4d, 0xf2, 0x0d, 0x0a, 0xe8, 0x31, 0xac, 0x3a, 0xe3, 0xd2, 0x4f,
        0x82, 0x6e, 0x93, 0x67, 0x9e, 0x36, 0xbc,
    ];
    let expected_send_key: [u8; 16] = [
        0x00, 0x0b, 0xc1, 0xde, 0xa2, 0xcb, 0x85, 0x16, 0xbc, 0x77, 0xf5, 0x52, 0xb9, 0xec, 0x5a, 0x03,
    ];
    let expected_recv_key: [u8; 16] = [
        0x93, 0xd9, 0x27, 0x06, 0xf5, 0x13, 0xa2, 0xea, 0x50, 0xf8, 0xcd, 0x94, 0x69, 0x57, 0x3c, 0xdb,
    ];

    let keys = mppe_get_keys("DukeNuke3D", &nt_response, false);
    assert_eq!(keys.send_key, expected_send_key, "send key mismatch");
    assert_eq!(keys.recv_key, expected_recv_key, "recv key mismatch");
}

#[test]
fn debug_impl_never_prints_key_material() {
    let keys = mppe_get_keys("hunter2", &[0u8; 24], false);
    let debug_str = keys.debug_text();
    assert!(!debug_str.contains(&format!("{:?}", keys.send_key)));
    assert!(debug_str.contains("redacted"));
}

#[test]
fn key_description_is_always_the_same() {
    let keys = mppe_get_keys("x", &[1u8; 24], false);
    assert_eq!(keys.debug_text(), "MppeKeys { send_key: \"<redacted>\", recv_key: \"<redacted>\" }");
}

#[test]
fn what_one_side_sends_under_the_other_receives_under() {
    let client = mppe_get_keys("secret", &[7u8; 24], false);
    let server = mppe_get_keys("secret", &[7u8; 24], true);
    assert_eq!(client.send_key, server.recv_key);
    assert_eq!(client.recv_key, server.send_key);
    assert_ne!(client.send_key, client.recv_key);
}

#[test]
fn keys_depend_on_password_and_response() {
    let keys = mppe_get_keys("secret", &[7u8; 24], false);
    assert_ne!(keys.send_key, mppe_get_keys("Secret", &[7u8; 24], false).send_key);
    assert_ne!(keys.send_key, mppe_get_keys("secret", &[8u8; 24], false).send_key);
}

#[test]
fn bytes_are_widened() {
    assert_eq!(widen(&[1, 2]), vec![1, 0, 2, 0]);
    assert_eq!(widen("abc".as_bytes()), encode_utf16le("abc"));
    assert_ne!(widen("Ж".as_bytes()), encode_utf16le("Ж"));
}
