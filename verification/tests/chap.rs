use sstp_proto::chap::{
    count_ones, encode_utf16le, format_authenticator, generate_authenticator_response,
    generate_nt_response, join_blocks, make_key, user_of,
};

const USERNAME: &str = "User";
const PASSWORD: &str = "clientPass";
const AUTH_CHALLENGE: [u8; 16] =
    [0x5B, 0x5D, 0x7C, 0x7D, 0x7B, 0x3F, 0x2F, 0x3E, 0x3C, 0x2C, 0x60, 0x21, 0x32, 0x26, 0x26, 0x28];
const PEER_CHALLENGE: [u8; 16] =
    [0x21, 0x40, 0x23, 0x24, 0x25, 0x5E, 0x26, 0x2A, 0x28, 0x29, 0x5F, 0x2B, 0x3A, 0x33, 0x7C, 0x7E];
const EXPECTED_NT_RESPONSE: [u8; 24] = [
    0x82, 0x30, 0x9E, 0xCD, 0x8D, 0x70, 0x8B, 0x5E, 0xA0, 0x8F, 0xAA, 0x39, 0x81, 0xCD, 0x83, 0x54, 0x42, 0x33,
    0x11, 0x4A, 0x3D, 0x85, 0xD6, 0xDF,
];
const EXPECTED_AUTH_RESPONSE: &str = "S=407A5589115FD0D6209F510FE9C04566932CDA56";

#[test]
fn nt_response_matches_rfc2759_test_vector() {
    let response = generate_nt_response(&AUTH_CHALLENGE, &PEER_CHALLENGE, USERNAME, PASSWORD);
    assert_eq!(response, EXPECTED_NT_RESPONSE);
}

#[test]
fn authenticator_response_matches_rfc2759_test_vector() {
    let response =
        generate_authenticator_response(PASSWORD, &EXPECTED_NT_RESPONSE, &PEER_CHALLENGE, &AUTH_CHALLENGE, USERNAME);
    assert_eq!(response, EXPECTED_AUTH_RESPONSE);
}

#[test]
fn domain_prefixed_username_only_hashes_the_user_part() {
    let plain = generate_nt_response(&AUTH_CHALLENGE, &PEER_CHALLENGE, USERNAME, PASSWORD);
    let domain_prefixed = generate_nt_response(&AUTH_CHALLENGE, &PEER_CHALLENGE, "CORP\\User", PASSWORD);
    assert_eq!(plain, domain_prefixed, "DOMAIN\\user must hash the same as just user");
}

#[test]
fn different_password_produces_different_response() {
    let a = generate_nt_response(&AUTH_CHALLENGE, &PEER_CHALLENGE, USERNAME, "clientPass");
    let b = generate_nt_response(&AUTH_CHALLENGE, &PEER_CHALLENGE, USERNAME, "wrongPass");
    assert_ne!(a, b);
}

#[test]
fn make_key_produces_odd_parity_bytes() {
    let lookahead = [0xFFu8; 8];
    let key = make_key(&lookahead);
    for byte in key {
        assert_eq!(byte.count_ones() % 2, 1, "byte {byte:#04x} does not have odd parity");
    }
}

#[test]
fn only_what_follows_the_last_backslash_is_the_user() {
    assert_eq!(user_of("CORP\\User"), "User");
    assert_eq!(user_of("a\\b\\c"), "c");
    assert_eq!(user_of("User"), "User");
    assert_eq!(user_of("CORP\\"), "");
    assert_eq!(user_of(""), "");
}

#[test]
fn domain_plays_no_part_in_the_proof() {
    let plain = generate_authenticator_response(PASSWORD, &EXPECTED_NT_RESPONSE, &PEER_CHALLENGE, &AUTH_CHALLENGE, "User");
    let with_domain = generate_authenticator_response(PASSWORD, &EXPECTED_NT_RESPONSE, &PEER_CHALLENGE, &AUTH_CHALLENGE, "D\\User");
    assert_eq!(plain, with_domain);
}

#[test]
fn passwords_are_hashed_as_utf16() {
    assert_eq!(encode_utf16le("aЖ"), vec![0x61, 0x00, 0x16, 0x04]);
    assert_eq!(encode_utf16le("\u{1F600}"), vec![0x3D, 0xD8, 0x00, 0xDE]);
    assert_eq!(encode_utf16le("\u{10FFFF}\u{FFFF}"), vec![0xFF, 0xDB, 0xFF, 0xDF, 0xFF, 0xFF]);
    assert_eq!(encode_utf16le(""), Vec::<u8>::new());
}

#[test]
fn des_keys_spread_seven_bits_to_a_byte() {
    assert_eq!(make_key(&[0; 8]), [1; 8]);
    assert_eq!(make_key(&[0x80, 0, 0, 0, 0, 0, 0, 0]), [0x80, 1, 1, 1, 1, 1, 1, 1]);
    assert_eq!(make_key(&[0x01, 0, 0, 0, 0, 0, 0, 0]), [1, 0x80, 1, 1, 1, 1, 1, 1]);
    assert_eq!(make_key(&[0, 0, 0, 0, 0, 0, 1, 0xFF]), [1, 1, 1, 1, 1, 1, 1, 0x02]);
    for seed in 0u8..=255 {
        let input: Vec<u8> = (0u8..8).map(|i| seed.wrapping_mul(31).wrapping_add(i.wrapping_mul(77))).collect();
        for byte in make_key(&input) {
            assert_eq!(byte.count_ones() % 2, 1);
        }
    }
}

#[test]
fn ones_are_counted() {
    for b in 0u8..=255 {
        assert_eq!(u32::from(count_ones(b)), b.count_ones());
    }
}

#[test]
fn proof_is_written_in_capitals() {
    let mut digest = [0u8; 20];
    digest[0] = 0xab;
    digest[19] = 0x0f;
    assert_eq!(format_authenticator(&digest), "S=AB0000000000000000000000000000000000000F");
}

#[test]
fn cipher_blocks_are_joined_in_order() {
    let joined = join_blocks(&[1; 8], &[2; 8], &[3; 8]);
    assert_eq!(&joined[..8], &[1; 8]);
    assert_eq!(&joined[8..16], &[2; 8]);
    assert_eq!(&joined[16..], &[3; 8]);
}
