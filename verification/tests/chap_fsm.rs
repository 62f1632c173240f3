use sstp_proto::chap::generate_authenticator_response;
use sstp_proto::chap_fsm::{
    build_response, build_response_with, decode, encode, parse_challenge, proves, verify_success,
    ChallengeInfo, Code, Frame, ResponseError,
};

fn sample_challenge() -> ChallengeInfo {
    ChallengeInfo { id: 1, value: vec![0xAAu8; 16], name: "VPN-SERVER".to_string() }
}

#[test]
fn challenge_frame_round_trips() {
    let wire = encode(Code::Challenge, 1, &{
        let mut d = vec![16u8];
        d.extend_from_slice(&[0xAA; 16]);
        d.extend_from_slice(b"VPN-SERVER");
        d
    });
    let frame = decode(&wire).unwrap();
    assert_eq!(frame.code, Code::Challenge);
    let info = parse_challenge(&frame).unwrap();
    assert_eq!(info.value, vec![0xAA; 16]);
    assert_eq!(info.name, "VPN-SERVER");
}

#[test]
fn build_response_has_rfc2759_shape_and_matching_id() {
    let challenge = sample_challenge();
    let (wire, pending) = build_response(&challenge, "testuser", "hunter2").unwrap();
    let frame = decode(&wire).unwrap();
    assert_eq!(frame.code, Code::Response);
    assert_eq!(frame.id, challenge.id, "response id must match the challenge's");

    assert_eq!(frame.data[0], 49, "MS-CHAPv2 value-size is always 49");
    let value = &frame.data[1..50];
    assert_eq!(&value[0..16], &pending.peer_challenge, "value starts with the peer challenge");
    assert_eq!(&value[16..24], &[0u8; 8], "reserved field must be zero");
    assert_eq!(&value[24..48], &pending.nt_response, "value contains the nt-response");
    assert_eq!(value[48], 0, "flags byte must be zero");

    let name = &frame.data[50..];
    assert_eq!(name, b"testuser");
}

#[test]
fn rejects_challenge_with_wrong_value_length() {
    let bad = ChallengeInfo { id: 1, value: vec![0u8; 8], name: "x".to_string() };
    let result = build_response(&bad, "u", "p");
    assert!(matches!(result, Err(ResponseError::BadChallengeLength(8))));
}

#[test]
fn verify_success_accepts_correctly_derived_authenticator_response() {
    let auth_challenge = [0x11u8; 16];
    let challenge = ChallengeInfo { id: 1, value: auth_challenge.to_vec(), name: "srv".to_string() };
    let (_, pending) = build_response(&challenge, "user", "pw").unwrap();

    let expected = generate_authenticator_response("pw", &pending.nt_response, &pending.peer_challenge, &auth_challenge, "user");
    assert!(verify_success(expected.as_bytes(), "pw", &pending, &auth_challenge, "user"));
    let with_suffix = format!("{expected} M=Login OK");
    assert!(verify_success(with_suffix.as_bytes(), "pw", &pending, &auth_challenge, "user"));
}

#[test]
fn verify_success_rejects_wrong_or_forged_response() {
    let auth_challenge = [0x22u8; 16];
    let challenge = ChallengeInfo { id: 1, value: auth_challenge.to_vec(), name: "srv".to_string() };
    let (_, pending) = build_response(&challenge, "user", "correct-password").unwrap();
    let forged = "S=0000000000000000000000000000000000000000";
    assert!(!verify_success(forged.as_bytes(), "correct-password", &pending, &auth_challenge, "user"));
}

#[test]
fn response_under_a_given_challenge_is_exact() {
    let challenge = ChallengeInfo {
        id: 9,
        value: vec![0x5B, 0x5D, 0x7C, 0x7D, 0x7B, 0x3F, 0x2F, 0x3E, 0x3C, 0x2C, 0x60, 0x21, 0x32, 0x26, 0x26, 0x28],
        name: String::new(),
    };
    let own = [0x21, 0x40, 0x23, 0x24, 0x25, 0x5E, 0x26, 0x2A, 0x28, 0x29, 0x5F, 0x2B, 0x3A, 0x33, 0x7C, 0x7E];
    let (wire, pending) = build_response_with(&challenge, "User", "clientPass", &own).unwrap();
    assert_eq!(&wire[..5], &[2, 9, 0, 58, 49]);
    assert_eq!(&wire[5..21], &own);
    assert_eq!(&wire[21..29], &[0; 8]);
    assert_eq!(&wire[29..35], &[0x82, 0x30, 0x9E, 0xCD, 0x8D, 0x70]);
    assert_eq!(wire[53], 0);
    assert_eq!(&wire[54..], b"User");
    assert_eq!(pending.peer_challenge, own);
    assert_eq!(pending.nt_response[..], wire[29..53]);
}

#[test]
fn own_challenges_are_random() {
    let challenge = sample_challenge();
    let (_, first) = build_response(&challenge, "u", "p").unwrap();
    assert!((0..8).any(|_| build_response(&challenge, "u", "p").unwrap().1.peer_challenge != first.peer_challenge));
}

#[test]
fn malformed_challenges_are_none() {
    let frame = |data: Vec<u8>| Frame { code: Code::Challenge, id: 1, data };
    assert_eq!(parse_challenge(&frame(vec![])), None);
    assert_eq!(parse_challenge(&frame(vec![3, 1, 2])), None);
    let info = parse_challenge(&frame(vec![0])).unwrap();
    assert_eq!(info, ChallengeInfo { id: 1, value: vec![], name: String::new() });
}

#[test]
fn challenge_names_are_read_as_text() {
    let info = parse_challenge(&Frame { code: Code::Challenge, id: 2, data: vec![1, 7, 0xD0, 0x96, 0xFF] }).unwrap();
    assert_eq!(info.name, "Ж\u{FFFD}");
}

#[test]
fn short_frames_are_none() {
    assert_eq!(decode(&[1, 2, 0]), None);
    assert_eq!(decode(&[1, 2, 0, 3]), None);
    assert_eq!(decode(&[1, 2, 0, 6, 1]), None);
    assert_eq!(decode(&[9, 2, 0, 4]).unwrap().code, Code::Unknown(9));
}

#[test]
fn proofs_are_compared_word_by_word() {
    assert!(proves("s=ab", "S=AB"));
    assert!(proves("  S=AB\tM=ok", "S=AB"));
    assert!(proves("\u{2003}S=AB\u{3000}x", "S=AB"));
    assert!(!proves("S=ABC", "S=AB"));
    assert!(!proves("S=A", "S=AB"));
    assert!(!proves("x S=AB", "S=AB"));
    assert!(!proves("", "S=AB"));
    assert!(!proves(" \n", "S=AB"));
    assert!(!proves("S=\u{212A}", "S=K"));
}

#[test]
fn proof_with_bytes_that_are_no_text_behind_it_is_accepted() {
    let challenge = sample_challenge();
    let (_, pending) = build_response(&challenge, "user", "pw").unwrap();
    let expected = generate_authenticator_response("pw", &pending.nt_response, &pending.peer_challenge, &[0xAA; 16], "user");
    let mut data = expected.to_lowercase().into_bytes();
    data.extend_from_slice(b" M=\xff");
    assert!(verify_success(&data, "pw", &pending, &[0xAA; 16], "user"));
    assert!(!verify_success(&data, "pw2", &pending, &[0xAA; 16], "user"));
    assert!(!verify_success(b"", "pw", &pending, &[0xAA; 16], "user"));
}
