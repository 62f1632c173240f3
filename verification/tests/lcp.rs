use sstp_proto::cp::{self, Opt};
use sstp_proto::lcp::{
    Lcp, CHAP_ALGORITHM_MSCHAPV2, OPT_ACFC, OPT_AUTH_PROTOCOL, OPT_MAGIC_NUMBER, OPT_PFC,
};

#[test]
fn start_sends_a_configure_request_with_magic_pfc_acfc() {
    let mut lcp = Lcp::new();
    let wire = lcp.start();
    let frame = cp::decode(&wire).unwrap();
    assert_eq!(frame.code, cp::Code::ConfigureRequest);
    let opts = cp::decode_options(&frame.data);
    let kinds: Vec<u8> = opts.iter().map(|o| o.kind).collect();
    assert!(kinds.contains(&OPT_MAGIC_NUMBER));
    assert!(kinds.contains(&OPT_PFC));
    assert!(kinds.contains(&OPT_ACFC));
}

#[test]
fn peer_confreq_with_supported_options_gets_acked_and_opens_remote() {
    let mut lcp = Lcp::new();
    lcp.start();

    let peer_req = cp::encode(
        cp::Code::ConfigureRequest,
        1,
        &cp::encode_options(&[Opt::new(OPT_AUTH_PROTOCOL, &[0xC2, 0x23, CHAP_ALGORITHM_MSCHAPV2]), Opt::new(OPT_MAGIC_NUMBER, &0xCCDA096Cu32.to_be_bytes())]),
    );
    let result = lcp.receive(&peer_req);

    assert_eq!(result.to_send.len(), 1);
    let reply = cp::decode(&result.to_send[0]).unwrap();
    assert_eq!(reply.code, cp::Code::ConfigureAck);
    assert_eq!(reply.id, 1);
    assert!(lcp.peer_auth_requirement().unwrap().is_mschapv2());
    assert!(!result.up, "remote is up but local isn't yet");
}

#[test]
fn both_directions_acking_brings_lcp_up() {
    let mut lcp = Lcp::new();
    let our_req = lcp.start();
    let our_id = cp::decode(&our_req).unwrap().id;
    let peer_ack = cp::encode(cp::Code::ConfigureAck, our_id, &cp::decode(&our_req).unwrap().data);
    let r1 = lcp.receive(&peer_ack);
    assert!(!r1.up, "only local side is up so far");
    let peer_req = cp::encode(cp::Code::ConfigureRequest, 5, &[]);
    let r2 = lcp.receive(&peer_req);
    assert!(r2.up, "both directions configured now");
}

#[test]
fn reproduces_captured_pfc_acfc_rejection_then_success() {
    let mut lcp = Lcp::new();
    let first_req = lcp.start();
    let first_id = cp::decode(&first_req).unwrap().id;

    let rejected = cp::encode(cp::Code::ConfigureReject, first_id, &cp::encode_options(&[Opt::new(OPT_PFC, &[]), Opt::new(OPT_ACFC, &[])]));
    let result = lcp.receive(&rejected);
    assert_eq!(result.to_send.len(), 1);
    let second_req = cp::decode(&result.to_send[0]).unwrap();
    assert_eq!(second_req.code, cp::Code::ConfigureRequest);
    let remaining_kinds: Vec<u8> = cp::decode_options(&second_req.data).iter().map(|o| o.kind).collect();
    assert_eq!(remaining_kinds, vec![OPT_MAGIC_NUMBER], "PFC/ACFC must be dropped after rejection");

    let ack = cp::encode(cp::Code::ConfigureAck, second_req.id, &second_req.data);
    let final_result = lcp.receive(&ack);
    assert!(!final_result.up, "local is up, but remote side hasn't sent its own request yet");
}

#[test]
fn magic_number_nak_adopts_suggested_value_and_resends() {
    let mut lcp = Lcp::new();
    let first_req = lcp.start();
    let first_id = cp::decode(&first_req).unwrap().id;

    let suggested: u32 = 0x1234_5678;
    let nak = cp::encode(cp::Code::ConfigureNak, first_id, &cp::encode_options(&[Opt::new(OPT_MAGIC_NUMBER, &suggested.to_be_bytes())]));
    let result = lcp.receive(&nak);
    let resend = cp::decode(&result.to_send[0]).unwrap();
    let opts = cp::decode_options(&resend.data);
    let magic_opt = opts.iter().find(|o| o.kind == OPT_MAGIC_NUMBER).unwrap();
    assert_eq!(magic_opt.data, suggested.to_be_bytes());
}

#[test]
fn unsupported_auth_protocol_is_naked_toward_mschapv2() {
    let mut lcp = Lcp::new();
    lcp.start();
    let peer_req = cp::encode(cp::Code::ConfigureRequest, 1, &cp::encode_options(&[Opt::new(OPT_AUTH_PROTOCOL, &[0xC2, 0x23, 0x05])]));
    let result = lcp.receive(&peer_req);
    let reply = cp::decode(&result.to_send[0]).unwrap();
    assert_eq!(reply.code, cp::Code::ConfigureNak);
    let opts = cp::decode_options(&reply.data);
    assert_eq!(opts[0].data, vec![0xC2, 0x23, CHAP_ALGORITHM_MSCHAPV2]);
    assert!(lcp.peer_auth_requirement().is_none(), "must not record an unaccepted auth proposal");
}

#[test]
fn unknown_option_is_rejected() {
    let mut lcp = Lcp::new();
    lcp.start();
    let peer_req = cp::encode(cp::Code::ConfigureRequest, 1, &cp::encode_options(&[Opt::new(200, &[0x01])]));
    let result = lcp.receive(&peer_req);
    let reply = cp::decode(&result.to_send[0]).unwrap();
    assert_eq!(reply.code, cp::Code::ConfigureReject);
}

#[test]
fn echo_request_gets_a_reply_with_our_magic() {
    let mut lcp = Lcp::new();
    lcp.start();
    let echo_req = cp::encode(cp::Code::EchoRequest, 9, &0xDEADBEEFu32.to_be_bytes());
    let result = lcp.receive(&echo_req);
    let reply = cp::decode(&result.to_send[0]).unwrap();
    assert_eq!(reply.code, cp::Code::EchoReply);
    assert_eq!(reply.id, 9);
    assert_eq!(reply.data.len(), 4);
}

#[test]
fn terminate_request_is_acked_and_closes_the_link() {
    let mut lcp = Lcp::new();
    lcp.start();
    let peer_req = cp::encode(cp::Code::ConfigureRequest, 1, &[]);
    lcp.receive(&peer_req);

    let term = cp::encode(cp::Code::TerminateRequest, 2, &[]);
    let result = lcp.receive(&term);
    let reply = cp::decode(&result.to_send[0]).unwrap();
    assert_eq!(reply.code, cp::Code::TerminateAck);
    assert!(!result.up);
    assert!(!lcp.is_up());
}

#[test]
fn protocol_reject_matches_captured_shape() {
    let mut lcp = Lcp::new();
    let rejected_payload: [u8; 6] = [0x82, 0x81, 0x01, 0x01, 0x00, 0x04];
    let wire = lcp.build_protocol_reject(&rejected_payload);
    let frame = cp::decode(&wire).unwrap();
    assert_eq!(frame.code, cp::Code::ProtocolReject);
    assert_eq!(frame.data, rejected_payload);
}

#[test]
fn first_proposal_is_exact() {
    let mut lcp = Lcp::with_magic(0x0102_0304);
    assert_eq!(lcp.start(), vec![1, 1, 0, 14, 5, 6, 1, 2, 3, 4, 7, 2, 8, 2]);
}

#[test]
fn looped_magic_number_gets_a_new_one_suggested() {
    let mut lcp = Lcp::with_magic(7);
    lcp.start();
    let options = cp::encode_options(&[Opt::new(OPT_MAGIC_NUMBER, &7u32.to_be_bytes()), Opt::new(OPT_MAGIC_NUMBER, &7u32.to_be_bytes())]);
    let request = cp::encode(cp::Code::ConfigureRequest, 3, &options);
    assert_eq!(lcp.draws_needed(&request), 2);
    let result = lcp.receive_with(&request, &[100, 200]);
    let reply = cp::decode(&result.to_send[0]).unwrap();
    assert_eq!(reply.code, cp::Code::ConfigureNak);
    assert_eq!(reply.id, 3);
    assert_eq!(
        cp::decode_options(&reply.data),
        vec![Opt::new(OPT_MAGIC_NUMBER, &100u32.to_be_bytes()), Opt::new(OPT_MAGIC_NUMBER, &200u32.to_be_bytes())]
    );
    assert!(!result.up);
}

#[test]
fn rejection_comes_before_a_suggestion() {
    let mut lcp = Lcp::with_magic(7);
    let options = cp::encode_options(&[Opt::new(OPT_AUTH_PROTOCOL, &[0xC0, 0x23]), Opt::new(OPT_MAGIC_NUMBER, &[1, 2])]);
    let result = lcp.receive(&cp::encode(cp::Code::ConfigureRequest, 4, &options));
    assert_eq!(result.to_send, vec![cp::encode(cp::Code::ConfigureReject, 4, &[5, 4, 1, 2])]);
}

#[test]
fn short_authentication_option_is_rejected() {
    let mut lcp = Lcp::with_magic(7);
    let result = lcp.receive(&cp::encode(cp::Code::ConfigureRequest, 4, &[3, 3, 0xC2]));
    assert_eq!(result.to_send, vec![cp::encode(cp::Code::ConfigureReject, 4, &[3, 3, 0xC2])]);
}

#[test]
fn unaccepted_authentication_is_not_recorded() {
    let mut lcp = Lcp::with_magic(7);
    lcp.start();
    let result = lcp.receive(&[1, 1, 0, 12, 3, 5, 0xC2, 0x23, 0x81, 200, 3, 1]);
    assert_eq!(result.to_send, vec![cp::encode(cp::Code::ConfigureReject, 1, &[200, 3, 1])]);
    assert!(lcp.peer_auth_requirement().is_none());
    assert!(!lcp.is_up());

    // The own magic number makes for a suggestion.
    let looped = cp::encode(cp::Code::ConfigureRequest, 2, &[3, 5, 0xC2, 0x23, 0x81, 5, 6, 0, 0, 0, 7]);
    let result = lcp.receive_with(&looped, &[8]);
    assert_eq!(result.to_send, vec![cp::encode(cp::Code::ConfigureNak, 2, &[5, 6, 0, 0, 0, 8])]);
    assert!(lcp.peer_auth_requirement().is_none());
}

#[test]
fn accepted_authentication_is_recorded_and_stays() {
    let mut lcp = Lcp::with_magic(7);
    lcp.receive(&cp::encode(cp::Code::ConfigureRequest, 4, &[3, 5, 0xC2, 0x23, 0x81]));
    assert!(lcp.peer_auth_requirement().unwrap().is_mschapv2());
    lcp.receive(&cp::encode(cp::Code::ConfigureRequest, 5, &[200, 3, 1]));
    assert!(lcp.peer_auth_requirement().unwrap().is_mschapv2());
}

#[test]
fn answers_to_an_older_proposal_are_ignored() {
    let mut lcp = Lcp::with_magic(7);
    lcp.start();
    lcp.receive(&cp::encode(cp::Code::ConfigureRequest, 1, &[]));
    for code in [cp::Code::ConfigureAck, cp::Code::ConfigureNak, cp::Code::ConfigureReject] {
        let result = lcp.receive(&cp::encode(code, 200, &[7, 2]));
        assert!(result.to_send.is_empty());
        assert!(!result.up);
    }
}

#[test]
fn an_answer_before_the_first_proposal_is_ignored() {
    let mut lcp = Lcp::with_magic(7);
    assert!(lcp.receive(&cp::encode(cp::Code::ConfigureAck, 0, &[])).to_send.is_empty());
    lcp.receive(&cp::encode(cp::Code::ConfigureRequest, 1, &[]));
    assert!(!lcp.is_up());
}

#[test]
fn echo_reply_keeps_what_follows_the_magic_number() {
    let mut lcp = Lcp::with_magic(0xAABB_CCDD);
    let result = lcp.receive(&cp::encode(cp::Code::EchoRequest, 9, &[1, 2, 3, 4, 5, 6]));
    assert_eq!(result.to_send, vec![cp::encode(cp::Code::EchoReply, 9, &[0xAA, 0xBB, 0xCC, 0xDD, 5, 6])]);
    let result = lcp.receive(&cp::encode(cp::Code::EchoRequest, 9, &[1]));
    assert_eq!(result.to_send, vec![cp::encode(cp::Code::EchoReply, 9, &[0xAA, 0xBB, 0xCC, 0xDD])]);
}

#[test]
fn adopted_magic_number_is_used_in_echoes() {
    let mut lcp = Lcp::with_magic(1);
    lcp.start();
    let options = cp::encode_options(&[Opt::new(OPT_MAGIC_NUMBER, &0x0506_0708u32.to_be_bytes())]);
    lcp.receive(&cp::encode(cp::Code::ConfigureNak, 1, &options));
    let result = lcp.receive(&cp::encode(cp::Code::EchoRequest, 2, &[0; 4]));
    assert_eq!(result.to_send, vec![cp::encode(cp::Code::EchoReply, 2, &[5, 6, 7, 8])]);
}

#[test]
fn identifiers_wrap_around() {
    let mut lcp = Lcp::with_magic(1);
    for _ in 0..255 {
        lcp.build_protocol_reject(&[]);
    }
    assert_eq!(lcp.build_protocol_reject(&[]), vec![8, 0, 0, 4]);
}

#[test]
fn junk_and_unused_codes_are_ignored() {
    let mut lcp = Lcp::with_magic(1);
    assert!(lcp.receive(&[1, 2]).to_send.is_empty());
    assert!(lcp.receive(&cp::encode(cp::Code::DiscardRequest, 1, &[])).to_send.is_empty());
    assert!(lcp.receive(&cp::encode(cp::Code::CodeReject, 1, &[])).to_send.is_empty());
}

#[test]
fn random_magic_numbers_are_not_all_the_same() {
    let first = Lcp::new().start();
    assert!((0..8).any(|_| Lcp::default().start() != first));
}
