use sha2::{Digest, Sha256};
use sstp_proto::addr::Ipv4Addr;
use sstp_proto::chap::{generate_authenticator_response, generate_nt_response};
use sstp_proto::chap_fsm;
use sstp_proto::cmac::{compound_mac, HashAlgo};
use sstp_proto::cp::{self, Opt};
use sstp_proto::engine::{wrap_data, Engine, EngineEvent};
use sstp_proto::lcp::CHAP_ALGORITHM_MSCHAPV2;
use sstp_proto::packet::{self, AttrType, MsgType, Packet};
use sstp_proto::ppp;

const USERNAME: &str = "test.user";
const PASSWORD: &str = "test-password-not-real";
const FAKE_CERT_DER: &[u8] = b"totally-not-a-real-certificate-just-test-bytes";

fn extract_send(events: &[EngineEvent]) -> Vec<&[u8]> {
    events.iter().filter_map(|e| if let EngineEvent::Send(b) = e { Some(b.as_slice()) } else { None }).collect()
}

fn unwrap_ppp(sstp_data_pkt: &[u8]) -> (ppp::Protocol, Vec<u8>) {
    let pkt = packet::decode(sstp_data_pkt).unwrap();
    let Packet::Data(ppp_frame) = pkt else { panic!("expected a Data packet") };
    let (proto, payload) = ppp::decode(&ppp_frame).unwrap();
    (proto, payload.to_vec())
}

#[test]
fn full_handshake_reaches_established_with_correct_crypto_bind() {
    let mut engine = Engine::new(USERNAME, PASSWORD, FAKE_CERT_DER);
    let connect_req = engine.start();
    assert!(matches!(packet::decode(&connect_req).unwrap(), Packet::Ctrl { msg_type: MsgType::ConnectRequest, .. }));

    let mut crypto_bind_req_data = vec![0u8, 0, 0, 0x02];
    let server_nonce = [0x7Au8; 32];
    crypto_bind_req_data.extend_from_slice(&server_nonce);
    let connect_ack = packet::encode_ctrl(MsgType::ConnectAck, &[(AttrType::CryptoBindRequest, &crypto_bind_req_data)]);
    let events = engine.on_packet(packet::decode(&connect_ack).unwrap());
    let sends = extract_send(&events);
    assert_eq!(sends.len(), 1);
    let (proto, lcp_payload) = unwrap_ppp(sends[0]);
    assert_eq!(proto, ppp::Protocol::Lcp);
    let our_lcp_req = cp::decode(&lcp_payload).unwrap();
    assert_eq!(our_lcp_req.code, cp::Code::ConfigureRequest);
    let our_opts = cp::decode_options(&our_lcp_req.data);
    let reject = cp::encode(cp::Code::ConfigureReject, our_lcp_req.id, &cp::encode_options(&our_opts[1..]));
    let events = engine.on_packet(packet::decode(&wrap_data(ppp::Protocol::Lcp, &reject)).unwrap());
    let sends = extract_send(&events);
    assert_eq!(sends.len(), 1);
    let (_, second_req_payload) = unwrap_ppp(sends[0]);
    let second_req = cp::decode(&second_req_payload).unwrap();
    let ack = cp::encode(cp::Code::ConfigureAck, second_req.id, &second_req.data);
    engine.on_packet(packet::decode(&wrap_data(ppp::Protocol::Lcp, &ack)).unwrap());
    let server_lcp_req = cp::encode(
        cp::Code::ConfigureRequest,
        1,
        &cp::encode_options(&[Opt::new(3, &[0xC2, 0x23, CHAP_ALGORITHM_MSCHAPV2]), Opt::new(5, &0xAABBCCDDu32.to_be_bytes())]),
    );
    let events = engine.on_packet(packet::decode(&wrap_data(ppp::Protocol::Lcp, &server_lcp_req)).unwrap());
    let sends = extract_send(&events);
    assert_eq!(sends.len(), 1, "must ack the server's LCP request, bringing LCP fully up");
    let (_, our_ack_payload) = unwrap_ppp(sends[0]);
    assert_eq!(cp::decode(&our_ack_payload).unwrap().code, cp::Code::ConfigureAck);
    let auth_challenge = [0x11u8; 16];
    let challenge_data = {
        let mut d = vec![16u8];
        d.extend_from_slice(&auth_challenge);
        d.extend_from_slice(b"VPN-NEW");
        d
    };
    let challenge = chap_fsm::encode(chap_fsm::Code::Challenge, 1, &challenge_data);
    let events = engine.on_packet(packet::decode(&wrap_data(ppp::Protocol::Chap, &challenge)).unwrap());
    let sends = extract_send(&events);
    assert_eq!(sends.len(), 1);
    let (proto, response_payload) = unwrap_ppp(sends[0]);
    assert_eq!(proto, ppp::Protocol::Chap);
    let response_frame = chap_fsm::decode(&response_payload).unwrap();
    assert_eq!(response_frame.code, chap_fsm::Code::Response);
    let peer_challenge: [u8; 16] = response_frame.data[1..17].try_into().unwrap();
    let nt_response = generate_nt_response(&auth_challenge, &peer_challenge, USERNAME, PASSWORD);
    let genuine_auth_response = generate_authenticator_response(PASSWORD, &nt_response, &peer_challenge, &auth_challenge, USERNAME);
    let success = chap_fsm::encode(chap_fsm::Code::Success, response_frame.id, genuine_auth_response.as_bytes());
    let events = engine.on_packet(packet::decode(&wrap_data(ppp::Protocol::Chap, &success)).unwrap());
    let sends = extract_send(&events);
    assert_eq!(sends.len(), 1);
    let (proto, ipcp_req_payload) = unwrap_ppp(sends[0]);
    assert_eq!(proto, ppp::Protocol::Ipcp);
    let our_ipcp_req = cp::decode(&ipcp_req_payload).unwrap();
    let assigned_ip = Ipv4Addr::new(10, 100, 1, 21);
    let dns1 = Ipv4Addr::new(172, 19, 50, 203);
    let dns2 = Ipv4Addr::new(172, 19, 50, 204);
    let nak = cp::encode(
        cp::Code::ConfigureNak,
        our_ipcp_req.id,
        &cp::encode_options(&[Opt::new(3, &assigned_ip.octets()), Opt::new(129, &dns1.octets()), Opt::new(131, &dns2.octets())]),
    );
    let events = engine.on_packet(packet::decode(&wrap_data(ppp::Protocol::Ipcp, &nak)).unwrap());
    let sends = extract_send(&events);
    let (_, second_ipcp_payload) = unwrap_ppp(sends[0]);
    let second_ipcp_req = cp::decode(&second_ipcp_payload).unwrap();
    let ack = cp::encode(cp::Code::ConfigureAck, second_ipcp_req.id, &second_ipcp_req.data);
    let events = engine.on_packet(packet::decode(&wrap_data(ppp::Protocol::Ipcp, &ack)).unwrap());
    assert!(extract_send(&events).is_empty(), "nothing to send yet -- still waiting on the peer's own IPCP request");

    let peer_ip = Ipv4Addr::new(10, 100, 1, 250);
    let server_ipcp_req = cp::encode(cp::Code::ConfigureRequest, 1, &cp::encode_options(&[Opt::new(3, &peer_ip.octets())]));
    let events = engine.on_packet(packet::decode(&wrap_data(ppp::Protocol::Ipcp, &server_ipcp_req)).unwrap());
    let sends = extract_send(&events);
    assert_eq!(sends.len(), 2, "IPCP ack for the peer's request, then the CONNECTED crypto-bind message");
    let (_, ipcp_ack_payload) = unwrap_ppp(sends[0]);
    assert_eq!(cp::decode(&ipcp_ack_payload).unwrap().code, cp::Code::ConfigureAck);

    let connected_pkt = packet::decode(sends[1]).unwrap();
    let Packet::Ctrl { msg_type, attrs } = connected_pkt else { panic!("expected Ctrl") };
    assert_eq!(msg_type, MsgType::Connected);
    let crypto_bind = &attrs.iter().find(|a| a.attr_type == AttrType::CryptoBind).unwrap().data;
    assert_eq!(crypto_bind[3], 0x02, "must use SHA256 as the server's CONNECT_ACK requested");
    assert_eq!(&crypto_bind[4..36], &server_nonce[..]);

    let established = events.iter().find_map(|e| match e {
        EngineEvent::Established { negotiated, mppe_keys } => Some((negotiated, mppe_keys)),
        _ => None,
    });
    let (negotiated, mppe_keys) = established.expect("must emit Established once both LCP/CHAP/IPCP finished");
    assert_eq!(negotiated.local_ip, Some(assigned_ip));
    assert_eq!(negotiated.peer_ip, Some(peer_ip));
    assert_eq!(negotiated.dns1, Some(dns1));
    assert_eq!(negotiated.dns2, Some(dns2));
    let expected_cert_hash: [u8; 32] = Sha256::digest(FAKE_CERT_DER).into();
    let expected_mac = compound_mac(HashAlgo::Sha256, &mppe_keys.send_key, &mppe_keys.recv_key, &{
        let mut zeroed = crypto_bind.clone();
        zeroed[68..100].fill(0);
        let mut full = packet::encode_ctrl(MsgType::Connected, &[(AttrType::CryptoBind, &zeroed)]);
        full[80..112].fill(0);
        full
    });
    assert_eq!(&crypto_bind[36..68], &expected_cert_hash[..]);
    assert_eq!(&crypto_bind[68..100], &expected_mac[..]);
}

#[test]
fn connect_nak_is_fatal_with_reason() {
    let mut engine = Engine::new(USERNAME, PASSWORD, FAKE_CERT_DER);
    engine.start();
    let status_data = [0u8, 0, 0, 0, 0, 0, 0, 9];
    let nak = packet::encode_ctrl(MsgType::ConnectNak, &[(AttrType::StatusInfo, &status_data)]);
    let events = engine.on_packet(packet::decode(&nak).unwrap());
    assert!(matches!(events.as_slice(), [EngineEvent::Fatal(_)]));
}

#[test]
fn wrong_chap_success_message_is_rejected_as_possible_mitm() {
    let mut engine = Engine::new(USERNAME, PASSWORD, FAKE_CERT_DER);
    engine.start();
    let connect_ack = packet::encode_ctrl(MsgType::ConnectAck, &[(AttrType::CryptoBindRequest, &{
        let mut d = vec![0u8, 0, 0, 1];
        d.extend_from_slice(&[0u8; 32]);
        d
    })]);
    engine.on_packet(packet::decode(&connect_ack).unwrap());

    let server_lcp_req = cp::encode(cp::Code::ConfigureRequest, 1, &cp::encode_options(&[Opt::new(3, &[0xC2, 0x23, CHAP_ALGORITHM_MSCHAPV2])]));
    engine.on_packet(packet::decode(&wrap_data(ppp::Protocol::Lcp, &server_lcp_req)).unwrap());

    let auth_challenge = [0x33u8; 16];
    let challenge_data = {
        let mut d = vec![16u8];
        d.extend_from_slice(&auth_challenge);
        d.extend_from_slice(b"srv");
        d
    };
    let challenge = chap_fsm::encode(chap_fsm::Code::Challenge, 1, &challenge_data);
    engine.on_packet(packet::decode(&wrap_data(ppp::Protocol::Chap, &challenge)).unwrap());
    let bogus_success = chap_fsm::encode(chap_fsm::Code::Success, 1, b"S=0000000000000000000000000000000000000000");
    let events = engine.on_packet(packet::decode(&wrap_data(ppp::Protocol::Chap, &bogus_success)).unwrap());
    assert!(matches!(events.as_slice(), [EngineEvent::Fatal(msg)] if msg.contains("MITM")));
}

#[test]
fn chap_failure_is_reported_fatal() {
    let mut engine = Engine::new(USERNAME, PASSWORD, FAKE_CERT_DER);
    engine.start();
    let connect_ack = packet::encode_ctrl(MsgType::ConnectAck, &[(AttrType::CryptoBindRequest, &{
        let mut d = vec![0u8, 0, 0, 1];
        d.extend_from_slice(&[0u8; 32]);
        d
    })]);
    engine.on_packet(packet::decode(&connect_ack).unwrap());
    let server_lcp_req = cp::encode(cp::Code::ConfigureRequest, 1, &cp::encode_options(&[Opt::new(3, &[0xC2, 0x23, CHAP_ALGORITHM_MSCHAPV2])]));
    engine.on_packet(packet::decode(&wrap_data(ppp::Protocol::Lcp, &server_lcp_req)).unwrap());

    let challenge_data = {
        let mut d = vec![16u8];
        d.extend_from_slice(&[0u8; 16]);
        d.extend_from_slice(b"srv");
        d
    };
    let challenge = chap_fsm::encode(chap_fsm::Code::Challenge, 1, &challenge_data);
    engine.on_packet(packet::decode(&wrap_data(ppp::Protocol::Chap, &challenge)).unwrap());

    let failure = chap_fsm::encode(chap_fsm::Code::Failure, 1, b"E=691 R=0");
    let events = engine.on_packet(packet::decode(&wrap_data(ppp::Protocol::Chap, &failure)).unwrap());
    assert!(events.iter().any(|e| matches!(e, EngineEvent::Fatal(msg) if msg.contains("691"))));
}

#[test]
fn ip_data_frame_is_delivered_as_is() {
    let mut engine = Engine::new(USERNAME, PASSWORD, FAKE_CERT_DER);
    let ip_packet = vec![0x45, 0x00, 0x00, 0x14, 0xAA, 0xBB];
    let sstp_data = wrap_data(ppp::Protocol::Ip, &ip_packet);
    let events = engine.on_packet(packet::decode(&sstp_data).unwrap());
    assert!(matches!(events.as_slice(), [EngineEvent::DeliverIpPacket(p)] if p == &ip_packet));
}

#[test]
fn unknown_protocol_triggers_lcp_protocol_reject() {
    let mut engine = Engine::new(USERNAME, PASSWORD, FAKE_CERT_DER);
    let frame = ppp::encode(ppp::Protocol::Unknown(0x8281), &[0x01, 0x01, 0x00, 0x04]);
    let sstp_data = packet::encode_data(&frame);
    let events = engine.on_packet(packet::decode(&sstp_data).unwrap());
    let sends = extract_send(&events);
    assert_eq!(sends.len(), 1);
    let (proto, payload) = unwrap_ppp(sends[0]);
    assert_eq!(proto, ppp::Protocol::Lcp);
    let rej = cp::decode(&payload).unwrap();
    assert_eq!(rej.code, cp::Code::ProtocolReject);
    assert_eq!(rej.data, ppp::strip_address_control(&frame), "rejected-information starts at the Protocol field, not Address/Control");
}

#[test]
fn server_initiated_disconnect_is_acked_and_reported() {
    let mut engine = Engine::new(USERNAME, PASSWORD, FAKE_CERT_DER);
    let disconnect = packet::encode_ctrl(MsgType::Disconnect, &[]);
    let events = engine.on_packet(packet::decode(&disconnect).unwrap());
    let sends = extract_send(&events);
    assert_eq!(sends.len(), 1);
    assert!(matches!(packet::decode(sends[0]).unwrap(), Packet::Ctrl { msg_type: MsgType::DisconnectAck, .. }));
    assert!(events.iter().any(|e| matches!(e, EngineEvent::Disconnected)));
}

#[test]
fn echo_request_gets_a_reply() {
    let mut engine = Engine::new(USERNAME, PASSWORD, FAKE_CERT_DER);
    let echo = packet::encode_ctrl(MsgType::EchoRequest, &[]);
    let events = engine.on_packet(packet::decode(&echo).unwrap());
    let sends = extract_send(&events);
    assert_eq!(sends.len(), 1);
    assert!(matches!(packet::decode(sends[0]).unwrap(), Packet::Ctrl { msg_type: MsgType::EchoReply, .. }));
}

#[test]
fn debug_impl_never_prints_password() {
    let engine = Engine::new(USERNAME, "super-secret-password", FAKE_CERT_DER);
    let debug_str = engine.debug_text();
    assert!(!debug_str.contains("super-secret-password"));
}

fn texts(events: &[EngineEvent]) -> Vec<String> {
    events
        .iter()
        .map(|e| match e {
            EngineEvent::Send(_) => "send".to_string(),
            EngineEvent::Trace(s) => format!("trace {s}"),
            EngineEvent::DeliverIpPacket(_) => "deliver".to_string(),
            EngineEvent::Established { .. } => "established".to_string(),
            EngineEvent::Disconnected => "disconnected".to_string(),
            EngineEvent::Fatal(s) => format!("fatal {s}"),
        })
        .collect()
}

fn ack(hash: u8) -> Packet {
    let mut data = vec![0u8, 0, 0, hash];
    data.extend_from_slice(&[0x55; 32]);
    packet::decode(&packet::encode_ctrl(MsgType::ConnectAck, &[(AttrType::CryptoBindRequest, &data)])).unwrap()
}

fn data(proto: ppp::Protocol, payload: &[u8]) -> Packet {
    packet::decode(&wrap_data(proto, payload)).unwrap()
}

fn challenge_frame() -> Vec<u8> {
    let mut d = vec![16u8];
    d.extend_from_slice(&[0x11; 16]);
    chap_fsm::encode(chap_fsm::Code::Challenge, 1, &d)
}

fn genuine_success(own: [u8; 16]) -> Vec<u8> {
    let nt = generate_nt_response(&[0x11; 16], &own, USERNAME, PASSWORD);
    let proof = generate_authenticator_response(PASSWORD, &nt, &own, &[0x11; 16], USERNAME);
    chap_fsm::encode(chap_fsm::Code::Success, 1, proof.as_bytes())
}

#[test]
fn log_lines_of_a_handshake_are_exact() {
    let mut engine = Engine::with_magic(USERNAME, PASSWORD, FAKE_CERT_DER, 5);
    assert_eq!(texts(&engine.on_packet(ack(2))), ["trace CONNECT_ACK ok (hash=Sha256), starting LCP", "send"]);
    assert!(engine.on_packet(ack(2)).is_empty());
    let reply = cp::encode(cp::Code::ConfigureAck, 1, &[]);
    assert_eq!(
        texts(&engine.on_packet(data(ppp::Protocol::Lcp, &reply))),
        ["trace LCP recv ConfigureAck id=1 (0 option bytes)"]
    );
    let request = cp::encode(cp::Code::ConfigureRequest, 7, &[3, 5, 0xC2, 0x23, 0x81]);
    assert_eq!(
        texts(&engine.on_packet(data(ppp::Protocol::Lcp, &request))),
        ["trace LCP recv ConfigureRequest id=7 (5 option bytes)", "trace LCP send ConfigureAck id=7", "send"]
    );
    assert_eq!(engine.debug_text(), "Engine { username: \"test.user\", phase: Chap, .. }");
    let own = [9u8; 16];
    assert_eq!(
        texts(&engine.on_packet_with(data(ppp::Protocol::Chap, &challenge_frame()), &[], &own)),
        [
            "trace CHAP recv Challenge id=1 (17 data bytes)",
            "trace CHAP send Response id=1 for user=\"test.user\"",
            "send"
        ]
    );
    assert_eq!(
        texts(&engine.on_packet(data(ppp::Protocol::Chap, &genuine_success(own)))),
        ["trace CHAP recv Success id=1 (42 data bytes)", "trace CHAP success verified, starting IPCP", "send"]
    );
    let reply = cp::encode(cp::Code::ConfigureAck, 1, &[]);
    assert_eq!(
        texts(&engine.on_packet(data(ppp::Protocol::Ipcp, &reply))),
        ["trace IPCP recv ConfigureAck id=1 (0 option bytes)"]
    );
    let request = cp::encode(cp::Code::ConfigureRequest, 3, &[]);
    assert_eq!(
        texts(&engine.on_packet(data(ppp::Protocol::Ipcp, &request))),
        ["trace IPCP recv ConfigureRequest id=3 (0 option bytes)", "trace IPCP send ConfigureAck id=3", "send", "send", "established"]
    );
    assert_eq!(engine.debug_text(), "Engine { username: \"test.user\", phase: Established, .. }");
}

#[test]
fn a_server_that_skips_the_acknowledgement_is_refused_without_a_panic() {
    let mut engine = Engine::with_magic(USERNAME, PASSWORD, FAKE_CERT_DER, 5);
    let own = [9u8; 16];
    engine.on_packet_with(data(ppp::Protocol::Chap, &challenge_frame()), &[], &own);
    engine.on_packet(data(ppp::Protocol::Chap, &genuine_success(own)));
    engine.on_packet(data(ppp::Protocol::Ipcp, &cp::encode(cp::Code::ConfigureAck, 1, &[])));
    let events = engine.on_packet(data(ppp::Protocol::Ipcp, &cp::encode(cp::Code::ConfigureRequest, 3, &[])));
    assert_eq!(texts(&events), ["fatal PPP negotiation finished before the server accepted the connection"]);
}

#[test]
fn sha1_is_used_where_nothing_better_is_offered() {
    for (hash, line) in [(0u8, "Sha1"), (1, "Sha1"), (2, "Sha256"), (3, "Sha256"), (4, "Sha1")] {
        let mut engine = Engine::new(USERNAME, PASSWORD, FAKE_CERT_DER);
        let events = engine.on_packet(ack(hash));
        assert_eq!(texts(&events)[0], format!("trace CONNECT_ACK ok (hash={line}), starting LCP"));
    }
}

#[test]
fn bad_acknowledgements_are_fatal() {
    let mut engine = Engine::new(USERNAME, PASSWORD, FAKE_CERT_DER);
    let none = packet::decode(&packet::encode_ctrl(MsgType::ConnectAck, &[])).unwrap();
    assert_eq!(texts(&engine.on_packet(none)), ["fatal CONNECT_ACK is missing its crypto-bind-request attribute"]);
    let short = packet::decode(&packet::encode_ctrl(MsgType::ConnectAck, &[(AttrType::CryptoBindRequest, &[1; 12])])).unwrap();
    assert_eq!(texts(&engine.on_packet(short)), ["fatal crypto-bind-request attribute has the wrong length: 12"]);
    assert_eq!(engine.debug_text(), "Engine { username: \"test.user\", phase: WaitConnectAck, .. }");
}

#[test]
fn refusals_say_why() {
    let mut engine = Engine::new(USERNAME, PASSWORD, FAKE_CERT_DER);
    let nak = packet::decode(&packet::encode_ctrl(MsgType::ConnectNak, &[(AttrType::StatusInfo, &[0, 0, 0, 0, 0, 0, 0, 9])])).unwrap();
    assert_eq!(
        texts(&engine.on_packet(nak)),
        ["fatal server sent CONNECT_NAK: Attribute is invalid or not supported (code 9, attribute 0)"]
    );
    let abort = packet::decode(&packet::encode_ctrl(MsgType::Abort, &[])).unwrap();
    assert_eq!(texts(&engine.on_packet(abort)), ["fatal server aborted the connection: no status info given"]);
}

#[test]
fn a_link_without_authentication_is_refused() {
    let mut engine = Engine::new(USERNAME, PASSWORD, FAKE_CERT_DER);
    engine.on_packet(ack(2));
    engine.on_packet(data(ppp::Protocol::Lcp, &cp::encode(cp::Code::ConfigureAck, 1, &[])));
    let events = engine.on_packet(data(ppp::Protocol::Lcp, &cp::encode(cp::Code::ConfigureRequest, 1, &[])));
    assert_eq!(
        texts(&events),
        ["fatal server did not request PPP authentication; refusing to continue without it"]
    );
}

#[test]
fn an_authentication_that_was_not_accepted_does_not_count() {
    let mut engine = Engine::new(USERNAME, PASSWORD, FAKE_CERT_DER);
    engine.on_packet(ack(2));
    engine.on_packet(data(ppp::Protocol::Lcp, &cp::encode(cp::Code::ConfigureAck, 1, &[])));
    let rejected = cp::encode(cp::Code::ConfigureRequest, 1, &[3, 5, 0xC2, 0x23, 0x81, 200, 3, 1]);
    assert_eq!(extract_send(&engine.on_packet(data(ppp::Protocol::Lcp, &rejected))).len(), 1);
    let events = engine.on_packet(data(ppp::Protocol::Lcp, &cp::encode(cp::Code::ConfigureRequest, 2, &[])));
    assert_eq!(
        texts(&events),
        ["fatal server did not request PPP authentication; refusing to continue without it"]
    );
}

#[test]
fn malformed_authentication_is_fatal() {
    let mut engine = Engine::new(USERNAME, PASSWORD, FAKE_CERT_DER);
    let chap = |e: &mut Engine, payload: &[u8]| texts(&e.on_packet(data(ppp::Protocol::Chap, payload)));
    assert_eq!(chap(&mut engine, &[1]), ["fatal malformed CHAP frame"]);
    assert_eq!(chap(&mut engine, &chap_fsm::encode(chap_fsm::Code::Challenge, 1, &[])), ["fatal malformed CHAP challenge"]);
    assert_eq!(
        chap(&mut engine, &chap_fsm::encode(chap_fsm::Code::Challenge, 1, &[2, 0, 0])),
        ["fatal CHAP challenge value must be 16 bytes, got 2"]
    );
    assert_eq!(
        chap(&mut engine, &chap_fsm::encode(chap_fsm::Code::Success, 1, b"S=00")),
        ["fatal received CHAP success with no pending response to verify it against"]
    );
    assert_eq!(
        chap(&mut engine, &chap_fsm::encode(chap_fsm::Code::Response, 4, &[])),
        ["trace CHAP recv Response id=4 (0 data bytes)", "fatal unexpected CHAP code from server: Response"]
    );
    assert_eq!(
        chap(&mut engine, &chap_fsm::encode(chap_fsm::Code::Unknown(12), 4, &[])),
        ["trace CHAP recv Unknown(12) id=4 (0 data bytes)", "fatal unexpected CHAP code from server: Unknown(12)"]
    );
    assert_eq!(
        chap(&mut engine, &chap_fsm::encode(chap_fsm::Code::Failure, 4, b"E=691")),
        ["trace CHAP recv Failure id=4 (5 data bytes)", "fatal CHAP authentication failed: E=691"]
    );
}

#[test]
fn a_forged_proof_is_quoted_and_uses_up_the_response() {
    let mut engine = Engine::new(USERNAME, PASSWORD, FAKE_CERT_DER);
    engine.on_packet(data(ppp::Protocol::Chap, &challenge_frame()));
    let forged = chap_fsm::encode(chap_fsm::Code::Success, 1, b"S=\"0\"");
    assert_eq!(
        texts(&engine.on_packet(data(ppp::Protocol::Chap, &forged))),
        ["fatal server's CHAP authenticator response did not verify -- it may not actually know our password (possible MITM); server said: \"S=\\\"0\\\"\"; aborting"]
    );
    assert_eq!(
        texts(&engine.on_packet(data(ppp::Protocol::Chap, &forged))),
        ["fatal received CHAP success with no pending response to verify it against"]
    );
}

#[test]
fn genuine_proof_is_accepted_with_fields_behind_it() {
    let mut engine = Engine::new(USERNAME, PASSWORD, FAKE_CERT_DER);
    let own = [4u8; 16];
    engine.on_packet_with(data(ppp::Protocol::Chap, &challenge_frame()), &[], &own);
    let mut success = genuine_success(own);
    success.extend_from_slice(b" M=Welcome");
    let total = success.len() as u16;
    success[2..4].copy_from_slice(&total.to_be_bytes());
    let events = engine.on_packet(data(ppp::Protocol::Chap, &success));
    assert_eq!(texts(&events)[1], "trace CHAP success verified, starting IPCP");
}

#[test]
fn a_judged_proof_is_concluded() {
    let mut engine = Engine::new("u", "p", b"");
    assert!(texts(&engine.conclude_chap(Err("\"x\"".to_string())))[0].ends_with("server said: \"x\"; aborting"));
    assert_eq!(engine.debug_text(), "Engine { username: \"u\", phase: WaitConnectAck, .. }");
    let keys = sstp_proto::mppe::MppeKeys { send_key: [1; 16], recv_key: [2; 16] };
    assert_eq!(texts(&engine.conclude_chap(Ok(keys))), ["trace CHAP success verified, starting IPCP", "send"]);
    assert_eq!(engine.debug_text(), "Engine { username: \"u\", phase: Ipcp, .. }");
}

#[test]
fn looped_magic_numbers_are_answered_with_the_given_ones() {
    let mut engine = Engine::with_magic(USERNAME, PASSWORD, FAKE_CERT_DER, 5);
    let request = data(ppp::Protocol::Lcp, &cp::encode(cp::Code::ConfigureRequest, 7, &[5, 6, 0, 0, 0, 5]));
    assert_eq!(engine.draws_needed(&request), 1);
    let events = engine.on_packet_with(request, &[0x0A0B_0C0D], &[0; 16]);
    let (_, payload) = unwrap_ppp(extract_send(&events)[0]);
    assert_eq!(payload, cp::encode(cp::Code::ConfigureNak, 7, &[5, 6, 10, 11, 12, 13]));
}

#[test]
fn frames_too_short_for_a_protocol_are_ignored() {
    let mut engine = Engine::new(USERNAME, PASSWORD, FAKE_CERT_DER);
    assert!(engine.on_packet(Packet::Data(vec![0xFF])).is_empty());
    assert_eq!(
        texts(&engine.on_packet(data(ppp::Protocol::Lcp, &[1, 2]))),
        ["trace LCP recv malformed frame (2 bytes)"]
    );
    assert!(engine.on_packet(data(ppp::Protocol::Ipcp, &[1, 2])).is_empty());
}

#[test]
fn messages_that_only_a_client_sends_are_ignored() {
    let mut engine = Engine::new(USERNAME, PASSWORD, FAKE_CERT_DER);
    for msg_type in [MsgType::ConnectRequest, MsgType::Connected, MsgType::EchoReply, MsgType::Unknown(77)] {
        assert!(engine.on_packet(Packet::Ctrl { msg_type, attrs: vec![] }).is_empty());
    }
    let events = engine.on_packet(Packet::Ctrl { msg_type: MsgType::DisconnectAck, attrs: vec![] });
    assert_eq!(texts(&events), ["disconnected"]);
}

#[test]
fn own_messages_are_exact() {
    let engine = Engine::new(USERNAME, PASSWORD, FAKE_CERT_DER);
    assert_eq!(engine.start(), vec![0x10, 1, 0, 14, 0, 1, 0, 1, 0, 1, 0, 6, 0, 1]);
    assert_eq!(engine.build_disconnect(), vec![0x10, 1, 0, 8, 0, 6, 0, 0]);
    assert_eq!(engine.build_echo_request(), vec![0x10, 1, 0, 8, 0, 8, 0, 0]);
}

#[test]
fn the_certificate_is_bound_under_sha1_too() {
    let mut engine = Engine::with_magic(USERNAME, PASSWORD, FAKE_CERT_DER, 5);
    engine.on_packet(ack(1));
    let own = [9u8; 16];
    engine.on_packet_with(data(ppp::Protocol::Chap, &challenge_frame()), &[], &own);
    engine.on_packet(data(ppp::Protocol::Chap, &genuine_success(own)));
    engine.on_packet(data(ppp::Protocol::Ipcp, &cp::encode(cp::Code::ConfigureAck, 1, &[])));
    let events = engine.on_packet(data(ppp::Protocol::Ipcp, &cp::encode(cp::Code::ConfigureRequest, 3, &[])));
    let connected = extract_send(&events)[1].to_vec();
    assert_eq!(connected[15], 1);
    assert_eq!(&connected[16..48], &[0x55; 32]);
    assert_eq!(&connected[48..68], &sha1::Sha1::digest(FAKE_CERT_DER)[..]);
    assert_eq!(&connected[68..80], &[0; 12]);
    assert_eq!(&connected[100..112], &[0; 12]);
    let nt = generate_nt_response(&[0x11; 16], &own, USERNAME, PASSWORD);
    let keys = sstp_proto::mppe::mppe_get_keys(PASSWORD, &nt, false);
    let mut blank = connected.clone();
    for byte in &mut blank[80..112] {
        *byte = 0;
    }
    assert_eq!(&connected[80..100], &compound_mac(HashAlgo::Sha1, &keys.send_key, &keys.recv_key, &blank)[..]);
}
