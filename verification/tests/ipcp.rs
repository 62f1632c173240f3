use sstp_proto::addr::Ipv4Addr;
use sstp_proto::cp::{self, Opt};
use sstp_proto::ipcp::{ip_opt, Ipcp, OPT_IP_ADDRESS, OPT_PRIMARY_DNS, OPT_SECONDARY_DNS};

#[test]
fn start_requests_unspecified_address_and_dns() {
    let mut ipcp = Ipcp::new();
    let wire = ipcp.start();
    let frame = cp::decode(&wire).unwrap();
    let opts = cp::decode_options(&frame.data);
    assert_eq!(opts.len(), 3);
    for opt in &opts {
        assert_eq!(opt.data, [0, 0, 0, 0]);
    }
}

#[test]
fn reproduces_captured_address_and_dns_nak_then_ack_flow() {
    let mut ipcp = Ipcp::new();
    let first_req = ipcp.start();
    let first_id = cp::decode(&first_req).unwrap().id;

    let assigned_ip = Ipv4Addr::new(10, 100, 1, 21);
    let dns1 = Ipv4Addr::new(172, 19, 50, 203);
    let dns2 = Ipv4Addr::new(172, 19, 50, 204);
    let nak = cp::encode(
        cp::Code::ConfigureNak,
        first_id,
        &cp::encode_options(&[ip_opt(OPT_IP_ADDRESS, assigned_ip), ip_opt(OPT_PRIMARY_DNS, dns1), ip_opt(OPT_SECONDARY_DNS, dns2)]),
    );
    let result = ipcp.receive(&nak);
    assert_eq!(result.to_send.len(), 1);
    let second_req = cp::decode(&result.to_send[0]).unwrap();

    let ack = cp::encode(cp::Code::ConfigureAck, second_req.id, &second_req.data);
    let ack_result = ipcp.receive(&ack);
    assert!(!ack_result.up, "local side is up, but peer hasn't sent its own request yet");

    let negotiated = ipcp.negotiated();
    assert_eq!(negotiated.local_ip, Some(assigned_ip));
    assert_eq!(negotiated.dns1, Some(dns1));
    assert_eq!(negotiated.dns2, Some(dns2));
}

#[test]
fn peer_confreq_with_its_address_is_acked_and_captured() {
    let mut ipcp = Ipcp::new();
    ipcp.start();

    let peer_ip = Ipv4Addr::new(10, 100, 1, 250);
    let peer_req = cp::encode(cp::Code::ConfigureRequest, 1, &cp::encode_options(&[ip_opt(OPT_IP_ADDRESS, peer_ip)]));
    let result = ipcp.receive(&peer_req);
    let reply = cp::decode(&result.to_send[0]).unwrap();
    assert_eq!(reply.code, cp::Code::ConfigureAck);
    assert_eq!(ipcp.negotiated().peer_ip, Some(peer_ip));
}

#[test]
fn ipcp_up_only_once_both_directions_configured() {
    let mut ipcp = Ipcp::new();
    let first_req = ipcp.start();
    let first_id = cp::decode(&first_req).unwrap().id;

    let ack = cp::encode(cp::Code::ConfigureAck, first_id, &cp::decode(&first_req).unwrap().data);
    let r1 = ipcp.receive(&ack);
    assert!(!r1.up);

    let peer_req = cp::encode(cp::Code::ConfigureRequest, 1, &cp::encode_options(&[ip_opt(OPT_IP_ADDRESS, Ipv4Addr::new(10, 0, 0, 1))]));
    let r2 = ipcp.receive(&peer_req);
    assert!(r2.up);
    assert!(ipcp.is_up());
}

#[test]
fn unknown_option_in_peer_request_is_rejected() {
    let mut ipcp = Ipcp::new();
    ipcp.start();
    let peer_req = cp::encode(cp::Code::ConfigureRequest, 1, &cp::encode_options(&[Opt::new(2, &[0x0f, 0x01])]));
    let result = ipcp.receive(&peer_req);
    let reply = cp::decode(&result.to_send[0]).unwrap();
    assert_eq!(reply.code, cp::Code::ConfigureReject);
}

#[test]
fn first_address_proposal_is_exact() {
    let mut ipcp = Ipcp::default();
    assert_eq!(
        ipcp.start(),
        vec![1, 1, 0, 22, 3, 6, 0, 0, 0, 0, 129, 6, 0, 0, 0, 0, 131, 6, 0, 0, 0, 0]
    );
}

#[test]
fn addresses_are_known_on_acceptance_only() {
    let mut ipcp = Ipcp::new();
    ipcp.start();
    let nak = cp::encode(cp::Code::ConfigureNak, 1, &cp::encode_options(&[ip_opt(OPT_IP_ADDRESS, Ipv4Addr::new(1, 2, 3, 4))]));
    ipcp.receive(&nak);
    assert_eq!(ipcp.negotiated().local_ip, None);
    ipcp.receive(&cp::encode(cp::Code::ConfigureAck, 1, &[]));
    assert_eq!(ipcp.negotiated().local_ip, None);
    ipcp.receive(&cp::encode(cp::Code::ConfigureAck, 2, &[]));
    assert_eq!(ipcp.negotiated().local_ip, Some(Ipv4Addr::new(1, 2, 3, 4)));
    assert_eq!(ipcp.negotiated().dns1, Some(Ipv4Addr::new(0, 0, 0, 0)));
    assert_eq!(ipcp.negotiated().peer_ip, None);
}

#[test]
fn rejected_name_server_is_not_asked_for_again() {
    let mut ipcp = Ipcp::new();
    ipcp.start();
    let result = ipcp.receive(&cp::encode(cp::Code::ConfigureReject, 1, &[131, 2]));
    let again = cp::decode(&result.to_send[0]).unwrap();
    let kinds: Vec<u8> = cp::decode_options(&again.data).iter().map(|o| o.kind).collect();
    assert_eq!(kinds, vec![OPT_IP_ADDRESS, OPT_PRIMARY_DNS]);
    assert_eq!(again.id, 2);
    ipcp.receive(&cp::encode(cp::Code::ConfigureAck, 2, &[]));
    assert_eq!(ipcp.negotiated().dns2, None);
}

#[test]
fn malformed_peer_address_is_rejected_and_the_last_good_one_kept() {
    let mut ipcp = Ipcp::new();
    let good = ip_opt(OPT_IP_ADDRESS, Ipv4Addr::new(10, 0, 0, 9));
    let request = cp::encode(cp::Code::ConfigureRequest, 5, &cp::encode_options(&[good, Opt::new(OPT_IP_ADDRESS, &[1, 2])]));
    let result = ipcp.receive(&request);
    assert_eq!(result.to_send, vec![cp::encode(cp::Code::ConfigureReject, 5, &[3, 4, 1, 2])]);
    assert_eq!(ipcp.negotiated().peer_ip, Some(Ipv4Addr::new(10, 0, 0, 9)));
}

#[test]
fn suggested_value_of_a_wrong_length_is_sent_but_never_taken_for_an_address() {
    let mut ipcp = Ipcp::new();
    ipcp.start();
    ipcp.receive(&cp::encode(cp::Code::ConfigureNak, 1, &[3, 3, 7]));
    ipcp.receive(&cp::encode(cp::Code::ConfigureAck, 2, &[]));
    assert_eq!(ipcp.negotiated().local_ip, None);
    assert_eq!(ipcp.negotiated().dns1, Some(Ipv4Addr::unspecified()));
}

#[test]
fn terminate_closes_the_addresses() {
    let mut ipcp = Ipcp::new();
    ipcp.start();
    ipcp.receive(&cp::encode(cp::Code::ConfigureAck, 1, &[]));
    assert!(ipcp.receive(&cp::encode(cp::Code::ConfigureRequest, 1, &[])).up);
    let result = ipcp.receive(&cp::encode(cp::Code::TerminateRequest, 8, &[1]));
    assert_eq!(result.to_send, vec![vec![6, 8, 0, 4]]);
    assert!(!result.up);
}

#[test]
fn an_echo_means_nothing_to_addresses() {
    let mut ipcp = Ipcp::new();
    assert!(ipcp.receive(&cp::encode(cp::Code::EchoRequest, 1, &[])).to_send.is_empty());
    assert!(ipcp.receive(&[]).to_send.is_empty());
}

#[test]
fn addresses_are_written_dotted() {
    assert_eq!(Ipv4Addr::new(172, 19, 50, 203).to_text(), "172.19.50.203");
    assert_eq!(Ipv4Addr::unspecified().to_text(), "0.0.0.0");
    assert_eq!(Ipv4Addr::new(9, 10, 99, 100).octets(), [9, 10, 99, 100]);
}
