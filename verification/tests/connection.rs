use sstp_proto::addr::Ipv4Addr;
use sstp_proto::connection::{
    final_event, host_of, steps_for, ConnectError, Event, Input, Session, Stage, Step, WriteKind,
};
use sstp_proto::engine::{wrap_data, Engine, EngineEvent};
use sstp_proto::http::ParseError;
use sstp_proto::ipcp::NegotiatedConfig;
use sstp_proto::mppe::MppeKeys;
use sstp_proto::packet::{encode_ctrl, encode_data, MsgType};
use sstp_proto::ppp::Protocol;
use sstp_proto::utun::UtunError;

fn shown(steps: &[Step]) -> Vec<String> {
    steps
        .iter()
        .map(|s| match s {
            Step::Write { bytes, kind } => format!("write {kind:?} {}", bytes.len()),
            Step::Progress(m) => format!("progress {m}"),
            Step::Deliver(p) => format!("deliver {p:?}"),
            Step::OpenTunnel { local, peer, .. } => format!("open {} {}", local.to_text(), peer.to_text()),
            Step::ResetIdle => "reset".to_string(),
            Step::Farewell(b) => format!("farewell {}", b.len()),
            Step::Close => "close".to_string(),
            Step::Fail(m) => format!("fail {m}"),
        })
        .collect()
}

fn fresh() -> Session {
    Session::with_engine(Engine::with_magic("user", "password", b"cert", 5))
}

fn running() -> Session {
    let mut s = fresh();
    s.on_input(Input::Received(b"HTTP/1.1 200\r\n\r\n".to_vec()));
    assert_eq!(s.stage(), Stage::Running);
    s
}

#[test]
fn hosts_lose_their_port() {
    assert_eq!(host_of("vpn.example.com:8443").unwrap(), "vpn.example.com");
    assert_eq!(host_of("vpn.example.com").unwrap(), "vpn.example.com");
    assert_eq!(host_of("a:b:443").unwrap(), "a:b");
    for bad in ["", ":443"] {
        match host_of(bad) {
            Err(ConnectError::InvalidServerName(s)) => assert_eq!(s, bad),
            _ => panic!("an address without a host was accepted"),
        }
    }
}

#[test]
fn connect_errors_have_their_words() {
    let text = |s: &str| s.to_string();
    assert_eq!(ConnectError::Tcp(text("h:1"), text("refused")).message(), "could not reach h:1: refused");
    assert_eq!(ConnectError::Tls(text("alert")).message(), "TLS handshake failed: alert");
    assert_eq!(ConnectError::NoCertificate.message(), "server presented no certificate");
    assert_eq!(ConnectError::InvalidServerName(text(":1")).message(), "invalid server address :1");
    assert_eq!(
        ConnectError::Utun(UtunError::Socket(text("denied"))).message(),
        "utun interface error: failed to open the utun control socket: denied"
    );
    assert_eq!(ConnectError::Protocol(text("anything")).message(), "anything");
}

#[test]
fn failed_writes_say_what_they_were_for() {
    for (kind, words) in [
        (WriteKind::HttpRequest, "could not send SSTP HTTP request: gone"),
        (WriteKind::ConnectRequest, "could not send CONNECT_REQ: gone"),
        (WriteKind::Data, "write failed: gone"),
        (WriteKind::Keepalive, "keepalive write failed: gone"),
    ] {
        assert_eq!(kind.failed("gone").message(), words);
    }
}

#[test]
fn the_last_event_tells_how_it_ended() {
    assert!(matches!(final_event(Ok(())), Event::Disconnected));
    match final_event(Err(ConnectError::NoCertificate)) {
        Event::Error(m) => assert_eq!(m, "server presented no certificate"),
        _ => panic!("a failure was reported as something else"),
    }
}

#[test]
fn a_session_opens_with_a_request_of_its_own() {
    let (session, steps) = Session::open("h:1", "user", "password", b"cert");
    assert_eq!(session.stage(), Stage::Handshake);
    assert_eq!(steps.len(), 1);
    let Step::Write { bytes, kind } = &steps[0] else { panic!("expected a write") };
    assert_eq!(*kind, WriteKind::HttpRequest);
    let text = String::from_utf8(bytes.clone()).unwrap();
    assert!(text.contains("Host: h:1\r\n"));
    let at = text.find("SSTPCORRELATIONID: {").unwrap() + 20;
    let id = &text[at..at + 36];
    assert!(text[at + 36..].starts_with("}\r\n\r\n"));
    for (i, c) in id.chars().enumerate() {
        match i {
            8 | 13 | 18 | 23 => assert_eq!(c, '-'),
            14 => assert_eq!(c, '4'),
            19 => assert!("89ab".contains(c)),
            _ => assert!("0123456789abcdef".contains(c)),
        }
    }
    let (_, other) = Session::open("h:1", "user", "password", b"cert");
    let Step::Write { bytes: other, .. } = &other[0] else { panic!("expected a write") };
    assert_ne!(bytes, other);
}

#[test]
fn response_may_arrive_in_parts() {
    let mut s = fresh();
    assert!(s.on_input(Input::Received(b"HTTP/1.1 20".to_vec())).is_empty());
    let steps = s.on_input(Input::Received(b"0 OK\r\n\r\n".to_vec()));
    assert_eq!(
        shown(&steps),
        [
            "progress SSTP HTTP handshake completed, switching to binary framing",
            "write ConnectRequest 14",
            "progress sent SSTP CONNECT_REQ, waiting for CONNECT_ACK..."
        ]
    );
    assert_eq!(s.stage(), Stage::Running);
}

#[test]
fn packets_behind_the_response_are_kept() {
    let mut s = fresh();
    let mut all = b"HTTP/1.1 200\r\n\r\n".to_vec();
    all.extend_from_slice(&encode_ctrl(MsgType::EchoRequest, &[]));
    s.on_input(Input::Received(all));
    assert_eq!(shown(&s.next_packet().unwrap()), ["write Data 8"]);
    assert!(s.next_packet().is_none());
}

#[test]
fn handshake_failures_are_told_apart() {
    let end = |input: Input| {
        let mut s = fresh();
        let steps = s.on_input(input);
        assert_eq!(s.stage(), Stage::Ended);
        shown(&steps)
    };
    assert_eq!(end(Input::Received(vec![])), ["fail connection closed during HTTP handshake"]);
    assert_eq!(end(Input::ReadFailed("reset".to_string())), ["fail HTTP handshake read failed: reset"]);
    assert_eq!(
        end(Input::Received(b"HTTP/1.1 401 No\r\n\r\n".to_vec())),
        ["fail SSTP HTTP handshake failed: NonSuccessStatus(401)"]
    );
    assert_eq!(
        end(Input::Received(b"nonsense\r\n\r\n".to_vec())),
        ["fail SSTP HTTP handshake failed: BadStatusLine(\"nonsense\")"]
    );
}

#[test]
fn a_judged_response_is_settled() {
    let mut s = fresh();
    s.on_input(Input::Received(b"abcdef".to_vec()));
    assert!(s.settle_handshake(Err(ParseError::Incomplete)).is_empty());
    assert_eq!(s.settle_handshake(Ok((200, 2))).len(), 3);
    assert_eq!(s.stage(), Stage::Running);
    assert_eq!(shown(&s.next_packet().unwrap()), ["fail malformed SSTP packet: unsupported SSTP version 0x63"]);
}

#[test]
fn timers_and_the_tunnel_do_not_matter_during_the_handshake() {
    let mut s = fresh();
    assert!(s.on_input(Input::IdleTick).is_empty());
    assert!(s.on_input(Input::FromTunnel(vec![1])).is_empty());
    assert!(s.next_packet().is_none());
    assert_eq!(s.stage(), Stage::Handshake);
}

#[test]
fn a_disconnect_ends_the_handshake_too() {
    let mut s = fresh();
    assert_eq!(shown(&s.on_input(Input::DisconnectRequested)), ["close"]);
    assert_eq!(s.stage(), Stage::Ended);
    assert!(s.on_input(Input::Received(b"HTTP/1.1 200\r\n\r\n".to_vec())).is_empty());
}

#[test]
fn silence_is_given_up_after_four_echoes() {
    let mut s = running();
    for _ in 0..4 {
        assert_eq!(shown(&s.on_input(Input::IdleTick)), ["write Keepalive 8"]);
    }
    assert_eq!(
        shown(&s.on_input(Input::IdleTick)),
        ["fail no response from server after 4 keepalive echoes"]
    );
    assert_eq!(s.stage(), Stage::Ended);
    assert!(s.on_input(Input::IdleTick).is_empty());
}

#[test]
fn any_byte_is_a_sign_of_life() {
    let mut s = running();
    for _ in 0..10 {
        for _ in 0..4 {
            s.on_input(Input::IdleTick);
        }
        assert_eq!(shown(&s.on_input(Input::Received(vec![0x10]))), ["reset"]);
    }
    assert_eq!(s.stage(), Stage::Running);
}

#[test]
fn a_running_session_ends_in_order_or_with_a_failure() {
    let end = |input: Input| {
        let mut s = running();
        let steps = s.on_input(input);
        assert_eq!(s.stage(), Stage::Ended);
        assert!(s.on_input(Input::FromTunnel(vec![1])).is_empty());
        assert!(s.next_packet().is_none());
        shown(&steps)
    };
    assert_eq!(end(Input::Received(vec![])), ["close"]);
    assert_eq!(end(Input::ReadFailed("reset".to_string())), ["fail connection error: reset"]);
    assert_eq!(end(Input::DisconnectRequested), ["farewell 8", "close"]);
}

#[test]
fn packets_from_the_tunnel_are_wrapped() {
    let mut s = running();
    let steps = s.on_input(Input::FromTunnel(vec![0x45, 1]));
    let Step::Write { bytes, kind } = &steps[0] else { panic!("expected a write") };
    assert_eq!(*kind, WriteKind::Data);
    assert_eq!(*bytes, vec![0x10, 0, 0, 10, 0xFF, 0x03, 0x00, 0x21, 0x45, 1]);
}

#[test]
fn packets_without_a_tunnel_are_dropped() {
    let mut s = running();
    s.on_input(Input::Received(wrap_data(Protocol::Ip, &[0x45])));
    assert!(s.next_packet().unwrap().is_empty());
    assert!(s.next_packet().is_none());
}

#[test]
fn a_malformed_packet_ends_the_session() {
    let mut s = running();
    s.on_input(Input::Received(vec![0x10, 0, 0, 1]));
    assert_eq!(
        shown(&s.next_packet().unwrap()),
        ["fail malformed SSTP packet: malformed SSTP packet: header length smaller than header itself"]
    );
    assert_eq!(s.stage(), Stage::Ended);
}

#[test]
fn a_disconnect_of_the_server_is_acknowledged_first() {
    let mut s = running();
    let mut bytes = encode_ctrl(MsgType::Disconnect, &[]);
    bytes.extend_from_slice(&encode_data(&[1]));
    s.on_input(Input::Received(bytes));
    assert_eq!(shown(&s.next_packet().unwrap()), ["write Data 8", "close"]);
    assert!(s.next_packet().is_none());
}

fn established(local: Option<Ipv4Addr>, peer: Option<Ipv4Addr>) -> EngineEvent {
    EngineEvent::Established {
        negotiated: NegotiatedConfig { local_ip: local, peer_ip: peer, dns1: None, dns2: None },
        mppe_keys: MppeKeys { send_key: [0; 16], recv_key: [0; 16] },
    }
}

#[test]
fn a_tunnel_is_opened_before_anything_is_delivered() {
    let events = vec![
        EngineEvent::DeliverIpPacket(vec![1]),
        EngineEvent::Trace("up".to_string()),
        established(Some(Ipv4Addr::new(10, 0, 0, 2)), Some(Ipv4Addr::new(10, 0, 0, 1))),
        EngineEvent::DeliverIpPacket(vec![2]),
        EngineEvent::Send(vec![7, 7]),
    ];
    let (steps, tunnel, on) = steps_for(events, false);
    assert_eq!(shown(&steps), ["progress up", "open 10.0.0.2 10.0.0.1", "deliver [2]", "write Data 2"]);
    assert!(tunnel);
    assert!(on);
}

#[test]
fn addresses_must_be_known_on_both_ends() {
    let (steps, tunnel, on) = steps_for(vec![established(None, Some(Ipv4Addr::unspecified()))], false);
    assert_eq!(shown(&steps), ["fail IPCP finished without both a local and peer address"]);
    assert!(!tunnel);
    assert!(!on);
}

#[test]
fn nothing_follows_the_end() {
    let events = vec![EngineEvent::Fatal("bad".to_string()), EngineEvent::Send(vec![1]), EngineEvent::Disconnected];
    let (steps, _, on) = steps_for(events, true);
    assert_eq!(shown(&steps), ["fail bad"]);
    assert!(!on);
    let (steps, _, on) = steps_for(vec![EngineEvent::Disconnected, EngineEvent::Send(vec![1])], true);
    assert_eq!(shown(&steps), ["close"]);
    assert!(!on);
}
