use sstp_proto::addr::Ipv4Addr;
use sstp_proto::connection::Event;
use sstp_proto::ipc::WorkerState;
use sstp_proto::ipcp::NegotiatedConfig;
use sstp_proto::worker::{check_password, starting, stopping, Worker, WorkerAction};

fn shown(actions: &[WorkerAction]) -> Vec<String> {
    actions
        .iter()
        .map(|a| match a {
            WorkerAction::Log(s) => format!("log {s}"),
            WorkerAction::Route(args) => format!("route {}", args.join(" ")),
            WorkerAction::WriteStatus(s) => format!("status {:?} {:?} {:?}", s.state, s.interface, s.pid),
            WorkerAction::Disconnect => "disconnect".to_string(),
            WorkerAction::Finish(r) => format!("finish {r:?}"),
        })
        .collect()
}

fn connected() -> Option<Event> {
    Some(Event::Connected {
        interface: "utun5".to_string(),
        negotiated: NegotiatedConfig {
            local_ip: Some(Ipv4Addr::new(10, 0, 0, 2)),
            peer_ip: Some(Ipv4Addr::new(10, 0, 0, 1)),
            dns1: None,
            dns2: Some(Ipv4Addr::new(8, 8, 8, 8)),
        },
    })
}

fn worker(gateway: Option<&str>) -> Worker {
    Worker::new("203.0.113.9".to_string(), gateway.map(|s| s.to_string()), 77)
}

#[test]
fn the_server_is_protected_before_the_default_route_moves() {
    let mut w = worker(Some("192.168.1.1"));
    assert_eq!(
        shown(&w.on_event(connected())),
        [
            "log connected: interface=utun5 local=Some(10.0.0.2) peer=Some(10.0.0.1) dns1=None dns2=Some(8.8.8.8)",
            "route -n add -host 203.0.113.9 192.168.1.1",
            "route -n delete default",
            "route -n add default -interface utun5",
            "status Some(Connected) Some(\"utun5\") Some(77)"
        ]
    );
    assert_eq!(
        shown(&w.on_event(Some(Event::Disconnected))),
        ["log disconnected", "route -n delete -host 203.0.113.9", "status Some(Disconnected) None None", "finish Ok(())"]
    );
}

#[test]
fn without_a_gateway_there_is_nothing_to_protect_or_to_undo() {
    let mut w = worker(None);
    assert_eq!(
        shown(&w.on_event(connected()))[1],
        "log no pre-VPN gateway known -- skipping the protective host route (best effort only)"
    );
    assert_eq!(
        shown(&w.on_event(Some(Event::Error("lost".to_string())))),
        ["log connection error: lost", "finish Err(\"lost\")"]
    );
}

#[test]
fn protection_ends_however_the_worker_stops() {
    let mut w = worker(Some("g"));
    w.on_event(connected());
    assert_eq!(
        shown(&w.on_event(Some(Event::Error("lost".to_string())))),
        ["log connection error: lost", "route -n delete -host 203.0.113.9", "finish Err(\"lost\")"]
    );
    let mut w = worker(Some("g"));
    w.on_event(connected());
    assert_eq!(
        shown(&w.on_event(None)),
        ["route -n delete -host 203.0.113.9", "status Some(Disconnected) None None", "finish Ok(())"]
    );
    let mut w = worker(Some("g"));
    assert_eq!(shown(&w.on_event(None)), ["status Some(Disconnected) None None", "finish Ok(())"]);
}

#[test]
fn the_status_of_a_tunnel_is_complete() {
    let mut w = worker(None);
    let actions = w.on_event(connected());
    let Some(WorkerAction::WriteStatus(status)) = actions.last() else { panic!("expected a status") };
    assert_eq!(status.state, Some(WorkerState::Connected));
    assert_eq!(status.local_ip.as_deref(), Some("10.0.0.2"));
    assert_eq!(status.peer_ip.as_deref(), Some("10.0.0.1"));
    assert_eq!(status.dns1, None);
    assert_eq!(status.dns2.as_deref(), Some("8.8.8.8"));
    assert_eq!(status.message, None);
}

#[test]
fn a_disconnect_is_asked_for_once() {
    let mut w = worker(None);
    assert!(w.is_polling());
    assert!(w.on_poll(false).is_empty());
    assert!(w.is_polling());
    assert_eq!(shown(&w.on_poll(true)), ["log disconnect requested, tearing down gracefully...", "disconnect"]);
    assert!(!w.is_polling());
    assert!(w.on_poll(true).is_empty());
}

#[test]
fn progress_is_logged() {
    assert_eq!(shown(&worker(None).on_event(Some(Event::Progress("x".to_string())))), ["log x"]);
}

#[test]
fn a_worker_needs_a_password() {
    assert_eq!(check_password(Ok("pw".to_string())), Ok("pw".to_string()));
    assert_eq!(check_password(Ok(String::new())), Err("empty password".to_string()));
    assert_eq!(
        check_password(Err("gone".to_string())),
        Err("could not read password handoff file: gone".to_string())
    );
}

#[test]
fn a_worker_says_that_it_starts_and_why_it_stops() {
    assert_eq!(
        shown(&starting("h:1", 5)),
        ["log worker starting, connecting to h:1...", "status Some(Connecting) None Some(5)"]
    );
    let (actions, code) = stopping(Ok(()));
    assert!(actions.is_empty());
    assert_eq!(code, 0);
    let (actions, code) = stopping(Err("bad".to_string()));
    assert_eq!(shown(&actions), ["log worker error: bad", "status Some(Error) None None"]);
    let WorkerAction::WriteStatus(status) = &actions[1] else { panic!("expected a status") };
    assert_eq!(status.message.as_deref(), Some("bad"));
    assert_eq!(code, 1);
}
