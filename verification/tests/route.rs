use sstp_proto::ipc::VpnStatusFile;
use sstp_proto::route::{
    cleanup_fragment, current_default_route, has_default_route, heal_route_if_broken,
    load_route_snapshot, log_network_diagnostics, owned_by_live_worker, read_route,
    route_snapshot_path, worth_saving, Heal, HealAction, HealStart, Notice,
};

const ROUTE: &str = "   route to: default\ndestination: default\n       mask: default\n    gateway: 192.168.1.1\n  interface: en0\n      flags: <UP,GATEWAY,DONE>\n";

fn shown(actions: &[HealAction]) -> Vec<String> {
    actions
        .iter()
        .map(|a| match a {
            HealAction::Log(s) => format!("log {s}"),
            HealAction::Diagnose(s) => format!("diagnose {s}"),
            HealAction::Elevate => "elevate".to_string(),
            HealAction::Recheck => "recheck".to_string(),
            HealAction::Wait => "wait".to_string(),
            HealAction::Notify(Notice::Restored) => "notify restored".to_string(),
            HealAction::Notify(Notice::RestoreFailed) => "notify failed".to_string(),
            HealAction::ForgetSnapshot => "forget".to_string(),
        })
        .collect()
}

fn status(iface: Option<&str>, pid: Option<u32>) -> Option<VpnStatusFile> {
    Some(VpnStatusFile { interface: iface.map(|s| s.to_string()), pid, ..Default::default() })
}

#[test]
fn routes_are_read_from_their_description() {
    let pair = |a: &str, b: &str| Some((a.to_string(), b.to_string()));
    assert_eq!(read_route(ROUTE), pair("192.168.1.1", "en0"));
    assert_eq!(current_default_route(true, ROUTE.as_bytes()), pair("192.168.1.1", "en0"));
    assert_eq!(current_default_route(false, ROUTE.as_bytes()), None);
    assert_eq!(read_route("gateway: a\ninterface:b"), None);
    assert_eq!(read_route("interface: b"), None);
    assert_eq!(read_route("interface: b\r\n gateway:   a \r\ngateway: c"), pair("a", "b"));
    assert_eq!(read_route("gateway:\ngateway: \n gateway: x\ninterface: y"), pair("x", "y"));
    assert_eq!(read_route(""), None);
}

#[test]
fn a_tunnel_belongs_to_a_live_worker_only() {
    assert!(owned_by_live_worker("utun7", &status(Some("utun7"), Some(1)), true));
    assert!(!owned_by_live_worker("utun7", &status(Some("utun7"), Some(1)), false));
    assert!(!owned_by_live_worker("utun7", &status(Some("utun7"), None), true));
    assert!(!owned_by_live_worker("utun7", &status(Some("utun70"), Some(1)), true));
    assert!(!owned_by_live_worker("utun7", &status(None, Some(1)), true));
    assert!(!owned_by_live_worker("utun7", &None, true));
}

#[test]
fn a_route_works_where_its_interface_does() {
    assert!(has_default_route(Some("en0"), false, true));
    assert!(!has_default_route(Some("en0"), false, false));
    assert!(!has_default_route(Some("utun3"), false, true));
    assert!(has_default_route(Some("utun3"), true, true));
    assert!(!has_default_route(None, true, true));
}

#[test]
fn the_gateway_of_a_live_tunnel_is_not_kept() {
    assert!(worth_saving("en0", false));
    assert!(worth_saving("en0", true));
    assert!(worth_saving("utun3", false));
    assert!(!worth_saving("utun3", true));
}

#[test]
fn kept_gateways_are_trimmed() {
    assert_eq!(load_route_snapshot(Some(" 10.0.0.1\n")), Some("10.0.0.1".to_string()));
    assert_eq!(load_route_snapshot(Some(" \n")), None);
    assert_eq!(load_route_snapshot(None), None);
    assert_eq!(route_snapshot_path(Some("/h")), "/h/Library/Application Support/sstp-gui/pre-vpn-gateway.txt");
}

#[test]
fn cleanup_kills_a_live_worker_first() {
    let flush = "dscacheutil -flushcache 2>/dev/null; killall -HUP mDNSResponder 2>/dev/null";
    assert_eq!(cleanup_fragment(None), flush);
    assert_eq!(cleanup_fragment(Some(4294967295)), format!("kill -9 4294967295 2>/dev/null; {flush}"));
}

#[test]
fn diagnostics_are_exact() {
    let route = Some(("10.0.0.1".to_string(), "en0".to_string()));
    assert_eq!(
        log_network_diagnostics("test", &route, &None),
        format!("[diagnostics: test]\ncurrent default route: {route:?}\nrecorded vpn status: None")
    );
    let recorded = status(Some("utun7"), Some(3));
    let none: Option<(String, String)> = None;
    assert_eq!(
        log_network_diagnostics("x", &none, &recorded),
        format!("[diagnostics: x]\ncurrent default route: None\nrecorded vpn status: {recorded:?}")
    );
}

#[test]
fn healing_starts_once_and_only_where_needed() {
    assert_eq!(heal_route_if_broken(true, false), HealStart::NotNeeded);
    assert_eq!(heal_route_if_broken(true, true), HealStart::NotNeeded);
    assert_eq!(heal_route_if_broken(false, true), HealStart::AlreadyHealing);
    assert_eq!(heal_route_if_broken(false, false), HealStart::Begin);
}

#[test]
fn without_a_kept_gateway_only_the_cleanup_runs() {
    let (heal, first) = Heal::begin(None, true);
    assert_eq!(
        shown(&first),
        ["log internet looks down and no pre-VPN gateway was saved to restore", "diagnose heal: no snapshot available", "elevate"]
    );
    assert_eq!(heal.command(None), cleanup_fragment(None));
}

#[test]
fn the_route_is_tried_for_four_times() {
    let (mut heal, first) = Heal::begin(Some("10.0.0.1".to_string()), true);
    assert_eq!(
        shown(&first),
        ["log default route missing after VPN teardown, restoring gateway 10.0.0.1...", "elevate", "recheck"]
    );
    for _ in 0..3 {
        assert_eq!(shown(&heal.on_recheck(false)), ["wait", "elevate", "recheck"]);
    }
    assert_eq!(
        shown(&heal.on_recheck(false)),
        [
            "log failed to restore default route automatically after retries, keeping snapshot for the next attempt",
            "diagnose heal: restore failed after retries",
            "notify failed"
        ]
    );
}

#[test]
fn a_restored_route_is_told_where_it_was_lost_unexpectedly() {
    let (mut heal, _) = Heal::begin(Some("g".to_string()), true);
    heal.on_recheck(false);
    assert_eq!(shown(&heal.on_recheck(true)), ["log default route restored (attempt 2/4)", "notify restored", "forget"]);
    let (mut heal, _) = Heal::begin(Some("g".to_string()), false);
    assert_eq!(shown(&heal.on_recheck(true)), ["log default route restored (attempt 1/4)", "forget"]);
}

#[test]
fn the_restoring_command_quotes_the_gateway() {
    let (heal, _) = Heal::begin(Some("1.2.3.4; rm".to_string()), true);
    assert_eq!(
        heal.command(Some(9)),
        "route -n add default '1.2.3.4; rm' 2>/dev/null || route -n change default '1.2.3.4; rm'; kill -9 9 2>/dev/null; dscacheutil -flushcache 2>/dev/null; killall -HUP mDNSResponder 2>/dev/null"
    );
}
