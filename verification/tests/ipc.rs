use sstp_proto::ipc::{
    disconnect_marker_path, format_status, path_below, pending_password_path, pid_alive,
    status_path, VpnStatusFile, WorkerState, EPERM,
};

#[test]
fn pid_alive_treats_a_root_owned_process_as_alive() {
    assert!(pid_alive(-1, Some(libc::EPERM)), "EPERM must count as alive, not dead");
}

#[test]
fn liveness_is_told_by_the_signal() {
    assert_eq!(EPERM, libc::EPERM);
    assert!(pid_alive(0, None));
    assert!(pid_alive(0, Some(libc::ESRCH)));
    assert!(!pid_alive(-1, Some(libc::ESRCH)));
    assert!(!pid_alive(-1, None));
}

#[test]
fn files_lie_below_the_home_directory() {
    let home = Some("/Users/x");
    assert_eq!(status_path(home), "/Users/x/Library/Application Support/sstp-gui/vpn-status.json");
    assert_eq!(disconnect_marker_path(home), "/Users/x/Library/Application Support/sstp-gui/disconnect-requested");
    assert_eq!(pending_password_path(home), "/Users/x/Library/Application Support/sstp-gui/pending-password");
    assert_eq!(status_path(None), "./Library/Application Support/sstp-gui/vpn-status.json");
}

#[test]
fn paths_get_one_slash() {
    assert_eq!(path_below("/", "a"), "/a");
    assert_eq!(path_below("x/", "a"), "x/a");
    assert_eq!(path_below("x", "a"), "x/a");
    assert_eq!(path_below("", "a"), "a");
}

#[test]
fn a_blank_status_says_nothing() {
    assert_eq!(
        format_status(&VpnStatusFile::default()),
        "VpnStatusFile { state: None, interface: None, local_ip: None, peer_ip: None, dns1: None, dns2: None, message: None, pid: None }"
    );
}

#[test]
fn a_status_is_logged_like_its_debug_form() {
    let status = VpnStatusFile {
        state: Some(WorkerState::Connected),
        interface: Some("utun7".to_string()),
        local_ip: Some("10.100.1.21".to_string()),
        peer_ip: Some("10.100.1.250".to_string()),
        dns1: Some("172.19.50.203".to_string()),
        dns2: None,
        message: Some("a \"b\"\n".to_string()),
        pid: Some(12345),
    };
    assert_eq!(format_status(&status), format!("{status:?}"));
}

#[test]
fn states_have_their_names() {
    for state in [WorkerState::Connecting, WorkerState::Connected, WorkerState::Disconnected, WorkerState::Error] {
        assert_eq!(state.name(), format!("{state:?}"));
    }
}
