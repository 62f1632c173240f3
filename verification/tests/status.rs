use sstp_proto::ipc::{VpnStatusFile, WorkerState};
use sstp_proto::status::{
    can_start, clock_change, disconnect_confirmed, follow_worker, format_duration, heal_due,
    kill_command, mode_of, password_choice, poll_due, power_click, screen_words, session_end_line,
    subtitle, tray_face, worker_command, Click, ClockChange, InterfaceChange, Mode, PasswordChoice,
    VpnStatus,
};

fn worker(state: Option<WorkerState>, pid: Option<u32>) -> Option<VpnStatusFile> {
    Some(VpnStatusFile { state, pid, interface: Some("utun1".to_string()), ..Default::default() })
}

fn follow(status: VpnStatus, w: Option<VpnStatusFile>, alive: bool) -> (VpnStatus, String, bool) {
    let (next, change, heal) = follow_worker(status, &w, alive);
    (next, format!("{change:?}"), heal)
}

#[test]
fn a_tunnel_that_comes_up_is_shown() {
    let up = || worker(Some(WorkerState::Connected), Some(1));
    for before in [VpnStatus::Connecting, VpnStatus::Disconnected] {
        assert_eq!(follow(before, up(), true), (VpnStatus::Connected, "Show(Some(\"utun1\"))".to_string(), false));
    }
    assert_eq!(follow(VpnStatus::Connected, up(), true), (VpnStatus::Connected, "Keep".to_string(), false));
}

#[test]
fn a_tunnel_that_is_lost_is_looked_after() {
    let lost = (VpnStatus::Disconnected, "Clear".to_string(), true);
    assert_eq!(follow(VpnStatus::Connected, None, false), lost);
    assert_eq!(follow(VpnStatus::Connected, worker(Some(WorkerState::Connected), Some(1)), false), lost);
    assert_eq!(follow(VpnStatus::Connected, worker(Some(WorkerState::Connected), None), true), lost);
    assert_eq!(follow(VpnStatus::Connected, worker(Some(WorkerState::Error), Some(1)), true), lost);
}

#[test]
fn an_attempt_ends_when_the_worker_gives_up() {
    let over = (VpnStatus::Disconnected, "Keep".to_string(), false);
    assert_eq!(follow(VpnStatus::Connecting, None, true), over);
    assert_eq!(follow(VpnStatus::Connecting, worker(Some(WorkerState::Error), Some(1)), true), over);
    assert_eq!(follow(VpnStatus::Connecting, worker(Some(WorkerState::Disconnected), Some(1)), true), over);
    assert_eq!(follow(VpnStatus::Connecting, worker(Some(WorkerState::Connecting), Some(1)), false), over);
    let still = (VpnStatus::Connecting, "Keep".to_string(), false);
    assert_eq!(follow(VpnStatus::Connecting, worker(Some(WorkerState::Connecting), Some(1)), true), still);
    assert_eq!(follow(VpnStatus::Connecting, worker(None, Some(1)), true), still);
}

#[test]
fn without_a_tunnel_nothing_is_looked_after() {
    let (next, change, heal) = follow_worker(VpnStatus::Disconnected, &None, false);
    assert_eq!(next, VpnStatus::Disconnected);
    assert!(matches!(change, InterfaceChange::Keep));
    assert!(!heal);
}

#[test]
fn looks_and_tries_keep_their_distance() {
    assert!(!poll_due(3_000_000_000));
    assert!(poll_due(3_000_000_001));
    assert!(heal_due(true, VpnStatus::Connected, true, Some(0)));
    assert!(heal_due(false, VpnStatus::Disconnected, false, None));
    assert!(heal_due(false, VpnStatus::Disconnected, false, Some(30_000_000_001)));
    assert!(!heal_due(false, VpnStatus::Disconnected, false, Some(30_000_000_000)));
    assert!(!heal_due(false, VpnStatus::Disconnected, true, None));
    assert!(!heal_due(false, VpnStatus::Connecting, false, None));
}

#[test]
fn the_clock_runs_while_there_is_a_tunnel() {
    assert_eq!(clock_change(VpnStatus::Connected, false), ClockChange::Start);
    assert_eq!(clock_change(VpnStatus::Connected, true), ClockChange::Keep);
    assert_eq!(clock_change(VpnStatus::Connecting, true), ClockChange::Stop);
    assert_eq!(clock_change(VpnStatus::Disconnected, false), ClockChange::Stop);
}

#[test]
fn the_tray_shows_the_status() {
    let face = tray_face(VpnStatus::Disconnected, false);
    assert_eq!(face.label, "\u{25CF} Disconnected");
    assert_eq!(face.rgba, [140, 140, 140, 255]);
    assert!(face.can_connect && !face.can_disconnect);
    let face = tray_face(VpnStatus::Connecting, false);
    assert_eq!(face.label, "\u{25CF} Connecting…");
    assert_eq!(face.rgba, [230, 180, 40, 255]);
    assert!(!face.can_connect && face.can_disconnect);
    let face = tray_face(VpnStatus::Connected, true);
    assert_eq!(face.label, "\u{25CF} Connected");
    assert_eq!(face.rgba, [40, 190, 90, 255]);
    assert!(!face.can_connect && !face.can_disconnect);
}

#[test]
fn the_power_button_does_what_it_says() {
    assert_eq!(power_click(VpnStatus::Disconnected), Click::Connect);
    assert_eq!(power_click(VpnStatus::Connecting), Click::Disconnect);
    assert_eq!(power_click(VpnStatus::Connected), Click::Disconnect);
    assert_eq!(screen_words(VpnStatus::Disconnected), ("Не подключено", "Подключиться"));
    assert_eq!(screen_words(VpnStatus::Connecting), ("Подключение…", "Отменить"));
    assert_eq!(screen_words(VpnStatus::Connected), ("Подключено", "Отключиться"));
}

#[test]
fn durations_have_two_digits() {
    assert_eq!(format_duration(0), "00:00");
    assert_eq!(format_duration(59), "00:59");
    assert_eq!(format_duration(3599), "59:59");
    assert_eq!(format_duration(3600), "01:00:00");
    assert_eq!(format_duration(36_061), "10:01:01");
    assert_eq!(format_duration(360_000), "100:00:00");
}

#[test]
fn the_subtitle_says_how_long_and_where() {
    assert_eq!(subtitle(VpnStatus::Connected, 61, Some("utun4"), "home"), "01:01 · utun4");
    assert_eq!(subtitle(VpnStatus::Connected, 61, None, "home"), "01:01");
    assert_eq!(subtitle(VpnStatus::Connecting, 61, Some("utun4"), "home"), "home");
}

#[test]
fn a_connection_needs_everything_filled_in() {
    assert!(can_start("h", "u", "p"));
    assert!(!can_start("", "u", "p"));
    assert!(!can_start("h", "", "p"));
    assert!(!can_start("h", "u", ""));
}

#[test]
fn the_worker_is_called_with_quoted_words() {
    assert_eq!(
        worker_command("/A B/sstp-gui", "h:1", "it's me"),
        "'/A B/sstp-gui' --vpn-worker 'h:1' 'it'\\''s me'"
    );
}

#[test]
fn the_end_of_a_session_is_logged_where_it_says_something() {
    assert_eq!(session_end_line(&Ok(" done \n".to_string())), Some("done".to_string()));
    assert_eq!(session_end_line(&Ok("\n".to_string())), None);
    assert_eq!(session_end_line(&Err("cancelled".to_string())), Some("worker session ended: cancelled".to_string()));
}

#[test]
fn a_disconnect_is_confirmed_by_word_or_silence() {
    assert!(disconnect_confirmed(None));
    assert!(disconnect_confirmed(Some(WorkerState::Disconnected)));
    assert!(disconnect_confirmed(Some(WorkerState::Error)));
    assert!(!disconnect_confirmed(Some(WorkerState::Connected)));
    assert!(!disconnect_confirmed(Some(WorkerState::Connecting)));
}

#[test]
fn only_a_live_worker_is_killed() {
    assert_eq!(kill_command(Some(42), true), Some("kill -9 42".to_string()));
    assert_eq!(kill_command(Some(42), false), None);
    assert_eq!(kill_command(None, true), None);
}

#[test]
fn passwords_are_stored_as_chosen() {
    assert_eq!(password_choice(true, "x"), PasswordChoice::Store);
    assert_eq!(password_choice(true, ""), PasswordChoice::Leave);
    assert_eq!(password_choice(false, "x"), PasswordChoice::Delete);
    assert_eq!(password_choice(false, ""), PasswordChoice::Delete);
}

#[test]
fn the_worker_is_asked_for_by_its_flag() {
    let call = |words: &[&str]| mode_of(&words.iter().map(|w| w.to_string()).collect());
    assert!(matches!(call(&["gui"]), Mode::Window));
    assert!(matches!(call(&[]), Mode::Window));
    assert!(matches!(call(&["gui", "x", "--vpn-worker"]), Mode::Window));
    assert!(matches!(call(&["gui", "--vpn-worker", "h"]), Mode::BadUsage));
    match call(&["gui", "--vpn-worker", "h", "u", "more"]) {
        Mode::Worker { server, username } => {
            assert_eq!(server, "h");
            assert_eq!(username, "u");
        }
        _ => panic!("the worker was not recognised"),
    }
}
