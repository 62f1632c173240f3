use sstp_proto::startup::{StartAction, Startup};

fn shown(actions: &[StartAction]) -> Vec<String> {
    actions
        .iter()
        .map(|a| match a {
            StartAction::Log(s) => format!("log {s}"),
            StartAction::Notify(s) => format!("notify {s}"),
            StartAction::StagePassword(s) => format!("stage {s}"),
            StartAction::ClearStatus => "clear status".to_string(),
            StartAction::ClearRequest => "clear request".to_string(),
            StartAction::SaveSnapshot => "save".to_string(),
            StartAction::Elevate(s) => format!("elevate {s}"),
            StartAction::ShowDisconnected => "show".to_string(),
        })
        .collect()
}

#[test]
fn the_gateway_is_kept_before_rights_are_asked_for() {
    let (mut startup, first) = Startup::begin("h:443", "it's me", "secret", Some("/A B/sstp-gui"));
    assert_eq!(shown(&first), ["stage secret"]);
    assert_eq!(
        shown(&startup.on_staged(Ok(()))),
        [
            "clear status",
            "clear request",
            "save",
            "log connecting to h:443...",
            "elevate '/A B/sstp-gui' --vpn-worker 'h:443' 'it'\\''s me'"
        ]
    );
    assert!(startup.on_staged(Ok(())).is_empty());
}

#[test]
fn nothing_is_staged_where_a_field_is_empty() {
    for (server, username, password) in [("", "u", "p"), ("h", "", "p"), ("h", "u", "")] {
        for exe in [Some("/x"), None] {
            let (mut startup, first) = Startup::begin(server, username, password, exe);
            assert_eq!(
                shown(&first),
                ["log connect aborted: server/username/password not set", "notify Заполните сервер, логин и пароль", "show"]
            );
            assert!(startup.on_staged(Ok(())).is_empty());
        }
    }
}

#[test]
fn a_start_without_a_known_program_is_given_up() {
    let (mut startup, first) = Startup::begin("h", "u", "p", None);
    assert_eq!(shown(&first), ["log connect aborted: could not determine our own executable path", "show"]);
    assert!(startup.on_staged(Err("x".to_string())).is_empty());
}

#[test]
fn a_password_that_cannot_be_staged_ends_the_start() {
    let (mut startup, _) = Startup::begin("h", "u", "p", Some("/x"));
    assert_eq!(
        shown(&startup.on_staged(Err("disk full".to_string()))),
        ["log connect aborted: could not stage password handoff: disk full", "show"]
    );
    assert!(startup.on_staged(Ok(())).is_empty());
}
