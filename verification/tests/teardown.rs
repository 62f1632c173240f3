use sstp_proto::ipc::WorkerState;
use sstp_proto::teardown::{Teardown, TeardownAction};

fn shown(actions: &[TeardownAction]) -> Vec<String> {
    actions
        .iter()
        .map(|a| match a {
            TeardownAction::Log(s) => format!("log {s}"),
            TeardownAction::RequestDisconnect => "request".to_string(),
            TeardownAction::Look => "look".to_string(),
            TeardownAction::Wait => "wait".to_string(),
            TeardownAction::Diagnose(s) => format!("diagnose {s}"),
            TeardownAction::Kill => "kill".to_string(),
            TeardownAction::ClearRequest => "clear request".to_string(),
            TeardownAction::ClearStatus => "clear status".to_string(),
            TeardownAction::ShowDisconnected => "show".to_string(),
            TeardownAction::HealRoute => "heal".to_string(),
        })
        .collect()
}

#[test]
fn a_confirmed_teardown_cleans_up() {
    for state in [None, Some(WorkerState::Disconnected), Some(WorkerState::Error)] {
        let (mut teardown, first) = Teardown::begin();
        assert_eq!(shown(&first), ["log disconnecting...", "request", "look"]);
        assert_eq!(shown(&teardown.on_look(Some(WorkerState::Connected), 0)), ["wait", "look"]);
        assert_eq!(shown(&teardown.on_look(Some(WorkerState::Connecting), 300)), ["wait", "look"]);
        assert_eq!(
            shown(&teardown.on_look(state, 9_999)),
            ["log disconnected", "clear request", "clear status", "show", "heal"]
        );
        assert!(teardown.on_look(Some(WorkerState::Connected), 20_000).is_empty());
    }
}

#[test]
fn a_silent_worker_is_killed_after_ten_seconds() {
    for state in [None, Some(WorkerState::Connected), Some(WorkerState::Disconnected)] {
        let (mut teardown, _) = Teardown::begin();
        assert_eq!(shown(&teardown.on_look(Some(WorkerState::Connected), 9_999)), ["wait", "look"]);
        assert_eq!(
            shown(&teardown.on_look(state, 10_000)),
            [
                "log worker did not confirm disconnect within 10s, forcing...",
                "diagnose disconnect: worker did not confirm in time",
                "kill",
                "clear request",
                "clear status",
                "show",
                "heal"
            ]
        );
        assert!(teardown.on_look(state, 10_300).is_empty());
    }
}
