use wake_proxy::backend::manager::{
    wake_command, wake_start, wake_step, WakeAction, WakeEvent, WakePhase, WakeStep,
    CONNECT_TIMEOUT_SECS, RETRY_DELAY_SECS,
};
use wake_proxy::backend::state::ServerStatus;
use wake_proxy::config::Config;
use wake_proxy::connection::{
    conn_start, conn_step, ConnAction, ConnEvent, ConnPhase, ConnStep, PeekOutcome,
    FIRST_PACKET_TIMEOUT_SECS, MAX_PACKET_SIZE,
};

const HANDSHAKE: [u8; 8] = [0x07, 0x00, 0x2f, 0x01, 0x61, 0x63, 0xdd, 0x01];

#[test]
fn wake_starts_by_connecting() {
    assert_eq!(CONNECT_TIMEOUT_SECS, 5);
    assert_eq!(
        wake_start(),
        WakeStep {
            phase: WakePhase::Connecting,
            write: None,
            action: WakeAction::Connect { timeout_secs: 5 }
        }
    );
}

#[test]
fn wake_connected_marks_online() {
    for status in [ServerStatus::Offline, ServerStatus::WakingUp, ServerStatus::Online] {
        let s = wake_step(WakePhase::Connecting, status, WakeEvent::Connected);
        assert_eq!(s.phase, WakePhase::Connected);
        assert_eq!(s.write, Some(ServerStatus::Online));
        assert_eq!(s.action, WakeAction::ReturnSocket);
    }
}

#[test]
fn wake_failed_connect_resets_to_offline() {
    let s = wake_step(WakePhase::Connecting, ServerStatus::Online, WakeEvent::ConnectFailed);
    assert_eq!(s.phase, WakePhase::Waiting);
    assert_eq!(s.write, Some(ServerStatus::Offline));
    assert_eq!(s.action, WakeAction::CheckStatus);
}

#[test]
fn wake_waiting_decides_by_status() {
    let offline = wake_step(WakePhase::Waiting, ServerStatus::Offline, WakeEvent::StatusChecked);
    assert_eq!(
        offline,
        WakeStep {
            phase: WakePhase::Waking,
            write: Some(ServerStatus::WakingUp),
            action: WakeAction::RunWakeCommand
        }
    );
    let waking = wake_step(WakePhase::Waiting, ServerStatus::WakingUp, WakeEvent::Slept);
    assert_eq!(RETRY_DELAY_SECS, 10);
    assert_eq!(
        waking,
        WakeStep { phase: WakePhase::Waiting, write: None, action: WakeAction::Sleep { secs: 10 } }
    );
    let online = wake_step(WakePhase::Waiting, ServerStatus::Online, WakeEvent::StatusChecked);
    assert_eq!(online, wake_start());
}

#[test]
fn wake_command_outcomes() {
    for ok in [true, false] {
        let s = wake_step(WakePhase::Waking, ServerStatus::WakingUp, WakeEvent::CommandFinished(ok));
        assert_eq!(s, WakeStep { phase: WakePhase::Probing, write: None, action: WakeAction::Probe });
    }
    let failed = wake_step(WakePhase::Waking, ServerStatus::WakingUp, WakeEvent::CommandFailed);
    assert_eq!(
        failed,
        WakeStep { phase: WakePhase::Failed, write: None, action: WakeAction::ReturnError }
    );
}

#[test]
fn wake_probing_until_the_backend_answers() {
    let refused = wake_step(WakePhase::Probing, ServerStatus::WakingUp, WakeEvent::ProbeFailed);
    assert_eq!(refused.action, WakeAction::Sleep { secs: 10 });
    assert_eq!(refused.phase, WakePhase::Probing);
    let again = wake_step(WakePhase::Probing, ServerStatus::WakingUp, WakeEvent::Slept);
    assert_eq!(again.action, WakeAction::Probe);
    let up = wake_step(WakePhase::Probing, ServerStatus::WakingUp, WakeEvent::ProbeSucceeded);
    assert_eq!(
        up,
        WakeStep {
            phase: WakePhase::Connecting,
            write: Some(ServerStatus::Online),
            action: WakeAction::Connect { timeout_secs: 5 }
        }
    );
}

#[test]
fn wake_unexpected_event_gives_up() {
    let failed = WakeStep { phase: WakePhase::Failed, write: None, action: WakeAction::ReturnError };
    assert_eq!(wake_step(WakePhase::Connecting, ServerStatus::Offline, WakeEvent::Slept), failed);
    assert_eq!(
        wake_step(WakePhase::Waiting, ServerStatus::Offline, WakeEvent::ProbeSucceeded),
        failed
    );
    assert_eq!(wake_step(WakePhase::Waking, ServerStatus::Offline, WakeEvent::StatusChecked), failed);
    assert_eq!(wake_step(WakePhase::Probing, ServerStatus::Offline, WakeEvent::Connected), failed);
    assert_eq!(wake_step(WakePhase::Connected, ServerStatus::Online, WakeEvent::Connected), failed);
}

#[test]
fn wake_full_run_from_offline() {
    // A lone connection against a sleeping backend.
    let mut status = ServerStatus::Offline;
    let mut step = wake_start();
    let events = [
        WakeEvent::ConnectFailed,
        WakeEvent::StatusChecked,
        WakeEvent::CommandFinished(true),
        WakeEvent::ProbeFailed,
        WakeEvent::Slept,
        WakeEvent::ProbeSucceeded,
        WakeEvent::Connected,
    ];
    let mut actions = Vec::new();
    for event in events {
        step = wake_step(step.phase, status, event);
        if let Some(s) = step.write {
            status = s;
        }
        actions.push(step.action);
    }
    assert_eq!(
        actions,
        vec![
            WakeAction::CheckStatus,
            WakeAction::RunWakeCommand,
            WakeAction::Probe,
            WakeAction::Sleep { secs: 10 },
            WakeAction::Probe,
            WakeAction::Connect { timeout_secs: 5 },
            WakeAction::ReturnSocket,
        ]
    );
    assert_eq!(status, ServerStatus::Online);
}

#[test]
fn wake_command_line() {
    let config = Config {
        listen_addr: "0.0.0.0:25565".to_string(),
        server_addr: "10.0.0.2:25565".to_string(),
        wake_command: "wakeonlan aa:bb:cc:dd:ee:ff".to_string(),
        geoip_db_path: "GeoLite2-Country.mmdb".to_string(),
    };
    let c = wake_command(&config);
    assert_eq!(c.program, "sh");
    assert_eq!(c.args, vec!["-c".to_string(), "wakeonlan aa:bb:cc:dd:ee:ff".to_string()]);
    assert_eq!(
        c.removed_env,
        vec![
            "http_proxy", "HTTP_PROXY", "https_proxy", "HTTPS_PROXY", "socks_proxy",
            "SOCKS_PROXY", "all_proxy", "ALL_PROXY"
        ]
    );
}

#[test]
fn conn_starts_with_geo_check() {
    assert_eq!(
        conn_start(),
        ConnStep { phase: ConnPhase::Screening, write: None, action: ConnAction::CheckGeo }
    );
}

#[test]
fn conn_geo_verdict() {
    let blocked = conn_step(ConnPhase::Screening, &ConnEvent::GeoChecked(false));
    assert_eq!(blocked, ConnStep { phase: ConnPhase::Closed, write: None, action: ConnAction::Close });
    let allowed = conn_step(ConnPhase::Screening, &ConnEvent::GeoChecked(true));
    assert_eq!(FIRST_PACKET_TIMEOUT_SECS, 5);
    assert_eq!(MAX_PACKET_SIZE, 1024);
    assert_eq!(
        allowed,
        ConnStep {
            phase: ConnPhase::AwaitingPacket,
            write: None,
            action: ConnAction::PeekFirstPacket { timeout_secs: 5, max_len: 1024 }
        }
    );
}

#[test]
fn conn_first_packet_outcomes() {
    let close = ConnStep { phase: ConnPhase::Closed, write: None, action: ConnAction::Close };
    let ev = |o| ConnEvent::FirstPacket(o);
    assert_eq!(
        conn_step(ConnPhase::AwaitingPacket, &ev(PeekOutcome::Data(HANDSHAKE.to_vec()))),
        ConnStep {
            phase: ConnPhase::ConnectingBackend,
            write: None,
            action: ConnAction::ConnectBackend
        }
    );
    assert_eq!(conn_step(ConnPhase::AwaitingPacket, &ev(PeekOutcome::Data(Vec::new()))), close);
    assert_eq!(
        conn_step(ConnPhase::AwaitingPacket, &ev(PeekOutcome::Data(b"GET / HTTP/1.1\r\n".to_vec()))),
        close
    );
    assert_eq!(conn_step(ConnPhase::AwaitingPacket, &ev(PeekOutcome::TimedOut)), close);
    let wraps = vec![0x07, 0x00, 0x2f, 0xff, 0xff, 0xff, 0xff, 0x0f];
    assert_eq!(conn_step(ConnPhase::AwaitingPacket, &ev(PeekOutcome::Data(wraps))), close);
    assert_eq!(
        conn_step(ConnPhase::AwaitingPacket, &ev(PeekOutcome::Failed)),
        ConnStep { phase: ConnPhase::Closed, write: None, action: ConnAction::CloseWithError }
    );
}

#[test]
fn conn_unexpected_event_closes_with_error() {
    let failed = ConnStep { phase: ConnPhase::Closed, write: None, action: ConnAction::CloseWithError };
    assert_eq!(conn_step(ConnPhase::Screening, &ConnEvent::BackendReady), failed);
    assert_eq!(conn_step(ConnPhase::AwaitingPacket, &ConnEvent::GeoChecked(true)), failed);
    assert_eq!(conn_step(ConnPhase::ConnectingBackend, &ConnEvent::ForwardFailed), failed);
    assert_eq!(conn_step(ConnPhase::Closed, &ConnEvent::Forwarded), failed);
}

#[test]
fn backend_status_starts_offline() {
    assert_eq!(ServerStatus::initial(), ServerStatus::Offline);
}

#[test]
fn conn_backend_and_forwarding() {
    assert_eq!(
        conn_step(ConnPhase::ConnectingBackend, &ConnEvent::BackendReady),
        ConnStep { phase: ConnPhase::Forwarding, write: None, action: ConnAction::Forward }
    );
    assert_eq!(
        conn_step(ConnPhase::ConnectingBackend, &ConnEvent::BackendFailed).action,
        ConnAction::CloseWithError
    );
    assert_eq!(
        conn_step(ConnPhase::Forwarding, &ConnEvent::Forwarded),
        ConnStep { phase: ConnPhase::Closed, write: None, action: ConnAction::Close }
    );
    assert_eq!(
        conn_step(ConnPhase::Forwarding, &ConnEvent::ForwardFailed),
        ConnStep {
            phase: ConnPhase::Closed,
            write: Some(ServerStatus::Offline),
            action: ConnAction::CloseWithError
        }
    );
}

/// Runs events from the start; gives the actions taken.
fn run_connection(events: Vec<ConnEvent>) -> Vec<ConnAction> {
    let mut step = conn_start();
    let mut actions = vec![step.action];
    for event in events {
        step = conn_step(step.phase, &event);
        actions.push(step.action);
        if step.phase == ConnPhase::Closed {
            break;
        }
    }
    actions
}

#[test]
fn conn_trace_reaches_backend_only_after_both_checks() {
    let blocked = run_connection(vec![ConnEvent::GeoChecked(false)]);
    assert!(!blocked.contains(&ConnAction::ConnectBackend));

    let not_minecraft = run_connection(vec![
        ConnEvent::GeoChecked(true),
        ConnEvent::FirstPacket(PeekOutcome::Data(vec![0x16, 0x03, 0x01, 0x02, 0x00])),
    ]);
    assert!(!not_minecraft.contains(&ConnAction::ConnectBackend));
    assert_eq!(not_minecraft.last(), Some(&ConnAction::Close));

    let twice = run_connection(vec![
        ConnEvent::GeoChecked(true),
        ConnEvent::FirstPacket(PeekOutcome::Data(HANDSHAKE.to_vec())),
        ConnEvent::BackendReady,
        ConnEvent::ForwardFailed,
    ]);
    assert_eq!(twice.iter().filter(|a| **a == ConnAction::ConnectBackend).count(), 1);

    let served = run_connection(vec![
        ConnEvent::GeoChecked(true),
        ConnEvent::FirstPacket(PeekOutcome::Data(HANDSHAKE.to_vec())),
        ConnEvent::BackendReady,
        ConnEvent::Forwarded,
    ]);
    assert_eq!(
        served,
        vec![
            ConnAction::CheckGeo,
            ConnAction::PeekFirstPacket { timeout_secs: 5, max_len: 1024 },
            ConnAction::ConnectBackend,
            ConnAction::Forward,
            ConnAction::Close,
        ]
    );
}
