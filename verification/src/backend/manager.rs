use crate::backend::state::ServerStatus;
use crate::config::Config;
use vstd::prelude::*;

verus! {

/// Seconds a connection attempt to the backend may take.
pub const CONNECT_TIMEOUT_SECS: u64 = 5;

/// Seconds to wait before looking at a waking backend again.
pub const RETRY_DELAY_SECS: u64 = 10;

/// A process to start: a program, its arguments, and environment
/// variables removed from what it inherits.
pub struct CommandLine {
    pub program: String,
    pub args: Vec<String>,
    pub removed_env: Vec<String>,
}

/// The proxy settings that the wake command must not inherit.
pub open spec fn proxy_variables() -> Seq<Seq<char>> {
    seq![
        "http_proxy"@,
        "HTTP_PROXY"@,
        "https_proxy"@,
        "HTTPS_PROXY"@,
        "socks_proxy"@,
        "SOCKS_PROXY"@,
        "all_proxy"@,
        "ALL_PROXY"@,
    ]
}

/// The views of a list of strings.
pub open spec fn strings_view(v: Seq<String>) -> Seq<Seq<char>> {
    v.map_values(|s: String| s@)
}

/// The wake command of `config`, run through `sh -c` without the proxy
/// variables of the environment.
pub fn wake_command(config: &Config) -> (c: CommandLine)
    ensures
        c.program@ == "sh"@,
        strings_view(c.args@) == seq!["-c"@, config.wake_command@],
        strings_view(c.removed_env@) == proxy_variables(),
{
    let mut args: Vec<String> = Vec::new();
    args.push("-c".to_owned());
    args.push(config.wake_command.clone());
    let mut removed_env: Vec<String> = Vec::new();
    removed_env.push("http_proxy".to_owned());
    removed_env.push("HTTP_PROXY".to_owned());
    removed_env.push("https_proxy".to_owned());
    removed_env.push("HTTPS_PROXY".to_owned());
    removed_env.push("socks_proxy".to_owned());
    removed_env.push("SOCKS_PROXY".to_owned());
    removed_env.push("all_proxy".to_owned());
    removed_env.push("ALL_PROXY".to_owned());
    assert(strings_view(args@) =~= seq!["-c"@, config.wake_command@]);
    assert(strings_view(removed_env@) =~= proxy_variables());
    CommandLine { program: "sh".to_owned(), args, removed_env }
}

/// Where one connection stands in getting hold of the backend.
#[derive(Clone, Copy, PartialEq, Eq, Debug, Structural)]
pub enum WakePhase {
    /// Trying to connect to the backend (with a timeout).
    Connecting,
    /// The backend did not answer; looking at the shared status.
    Waiting,
    /// Running the wake command.
    Waking,
    /// Polling the backend until it accepts a connection.
    Probing,
    /// Connected: the socket is handed over.
    Connected,
    /// Gave up with an error.
    Failed,
}

/// What came of the last action.
#[derive(Clone, Copy, PartialEq, Eq, Debug, Structural)]
pub enum WakeEvent {
    /// The connection attempt succeeded.
    Connected,
    /// The connection attempt failed or timed out.
    ConnectFailed,
    /// The shared status was looked at (the step is given its value).
    StatusChecked,
    /// The wait is over.
    Slept,
    /// The wake command ran to its end; whether it reported success.
    CommandFinished(bool),
    /// The wake command could not be started or waited for.
    CommandFailed,
    /// The backend accepted a probing connection.
    ProbeSucceeded,
    /// The backend refused a probing connection.
    ProbeFailed,
}

/// What to do next.
#[derive(Clone, Copy, PartialEq, Eq, Debug, Structural)]
pub enum WakeAction {
    /// Connect to the backend, giving up after `timeout_secs`.
    Connect { timeout_secs: u64 },
    /// Look at the shared status again.
    CheckStatus,
    /// Wait `secs` seconds.
    Sleep { secs: u64 },
    /// Run the wake command.
    RunWakeCommand,
    /// Connect to the backend without a timeout, to see whether it is up.
    Probe,
    /// Hand the connected socket over.
    ReturnSocket,
    /// Give up with the wake command's error.
    ReturnError,
}

/// One decision: the next phase, the value to store in the shared status
/// (if any), and the next action. The caller holds the lock on the shared
/// status from reading the value it passes in until it has stored `write`.
#[derive(Clone, Copy, PartialEq, Eq, Debug, Structural)]
pub struct WakeStep {
    pub phase: WakePhase,
    pub write: Option<ServerStatus>,
    pub action: WakeAction,
}

/// The events that can follow in a phase.
pub open spec fn wake_accepts(phase: WakePhase, event: WakeEvent) -> bool {
    match phase {
        WakePhase::Connecting => event == WakeEvent::Connected || event == WakeEvent::ConnectFailed,
        WakePhase::Waiting => event == WakeEvent::StatusChecked || event == WakeEvent::Slept,
        WakePhase::Waking => event is CommandFinished || event == WakeEvent::CommandFailed,
        WakePhase::Probing => event == WakeEvent::ProbeSucceeded || event == WakeEvent::ProbeFailed
            || event == WakeEvent::Slept,
        WakePhase::Connected | WakePhase::Failed => false,
    }
}

/// The events that an action can end in.
pub open spec fn wake_produces(action: WakeAction, event: WakeEvent) -> bool {
    match action {
        WakeAction::Connect { .. } => event == WakeEvent::Connected || event == WakeEvent::ConnectFailed,
        WakeAction::CheckStatus => event == WakeEvent::StatusChecked,
        WakeAction::Sleep { .. } => event == WakeEvent::Slept,
        WakeAction::RunWakeCommand => event is CommandFinished || event == WakeEvent::CommandFailed,
        WakeAction::Probe => event == WakeEvent::ProbeSucceeded || event == WakeEvent::ProbeFailed,
        WakeAction::ReturnSocket | WakeAction::ReturnError => false,
    }
}

/// The first step: try to connect.
pub open spec fn wake_initial() -> WakeStep {
    WakeStep {
        phase: WakePhase::Connecting,
        write: None,
        action: WakeAction::Connect { timeout_secs: CONNECT_TIMEOUT_SECS },
    }
}

/// The step taken on an event that the phase does not expect: give up.
pub open spec fn wake_abort() -> WakeStep {
    WakeStep { phase: WakePhase::Failed, write: None, action: WakeAction::ReturnError }
}

/// The decision in `phase` on `event`, with `status` the shared status as
/// it stands.
///
/// A failed connection resets the status to `Offline` and looks at it
/// again. Looking at it: `Online` means try to connect again, `WakingUp`
/// means wait and look again, and `Offline` means take over the wake-up:
/// mark the backend `WakingUp` and run the wake command. Once the command
/// has run (whatever its exit status), probe the backend until it accepts
/// a connection, waiting between probes; then mark it `Online` and connect
/// anew. A successful connection marks it `Online` and ends the procedure;
/// a wake command that cannot be run ends it with an error, and so does an
/// event that the phase does not expect.
pub open spec fn wake_next(phase: WakePhase, status: ServerStatus, event: WakeEvent) -> WakeStep {
    if !wake_accepts(phase, event) {
        wake_abort()
    } else {
        match phase {
            WakePhase::Connecting => if event == WakeEvent::Connected {
                WakeStep {
                    phase: WakePhase::Connected,
                    write: Some(ServerStatus::Online),
                    action: WakeAction::ReturnSocket,
                }
            } else {
                WakeStep {
                    phase: WakePhase::Waiting,
                    write: Some(ServerStatus::Offline),
                    action: WakeAction::CheckStatus,
                }
            },
            WakePhase::Waiting => match status {
                ServerStatus::Online => wake_initial(),
                ServerStatus::WakingUp => WakeStep {
                    phase: WakePhase::Waiting,
                    write: None,
                    action: WakeAction::Sleep { secs: RETRY_DELAY_SECS },
                },
                ServerStatus::Offline => WakeStep {
                    phase: WakePhase::Waking,
                    write: Some(ServerStatus::WakingUp),
                    action: WakeAction::RunWakeCommand,
                },
            },
            WakePhase::Waking => if event == WakeEvent::CommandFailed {
                wake_abort()
            } else {
                WakeStep { phase: WakePhase::Probing, write: None, action: WakeAction::Probe }
            },
            _ => if event == WakeEvent::ProbeSucceeded {
                WakeStep {
                    phase: WakePhase::Connecting,
                    write: Some(ServerStatus::Online),
                    action: WakeAction::Connect { timeout_secs: CONNECT_TIMEOUT_SECS },
                }
            } else if event == WakeEvent::ProbeFailed {
                WakeStep {
                    phase: WakePhase::Probing,
                    write: None,
                    action: WakeAction::Sleep { secs: RETRY_DELAY_SECS },
                }
            } else {
                WakeStep { phase: WakePhase::Probing, write: None, action: WakeAction::Probe }
            },
        }
    }
}

/// The first step of getting hold of the backend: try to connect.
pub fn wake_start() -> (r: WakeStep)
    ensures
        r == wake_initial(),
{
    WakeStep {
        phase: WakePhase::Connecting,
        write: None,
        action: WakeAction::Connect { timeout_secs: CONNECT_TIMEOUT_SECS },
    }
}

/// Decides the next step of getting hold of the backend (see `wake_next`).
///
/// On every step: the wake command is only ever run by a step that found
/// the backend `Offline` and marked it `WakingUp` in the same step, so that,
/// under the lock, no other connection looking at the status at the same
/// time starts it as well; `Online` is only stored after the backend
/// accepted a connection, and `Offline` only after it refused one; a socket
/// is only handed over after a successful connection.
pub fn wake_step(phase: WakePhase, status: ServerStatus, event: WakeEvent) -> (r: WakeStep)
    ensures
        r == wake_next(phase, status, event),
        r.action == WakeAction::RunWakeCommand ==> phase == WakePhase::Waiting && status
            == ServerStatus::Offline && r.write == Some(ServerStatus::WakingUp),
        r.write == Some(ServerStatus::Online) ==> event == WakeEvent::Connected || event
            == WakeEvent::ProbeSucceeded,
        r.write == Some(ServerStatus::Offline) ==> event == WakeEvent::ConnectFailed,
        r.action == WakeAction::ReturnSocket ==> event == WakeEvent::Connected,
{
    let abort = WakeStep { phase: WakePhase::Failed, write: None, action: WakeAction::ReturnError };
    match phase {
        WakePhase::Connecting => match event {
            WakeEvent::Connected => WakeStep {
                phase: WakePhase::Connected,
                write: Some(ServerStatus::Online),
                action: WakeAction::ReturnSocket,
            },
            WakeEvent::ConnectFailed => WakeStep {
                phase: WakePhase::Waiting,
                write: Some(ServerStatus::Offline),
                action: WakeAction::CheckStatus,
            },
            _ => abort,
        },
        WakePhase::Waiting => match event {
            WakeEvent::StatusChecked | WakeEvent::Slept => match status {
                ServerStatus::Online => wake_start(),
                ServerStatus::WakingUp => WakeStep {
                    phase: WakePhase::Waiting,
                    write: None,
                    action: WakeAction::Sleep { secs: RETRY_DELAY_SECS },
                },
                ServerStatus::Offline => WakeStep {
                    phase: WakePhase::Waking,
                    write: Some(ServerStatus::WakingUp),
                    action: WakeAction::RunWakeCommand,
                },
            },
            _ => abort,
        },
        WakePhase::Waking => match event {
            WakeEvent::CommandFinished(_) => WakeStep {
                phase: WakePhase::Probing,
                write: None,
                action: WakeAction::Probe,
            },
            _ => abort,
        },
        WakePhase::Probing => match event {
            WakeEvent::ProbeSucceeded => WakeStep {
                phase: WakePhase::Connecting,
                write: Some(ServerStatus::Online),
                action: WakeAction::Connect { timeout_secs: CONNECT_TIMEOUT_SECS },
            },
            WakeEvent::ProbeFailed => WakeStep {
                phase: WakePhase::Probing,
                write: None,
                action: WakeAction::Sleep { secs: RETRY_DELAY_SECS },
            },
            WakeEvent::Slept => WakeStep {
                phase: WakePhase::Probing,
                write: None,
                action: WakeAction::Probe,
            },
            _ => abort,
        },
        _ => abort,
    }
}

/// A failed connection attempt, whatever the shared status (even while
/// another connection is waking the backend), resets the status to
/// `Offline` and goes on to look at it.
pub proof fn lemma_connect_failure_resets(status: ServerStatus)
    ensures
        wake_next(WakePhase::Connecting, status, WakeEvent::ConnectFailed) == (WakeStep {
            phase: WakePhase::Waiting,
            write: Some(ServerStatus::Offline),
            action: WakeAction::CheckStatus,
        }),
{
}

/// Looking at the shared status, a backend that another connection is
/// waking is waited for: the connection waits `RETRY_DELAY_SECS` and looks
/// again, writing nothing, neither giving up nor waking it a second time.
pub proof fn lemma_waking_backend_is_awaited(event: WakeEvent)
    requires
        event == WakeEvent::StatusChecked || event == WakeEvent::Slept,
    ensures
        wake_next(WakePhase::Waiting, ServerStatus::WakingUp, event) == (WakeStep {
            phase: WakePhase::Waiting,
            write: None,
            action: WakeAction::Sleep { secs: RETRY_DELAY_SECS },
        }),
{
}

/// Looking at the status decides by the status alone: a first look and a
/// look after waiting lead to the same step.
pub proof fn lemma_waiting_decides_by_status(status: ServerStatus)
    ensures
        wake_next(WakePhase::Waiting, status, WakeEvent::StatusChecked) == wake_next(
            WakePhase::Waiting,
            status,
            WakeEvent::Slept,
        ),
{
}

/// Outside the phase that looks at the shared status, a decision does not
/// depend on it.
pub proof fn lemma_status_only_read_when_waiting(
    phase: WakePhase,
    s1: ServerStatus,
    s2: ServerStatus,
    event: WakeEvent,
)
    requires
        phase != WakePhase::Waiting,
    ensures
        wake_next(phase, s1, event) == wake_next(phase, s2, event),
{
}

/// The procedure gives up with an error only when the wake command could
/// not be run, or on an event that the phase does not expect: a failed
/// connection, a look at the status, a wait or a probe never ends it.
pub proof fn lemma_gives_up_only_on_command_failure(
    phase: WakePhase,
    status: ServerStatus,
    event: WakeEvent,
)
    ensures
        wake_next(phase, status, event).action == WakeAction::ReturnError ==> event
            == WakeEvent::CommandFailed || !wake_accepts(phase, event),
{
}

/// An `Online` status seen while looking makes the connection try again
/// from the start; an `Offline` one makes it take over the wake-up.
pub proof fn lemma_waiting_on_settled_status(event: WakeEvent)
    requires
        event == WakeEvent::StatusChecked || event == WakeEvent::Slept,
    ensures
        wake_next(WakePhase::Waiting, ServerStatus::Online, event) == wake_initial(),
        wake_next(WakePhase::Waiting, ServerStatus::Offline, event).action == WakeAction::RunWakeCommand,
{
}

/// A connection that gets through hands its socket over and marks the
/// backend `Online`; a probe that gets through marks it `Online` and
/// starts over with a fresh connection attempt; whatever the status.
pub proof fn lemma_success_marks_online(status: ServerStatus)
    ensures
        wake_next(WakePhase::Connecting, status, WakeEvent::Connected) == (WakeStep {
            phase: WakePhase::Connected,
            write: Some(ServerStatus::Online),
            action: WakeAction::ReturnSocket,
        }),
        wake_next(WakePhase::Probing, status, WakeEvent::ProbeSucceeded) == (WakeStep {
            phase: WakePhase::Connecting,
            write: Some(ServerStatus::Online),
            action: WakeAction::Connect { timeout_secs: CONNECT_TIMEOUT_SECS },
        }),
{
}

/// Once the wake command has run, successful or not, the backend is
/// probed; a refused probe is followed by a wait and then another probe;
/// none of this touches the shared status.
pub proof fn lemma_probing_until_up(status: ServerStatus, success: bool)
    ensures
        wake_next(WakePhase::Waking, status, WakeEvent::CommandFinished(success)) == (WakeStep {
            phase: WakePhase::Probing,
            write: None,
            action: WakeAction::Probe,
        }),
        wake_next(WakePhase::Probing, status, WakeEvent::ProbeFailed) == (WakeStep {
            phase: WakePhase::Probing,
            write: None,
            action: WakeAction::Sleep { secs: RETRY_DELAY_SECS },
        }),
        wake_next(WakePhase::Probing, status, WakeEvent::Slept) == (WakeStep {
            phase: WakePhase::Probing,
            write: None,
            action: WakeAction::Probe,
        }),
        wake_next(WakePhase::Waking, status, WakeEvent::CommandFailed) == wake_abort(),
{
}

/// The steps never leave the protocol: every event that the action of a
/// step can end in is one that the step's phase accepts, from the first
/// step on; and the procedure has ended exactly when the action hands back
/// a socket or an error.
pub proof fn lemma_wake_protocol(
    phase: WakePhase,
    status: ServerStatus,
    event: WakeEvent,
    next: WakeEvent,
)
    requires
        wake_accepts(phase, event),
    ensures
        wake_produces(wake_initial().action, next) ==> wake_accepts(wake_initial().phase, next),
        wake_produces(wake_next(phase, status, event).action, next) ==> wake_accepts(
            wake_next(phase, status, event).phase,
            next,
        ),
        (wake_next(phase, status, event).action == WakeAction::ReturnSocket
            || wake_next(phase, status, event).action == WakeAction::ReturnError) <==> (wake_next(
            phase,
            status,
            event,
        ).phase == WakePhase::Connected || wake_next(phase, status, event).phase
            == WakePhase::Failed),
{
}

} // verus!
