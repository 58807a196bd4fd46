use crate::backend::state::ServerStatus;
use crate::filter::handshake::{
    handshake_body, handshake_packet, is_valid_handshake, lemma_handshake_accepts_every_encoding,
    spec_handshake,
};
use crate::protocol::varint::{encode_varint, lemma_varint_round_trip};
use vstd::utf8::valid_utf8;
use vstd::prelude::*;

verus! {

/// Seconds a client has to send its first packet.
pub const FIRST_PACKET_TIMEOUT_SECS: u64 = 5;

/// The most bytes of the first packet that are looked at.
pub const MAX_PACKET_SIZE: usize = 1024;

/// Where a client connection stands.
#[derive(Clone, Copy, PartialEq, Eq, Debug, Structural)]
pub enum ConnPhase {
    /// Checking the client's address against the GeoIP database.
    Screening,
    /// Waiting for the client's first packet.
    AwaitingPacket,
    /// Getting hold of the backend (waking it if need be).
    ConnectingBackend,
    /// Copying traffic both ways.
    Forwarding,
    /// Done: the connection is dropped.
    Closed,
}

/// What peeking at the client's first packet gave.
#[derive(Debug)]
pub enum PeekOutcome {
    /// The bytes that arrived (none: the client closed the connection).
    Data(Vec<u8>),
    /// Reading failed.
    Failed,
    /// Nothing arrived in time.
    TimedOut,
}

/// What came of the last action.
#[derive(Debug)]
pub enum ConnEvent {
    /// The GeoIP verdict on the client's address.
    GeoChecked(bool),
    /// The first packet, peeked at (not consumed).
    FirstPacket(PeekOutcome),
    /// A socket to the backend is at hand.
    BackendReady,
    /// No socket to the backend could be had.
    BackendFailed,
    /// Forwarding ended normally.
    Forwarded,
    /// Forwarding ended in an error.
    ForwardFailed,
}

/// What to do next.
#[derive(Clone, Copy, PartialEq, Eq, Debug, Structural)]
pub enum ConnAction {
    /// Check the client's address.
    CheckGeo,
    /// Peek at the first packet: at most `max_len` bytes, waiting at most
    /// `timeout_secs` seconds.
    PeekFirstPacket { timeout_secs: u64, max_len: usize },
    /// Get hold of the backend.
    ConnectBackend,
    /// Copy traffic between the client and the backend.
    Forward,
    /// Drop the connection; all is well.
    Close,
    /// Drop the connection and report an error.
    CloseWithError,
}

/// One decision: the next phase, the value to store in the shared backend
/// status (if any), and the next action.
#[derive(Clone, Copy, PartialEq, Eq, Debug, Structural)]
pub struct ConnStep {
    pub phase: ConnPhase,
    pub write: Option<ServerStatus>,
    pub action: ConnAction,
}

/// The events that can follow in a phase.
pub open spec fn conn_accepts(phase: ConnPhase, event: ConnEvent) -> bool {
    match phase {
        ConnPhase::Screening => event is GeoChecked,
        ConnPhase::AwaitingPacket => event is FirstPacket,
        ConnPhase::ConnectingBackend => event is BackendReady || event is BackendFailed,
        ConnPhase::Forwarding => event is Forwarded || event is ForwardFailed,
        ConnPhase::Closed => false,
    }
}

/// The first step of a connection: check the client's address.
pub open spec fn conn_initial() -> ConnStep {
    ConnStep { phase: ConnPhase::Screening, write: None, action: ConnAction::CheckGeo }
}

/// Closes the connection, leaving the shared status alone.
pub open spec fn close_with(action: ConnAction) -> ConnStep {
    ConnStep { phase: ConnPhase::Closed, write: None, action }
}

/// The decision in `phase` on `event`.
///
/// A client the GeoIP check refuses is dropped. Otherwise its first packet
/// is awaited: a read error closes with an error; a timeout, a closed
/// connection (no bytes) or bytes that are not a handshake close quietly;
/// a handshake leads on to the backend. Failing to get the backend closes
/// with an error; once forwarding ends the connection closes, and if it
/// ended in an error the backend is marked `Offline` and the error
/// reported.
pub open spec fn conn_next(phase: ConnPhase, event: ConnEvent) -> ConnStep {
    if !conn_accepts(phase, event) {
        close_with(ConnAction::CloseWithError)
    } else {
    match event {
        ConnEvent::GeoChecked(allowed) => if allowed {
            ConnStep {
                phase: ConnPhase::AwaitingPacket,
                write: None,
                action: ConnAction::PeekFirstPacket {
                    timeout_secs: FIRST_PACKET_TIMEOUT_SECS,
                    max_len: MAX_PACKET_SIZE,
                },
            }
        } else {
            close_with(ConnAction::Close)
        },
        ConnEvent::FirstPacket(outcome) => match outcome {
            PeekOutcome::Data(bytes) => if bytes@.len() > 0 && spec_handshake(bytes@) is Ok {
                ConnStep {
                    phase: ConnPhase::ConnectingBackend,
                    write: None,
                    action: ConnAction::ConnectBackend,
                }
            } else {
                close_with(ConnAction::Close)
            },
            PeekOutcome::Failed => close_with(ConnAction::CloseWithError),
            PeekOutcome::TimedOut => close_with(ConnAction::Close),
        },
        ConnEvent::BackendReady => ConnStep {
            phase: ConnPhase::Forwarding,
            write: None,
            action: ConnAction::Forward,
        },
        ConnEvent::BackendFailed => close_with(ConnAction::CloseWithError),
        ConnEvent::Forwarded => close_with(ConnAction::Close),
        ConnEvent::ForwardFailed => ConnStep {
            phase: ConnPhase::Closed,
            write: Some(ServerStatus::Offline),
            action: ConnAction::CloseWithError,
        },
    }
    }
}

/// The events that an action can end in.
pub open spec fn conn_produces(action: ConnAction, event: ConnEvent) -> bool {
    match action {
        ConnAction::CheckGeo => event is GeoChecked,
        ConnAction::PeekFirstPacket { .. } => event is FirstPacket,
        ConnAction::ConnectBackend => event is BackendReady || event is BackendFailed,
        ConnAction::Forward => event is Forwarded || event is ForwardFailed,
        ConnAction::Close | ConnAction::CloseWithError => false,
    }
}

/// The steps never leave the protocol: every event that the action of a
/// step can end in is one that the step's phase accepts, from the first
/// step on; and the connection is over exactly when the action closes it.
pub proof fn lemma_conn_protocol(phase: ConnPhase, event: ConnEvent, next: ConnEvent)
    requires
        conn_accepts(phase, event),
    ensures
        conn_produces(conn_initial().action, next) ==> conn_accepts(conn_initial().phase, next),
        conn_produces(conn_next(phase, event).action, next) ==> conn_accepts(
            conn_next(phase, event).phase,
            next,
        ),
        (conn_next(phase, event).action == ConnAction::Close || conn_next(phase, event).action
            == ConnAction::CloseWithError) <==> conn_next(phase, event).phase == ConnPhase::Closed,
{
}

/// The first step of a connection: check the client's address.
pub fn conn_start() -> (r: ConnStep)
    ensures
        r == conn_initial(),
{
    ConnStep { phase: ConnPhase::Screening, write: None, action: ConnAction::CheckGeo }
}

/// Decides the next step of a client connection (see `conn_next`); an
/// event that the phase does not expect closes it with an error.
///
/// The shared backend status is only touched after forwarding failed, and
/// then set to `Offline`.
pub fn conn_step(phase: ConnPhase, event: &ConnEvent) -> (r: ConnStep)
    ensures
        r == conn_next(phase, *event),
        r.write is Some <==> phase == ConnPhase::Forwarding && *event is ForwardFailed,
        r.write is Some ==> r.write == Some(ServerStatus::Offline),
{
    let accepted = match phase {
        ConnPhase::Screening => matches!(event, ConnEvent::GeoChecked(_)),
        ConnPhase::AwaitingPacket => matches!(event, ConnEvent::FirstPacket(_)),
        ConnPhase::ConnectingBackend => matches!(event, ConnEvent::BackendReady | ConnEvent::BackendFailed),
        ConnPhase::Forwarding => matches!(event, ConnEvent::Forwarded | ConnEvent::ForwardFailed),
        ConnPhase::Closed => false,
    };
    if !accepted {
        return ConnStep { phase: ConnPhase::Closed, write: None, action: ConnAction::CloseWithError };
    }
    match event {
        ConnEvent::GeoChecked(allowed) => {
            if *allowed {
                ConnStep {
                    phase: ConnPhase::AwaitingPacket,
                    write: None,
                    action: ConnAction::PeekFirstPacket {
                        timeout_secs: FIRST_PACKET_TIMEOUT_SECS,
                        max_len: MAX_PACKET_SIZE,
                    },
                }
            } else {
                ConnStep { phase: ConnPhase::Closed, write: None, action: ConnAction::Close }
            }
        },
        ConnEvent::FirstPacket(outcome) => match outcome {
            PeekOutcome::Data(bytes) => {
                if bytes.len() > 0 && is_valid_handshake(bytes.as_slice()) {
                    ConnStep {
                        phase: ConnPhase::ConnectingBackend,
                        write: None,
                        action: ConnAction::ConnectBackend,
                    }
                } else {
                    ConnStep { phase: ConnPhase::Closed, write: None, action: ConnAction::Close }
                }
            },
            PeekOutcome::Failed => ConnStep {
                phase: ConnPhase::Closed,
                write: None,
                action: ConnAction::CloseWithError,
            },
            PeekOutcome::TimedOut => ConnStep {
                phase: ConnPhase::Closed,
                write: None,
                action: ConnAction::Close,
            },
        },
        ConnEvent::BackendReady => ConnStep {
            phase: ConnPhase::Forwarding,
            write: None,
            action: ConnAction::Forward,
        },
        ConnEvent::BackendFailed => ConnStep {
            phase: ConnPhase::Closed,
            write: None,
            action: ConnAction::CloseWithError,
        },
        ConnEvent::Forwarded => ConnStep {
            phase: ConnPhase::Closed,
            write: None,
            action: ConnAction::Close,
        },
        ConnEvent::ForwardFailed => ConnStep {
            phase: ConnPhase::Closed,
            write: Some(ServerStatus::Offline),
            action: ConnAction::CloseWithError,
        },
    }
}

/// A first packet leads on to the backend exactly when it holds bytes that
/// form a handshake; anything else closes the connection quietly. Which
/// handshake it is (status request or login, any version, address or port)
/// makes no difference.
pub proof fn lemma_first_packet_decides_backend(bytes: Vec<u8>)
    ensures
        ({
            let step = conn_next(
                ConnPhase::AwaitingPacket,
                ConnEvent::FirstPacket(PeekOutcome::Data(bytes)),
            );
            &&& step.action == ConnAction::ConnectBackend <==> bytes@.len() > 0 && spec_handshake(
                bytes@,
            ) is Ok
            &&& step.action == ConnAction::ConnectBackend <==> step.phase
                == ConnPhase::ConnectingBackend
            &&& step.action != ConnAction::ConnectBackend ==> step.action == ConnAction::Close
            &&& step.write is None
        }),
{
}

/// Every handshake built from a protocol version, a UTF-8 server address,
/// a port and a next state of 1 (status) or 2 (login) leads on to the
/// backend.
pub proof fn lemma_every_handshake_reaches_backend(
    bytes: Vec<u8>,
    version: i32,
    address: Seq<u8>,
    port_hi: u8,
    port_lo: u8,
    next_state: i32,
)
    requires
        bytes@ == handshake_packet(version, address, port_hi, port_lo, next_state),
        valid_utf8(address),
        next_state == 1 || next_state == 2,
        handshake_body(version, address, port_hi, port_lo, next_state).len() < 0x8000_0000,
    ensures
        conn_next(ConnPhase::AwaitingPacket, ConnEvent::FirstPacket(PeekOutcome::Data(bytes)))
            == (ConnStep {
            phase: ConnPhase::ConnectingBackend,
            write: None,
            action: ConnAction::ConnectBackend,
        }),
{
    lemma_handshake_accepts_every_encoding(version, address, port_hi, port_lo, next_state);
    let body = handshake_body(version, address, port_hi, port_lo, next_state);
    lemma_varint_round_trip(body.len() as i32, body);
    assert(bytes@.len() == encode_varint(body.len() as i32).len() + body.len());
}

/// The GeoIP verdict decides whether the first packet is awaited (for at
/// most `FIRST_PACKET_TIMEOUT_SECS` and `MAX_PACKET_SIZE` bytes) or the
/// client is dropped quietly; a read error closes with an error and a
/// timeout quietly.
pub proof fn lemma_screening_outcomes(allowed: bool)
    ensures
        conn_next(ConnPhase::Screening, ConnEvent::GeoChecked(allowed)) == (if allowed {
            ConnStep {
                phase: ConnPhase::AwaitingPacket,
                write: None,
                action: ConnAction::PeekFirstPacket {
                    timeout_secs: FIRST_PACKET_TIMEOUT_SECS,
                    max_len: MAX_PACKET_SIZE,
                },
            }
        } else {
            ConnStep { phase: ConnPhase::Closed, write: None, action: ConnAction::Close }
        }),
        conn_next(ConnPhase::AwaitingPacket, ConnEvent::FirstPacket(PeekOutcome::Failed)) == (
        ConnStep { phase: ConnPhase::Closed, write: None, action: ConnAction::CloseWithError }),
        conn_next(ConnPhase::AwaitingPacket, ConnEvent::FirstPacket(PeekOutcome::TimedOut)) == (
        ConnStep { phase: ConnPhase::Closed, write: None, action: ConnAction::Close }),
{
}

/// With the backend at hand traffic is forwarded; without it the
/// connection closes with an error. Forwarding that ends normally closes
/// quietly; forwarding that fails marks the backend `Offline` and closes
/// with an error.
pub proof fn lemma_backend_outcomes()
    ensures
        conn_next(ConnPhase::ConnectingBackend, ConnEvent::BackendReady) == (ConnStep {
            phase: ConnPhase::Forwarding,
            write: None,
            action: ConnAction::Forward,
        }),
        conn_next(ConnPhase::ConnectingBackend, ConnEvent::BackendFailed) == (ConnStep {
            phase: ConnPhase::Closed,
            write: None,
            action: ConnAction::CloseWithError,
        }),
        conn_next(ConnPhase::Forwarding, ConnEvent::Forwarded) == (ConnStep {
            phase: ConnPhase::Closed,
            write: None,
            action: ConnAction::Close,
        }),
        conn_next(ConnPhase::Forwarding, ConnEvent::ForwardFailed) == (ConnStep {
            phase: ConnPhase::Closed,
            write: Some(ServerStatus::Offline),
            action: ConnAction::CloseWithError,
        }),
{
}

/// The phase a connection reaches through `events`, from the start; `None`
/// when some event comes in a phase that does not accept it.
pub open spec fn conn_run(events: Seq<ConnEvent>) -> Option<ConnPhase>
    decreases events.len(),
{
    if events.len() == 0 {
        Some(conn_initial().phase)
    } else {
        match conn_run(events.drop_last()) {
            Some(phase) => if conn_accepts(phase, events.last()) {
                Some(conn_next(phase, events.last()).phase)
            } else {
                None
            },
            None => None,
        }
    }
}

/// Whether `events` holds a passed GeoIP check.
pub open spec fn geo_passed(events: Seq<ConnEvent>) -> bool {
    exists|i: int| 0 <= i < events.len() && #[trigger] events[i] == ConnEvent::GeoChecked(true)
}

/// Whether `events` holds a first packet that is a handshake.
pub open spec fn handshake_seen(events: Seq<ConnEvent>) -> bool {
    exists|i: int|
        0 <= i < events.len() && (#[trigger] events[i] matches ConnEvent::FirstPacket(
            PeekOutcome::Data(bytes),
        ) && spec_handshake(bytes@) is Ok)
}

/// Only a client whose address passed the GeoIP check and whose first
/// packet is a Minecraft handshake gets to the backend: a connection that
/// is getting hold of the backend, or forwarding to it, has seen both.
pub proof fn lemma_backend_only_after_screening(events: Seq<ConnEvent>)
    requires
        conn_run(events) == Some(ConnPhase::ConnectingBackend) || conn_run(events) == Some(
            ConnPhase::Forwarding,
        ),
    ensures
        geo_passed(events),
        handshake_seen(events),
    decreases events.len(),
{
    let prefix = events.drop_last();
    let last = events.last();
    let phase = conn_run(prefix).unwrap();
    if phase == ConnPhase::ConnectingBackend {
        lemma_backend_only_after_screening(prefix);
        let i = choose|i: int| 0 <= i < prefix.len() && #[trigger] prefix[i] == ConnEvent::GeoChecked(true);
        assert(events[i] == prefix[i]);
        let j = choose|j: int|
            0 <= j < prefix.len() && (#[trigger] prefix[j] matches ConnEvent::FirstPacket(
                PeekOutcome::Data(bytes),
            ) && spec_handshake(bytes@) is Ok);
        assert(events[j] == prefix[j]);
    } else {
        assert(phase == ConnPhase::AwaitingPacket);
        assert(events[events.len() - 1] == last);
        lemma_packet_wait_after_screening(prefix);
        let i = choose|i: int| 0 <= i < prefix.len() && #[trigger] prefix[i] == ConnEvent::GeoChecked(true);
        assert(events[i] == prefix[i]);
    }
}

/// A connection waiting for the first packet has passed the GeoIP check.
proof fn lemma_packet_wait_after_screening(events: Seq<ConnEvent>)
    requires
        conn_run(events) == Some(ConnPhase::AwaitingPacket),
    ensures
        geo_passed(events),
{
    let prefix = events.drop_last();
    assert(events.len() > 0);
    let phase = conn_run(prefix).unwrap();
    assert(phase == ConnPhase::Screening);
    assert(events[events.len() - 1] == events.last());
}

/// How far along a connection's life a phase lies.
pub open spec fn conn_rank(phase: ConnPhase) -> int {
    match phase {
        ConnPhase::Screening => 0,
        ConnPhase::AwaitingPacket => 1,
        ConnPhase::ConnectingBackend => 2,
        ConnPhase::Forwarding => 3,
        ConnPhase::Closed => 4,
    }
}

/// The action a connection takes after `events`, from the start; `None`
/// when some event comes in a phase that does not accept it.
pub open spec fn conn_last_action(events: Seq<ConnEvent>) -> Option<ConnAction> {
    if events.len() == 0 {
        Some(conn_initial().action)
    } else {
        match conn_run(events.drop_last()) {
            Some(phase) => if conn_accepts(phase, events.last()) {
                Some(conn_next(phase, events.last()).action)
            } else {
                None
            },
            None => None,
        }
    }
}

/// Every accepted event moves a connection strictly forward.
pub proof fn lemma_conn_step_advances(phase: ConnPhase, event: ConnEvent)
    requires
        conn_accepts(phase, event),
    ensures
        conn_rank(conn_next(phase, event).phase) > conn_rank(phase),
{
}

/// Along a run, an earlier point lies strictly behind a later one.
proof fn lemma_conn_run_monotone(events: Seq<ConnEvent>, i: nat)
    requires
        conn_run(events) is Some,
        i < events.len(),
    ensures
        conn_run(events.take(i as int)) is Some,
        conn_rank(conn_run(events.take(i as int)).unwrap()) < conn_rank(conn_run(events).unwrap()),
    decreases events.len(),
{
    let d = events.drop_last();
    lemma_conn_step_advances(conn_run(d).unwrap(), events.last());
    if i + 1 == events.len() {
        assert(events.take(i as int) =~= d);
    } else {
        lemma_conn_run_monotone(d, i);
        assert(d.take(i as int) =~= events.take(i as int));
    }
}

/// A connection asks for the backend at most once: no two points of a run
/// both take the action `ConnectBackend`.
pub proof fn lemma_backend_requested_once(events: Seq<ConnEvent>, i: nat, j: nat)
    requires
        conn_run(events) is Some,
        i < j <= events.len(),
    ensures
        !(conn_last_action(events.take(i as int)) == Some(ConnAction::ConnectBackend)
            && conn_last_action(events.take(j as int)) == Some(ConnAction::ConnectBackend)),
{
    let a = events.take(i as int);
    let b = events.take(j as int);
    if conn_last_action(a) == Some(ConnAction::ConnectBackend) && conn_last_action(b) == Some(
        ConnAction::ConnectBackend,
    ) {
        if j < events.len() {
            lemma_conn_run_monotone(events, j);
        } else {
            assert(b =~= events);
        }
        lemma_conn_run_monotone(b, i);
        assert(b.take(i as int) =~= a);
        assert(a.len() > 0);
        assert(conn_run(a) == Some(ConnPhase::ConnectingBackend));
        assert(conn_run(b) == Some(ConnPhase::ConnectingBackend));
    }
}

} // verus!
