//! The endpoint's dispatch rules and read-timeout arithmetic.
//!
//! One endpoint task owns one client socket.  For each inbound frame it
//! refreshes the read deadline and acts by the table below; when the
//! deadline passes with no inbound frame at all, the endpoint emits a
//! remove event and closes.

use crate::protocol::ChangeState;
use crate::protocol::SocketMessage;
use vstd::prelude::*;

verus! {

/// What the endpoint does with one inbound frame.
#[derive(Debug)]
pub enum EndpointAction {
    /// Echo a ping back; the deadline was already refreshed.
    EchoPing,
    /// Ask the coordinator for this user's status and reply with it.
    QueryStatus,
    /// Forward a state-change event to the coordinator.
    ToCoordinator(ChangeState),
    /// Hand chat text to the relay; without an installed relay it is
    /// dropped silently.
    ToRelay(String),
    /// A tag the client may not send; drop it and carry on.
    DropFrame,
    /// Emit a remove event for this user and close the socket.
    Shutdown,
}

/// Decides the endpoint's reaction to one decoded inbound frame.  A
/// malformed frame — one the codec refused — and a close notice shut the
/// endpoint down; a ping is echoed; queries and state changes go to the
/// coordinator; chat text goes to the relay; server-only tags are
/// dropped.
pub fn dispatch_frame(frame: Option<SocketMessage>) -> (r: EndpointAction)
    ensures
        frame is None ==> r == EndpointAction::Shutdown,
        frame matches Some(m) ==> {
            &&& (m is Ping ==> r == EndpointAction::EchoPing)
            &&& (m is GetStatus ==> r == EndpointAction::QueryStatus)
            &&& (m matches SocketMessage::StateChange(cs) ==> r == EndpointAction::ToCoordinator(
                cs,
            ))
            &&& (m matches SocketMessage::User(t) ==> r == EndpointAction::ToRelay(t))
            &&& (m is ConnectionClosed ==> r == EndpointAction::Shutdown)
            &&& (m is Pong || m is Info || m is Status || m is PeerScores
                ==> r == EndpointAction::DropFrame)
        },
{
    match frame {
        None => EndpointAction::Shutdown,
        Some(m) => match m {
            SocketMessage::Ping => EndpointAction::EchoPing,
            SocketMessage::GetStatus => EndpointAction::QueryStatus,
            SocketMessage::StateChange(cs) => EndpointAction::ToCoordinator(cs),
            SocketMessage::User(t) => EndpointAction::ToRelay(t),
            SocketMessage::ConnectionClosed => EndpointAction::Shutdown,
            _ => EndpointAction::DropFrame,
        },
    }
}

/// The new read deadline after an inbound frame arrived now.  Every
/// inbound frame, a ping included, pushes the deadline a full timeout
/// ahead; at the top of the clock's range the deadline saturates.
pub fn refresh_deadline(now_millis: u64, timeout_secs: u64) -> (r: u64)
    ensures
        now_millis + timeout_secs * 1000 <= u64::MAX ==> r == now_millis + timeout_secs * 1000,
        now_millis + timeout_secs * 1000 > u64::MAX ==> r == u64::MAX,
        r >= now_millis,
{
    let window = if timeout_secs <= u64::MAX / 1000 {
        timeout_secs * 1000
    } else {
        u64::MAX
    };
    proof {
        if timeout_secs > u64::MAX / 1000 {
            assert(timeout_secs * 1000 > u64::MAX) by (nonlinear_arith)
                requires
                    timeout_secs > u64::MAX / 1000,
            ;
        }
    }
    now_millis.saturating_add(window)
}

/// Has the read deadline passed?  When it has, the endpoint emits a
/// remove event for its user and closes the socket.
pub fn deadline_expired(now_millis: u64, deadline: u64) -> (r: bool)
    ensures
        r == (now_millis > deadline),
{
    now_millis > deadline
}

} // verus!
