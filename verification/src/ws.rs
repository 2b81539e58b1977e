//! WebSocket session logic: authenticating the uid a client presents,
//! classifying inbound frames, and the per-connection state machine that
//! the socket task runs over its two input sources.

use vstd::prelude::*;
use crate::codec::{parse_i32, spec_parse_i32};
use crate::text::{spec_trim, trim_str};

verus! {

/// A connection with no ping for more than this many seconds is evicted by
/// the next staleness sweep.
pub const PING_TIMEOUT_SECS: u64 = 300;

pub fn ping_timeout_secs() -> (r: u64)
    ensures
        r == 300,
{
    PING_TIMEOUT_SECS
}

/// The query string a client connects with.
#[derive(Debug, Clone, PartialEq)]
pub struct WsQuery {
    pub uid: Option<String>,
}

/// Why a websocket upgrade is refused.
#[derive(Clone, Copy, Debug, PartialEq, Eq, Structural)]
pub enum WsAuthError {
    MissingUid,
    InvalidUid,
}

/// The uid a connecting client presents: required, trimmed, and a 32-bit
/// integer, or the upgrade is refused.
pub fn authenticate(q: &WsQuery) -> (r: Result<i32, WsAuthError>)
    ensures
        match q.uid {
            None => r == Err::<i32, WsAuthError>(WsAuthError::MissingUid),
            Some(s) => match spec_parse_i32(spec_trim(s@)) {
                Some(v) => r == Ok::<i32, WsAuthError>(v),
                None => r == Err::<i32, WsAuthError>(WsAuthError::InvalidUid),
            },
        },
{
    match &q.uid {
        None => Err(WsAuthError::MissingUid),
        Some(s) => {
            let trimmed: &str = trim_str(s.as_str());
            match parse_i32(trimmed) {
                Some(v) => Ok(v),
                None => Err(WsAuthError::InvalidUid),
            }
        },
    }
}

/// The frame type named by a client frame, if the text parses as JSON with
/// a string under "type"; a function of the text alone.
pub uninterp spec fn frame_type_of(text: Seq<char>) -> Option<Seq<char>>;

/// Relies on serde_json::from_str, Value::get and Value::as_str: extracts
/// the "type" field of a JSON frame as text, deterministically in the
/// frame's text alone; anything unparseable or untyped yields nothing.
#[verifier::external_body]
fn frame_type(text: &str) -> (r: Option<String>)
    ensures
        r is Some <==> frame_type_of(text@) is Some,
        r matches Some(t) ==> frame_type_of(text@) == Some(t@),
{
    match serde_json::from_str::<serde_json::Value>(text) {
        Ok(v) => match v.get("type").and_then(|t| t.as_str()) {
            Some(s) => Some(s.to_string()),
            None => None,
        },
        Err(_) => None,
    }
}

/// Whether a client frame is a keepalive ping.
pub fn is_ping_frame(text: &str) -> (r: bool)
    ensures
        r == (frame_type_of(text@) == Some("ping"@)),
{
    match frame_type(text) {
        Some(t) => t == String::from_str("ping"),
        None => false,
    }
}

/// What one turn of the per-connection task sees: one of its two input
/// sources became ready, or one of them ended.
#[derive(Debug, Clone, PartialEq)]
pub enum SocketEvent {
    /// A server push arrived on the connection's channel.
    PushReady(String),
    /// The push channel closed.
    PushClosed,
    /// The client sent a text frame.
    ClientText(String),
    /// The client sent a non-text frame.
    ClientOtherFrame,
    /// The client closed the socket or the transport failed.
    ClientClosedOrError,
}

/// What the task does with the event.
#[derive(Debug, Clone, PartialEq)]
pub enum SocketAction {
    /// Write this text to the socket.
    Forward(String),
    /// Refresh the keepalive clock and reply with `pong_text`.
    Pong,
    /// Do nothing and wait for the next event.
    Ignore,
    /// Leave the loop and deregister the connection.
    Disconnect,
}

pub open spec fn spec_socket_step(ev: SocketEvent) -> SocketAction {
    match ev {
        SocketEvent::PushReady(text) => SocketAction::Forward(text),
        SocketEvent::PushClosed => SocketAction::Disconnect,
        SocketEvent::ClientText(text) => if frame_type_of(text@) == Some("ping"@) {
            SocketAction::Pong
        } else {
            SocketAction::Ignore
        },
        SocketEvent::ClientOtherFrame => SocketAction::Ignore,
        SocketEvent::ClientClosedOrError => SocketAction::Disconnect,
    }
}

/// The per-connection state machine, one fair turn at a time: forward
/// server pushes, answer a ping (the caller refreshes the keepalive clock
/// and writes the pong), ignore other client traffic, and disconnect when
/// either source ends — the only non-sweep path to removal.
pub fn socket_step(ev: SocketEvent) -> (act: SocketAction)
    ensures
        act == spec_socket_step(ev),
{
    match ev {
        SocketEvent::PushReady(text) => SocketAction::Forward(text),
        SocketEvent::PushClosed => SocketAction::Disconnect,
        SocketEvent::ClientText(text) => {
            if is_ping_frame(text.as_str()) {
                SocketAction::Pong
            } else {
                SocketAction::Ignore
            }
        },
        SocketEvent::ClientOtherFrame => SocketAction::Ignore,
        SocketEvent::ClientClosedOrError => SocketAction::Disconnect,
    }
}

/// The pong frame sent in reply to a keepalive ping.
pub fn pong_text() -> (r: &'static str)
    ensures
        r@ == "{\"type\":\"pong\"}"@,
{
    "{\"type\":\"pong\"}"
}

} // verus!
