//! What the client does with each WebSocket frame it receives.
use vstd::prelude::*;

use crate::error::Error;
use crate::notification::{notified_task_name, parse_notification, task_name_bytes};

verus! {

/// The kind of a received WebSocket frame (its opcode).
#[derive(Debug, Clone, Copy, PartialEq, Eq, Structural)]
pub enum FrameKind {
    Text,
    Binary,
    Ping,
    Pong,
    Close,
    Continue,
}

/// What to do after a frame that does not end the session.
#[derive(Debug)]
pub enum FrameAction {
    /// A task name for the screen.
    Display(heapless::String<256>),
    /// Answer with a pong frame that carries the ping's payload.
    SendPong,
    /// Nothing to do.
    Ignore,
}

/// Decides what a received frame calls for. Text and binary frames carry
/// notifications; a ping is answered with a pong; a close ends the session.
pub fn handle_frame(kind: FrameKind, payload: &[u8]) -> (r: Result<FrameAction, Error>)
    ensures
        kind == FrameKind::Close <==> r == Err::<FrameAction, Error>(Error::Close),
        r is Err ==> kind == FrameKind::Close,
        kind == FrameKind::Ping <==> r matches Ok(FrameAction::SendPong),
        r matches Ok(FrameAction::Display(name)) ==> (kind == FrameKind::Text || kind
            == FrameKind::Binary) && notified_task_name(payload@) == Some(task_name_bytes(name)),
        (kind == FrameKind::Text || kind == FrameKind::Binary) && notified_task_name(payload@) is Some
            ==> r matches Ok(FrameAction::Display(_)),
        r matches Ok(FrameAction::Ignore) <==> (kind == FrameKind::Pong || kind
            == FrameKind::Continue || ((kind == FrameKind::Text || kind == FrameKind::Binary)
            && notified_task_name(payload@) is None)),
{
    match kind {
        FrameKind::Text | FrameKind::Binary => match parse_notification(payload) {
            Some(name) => Ok(FrameAction::Display(name)),
            None => Ok(FrameAction::Ignore),
        },
        FrameKind::Close => Err(Error::Close),
        FrameKind::Ping => Ok(FrameAction::SendPong),
        FrameKind::Pong | FrameKind::Continue => Ok(FrameAction::Ignore),
    }
}

} // verus!
