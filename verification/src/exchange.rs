//! What the server does with each frame a client sends: the decisions of a
//! connection, apart from the waiting, which the caller does.

use vstd::prelude::*;
use crate::error::RpcError;
use crate::json::JsonValue;
use crate::message::{holds_error_text, RpcMessage, RpcResponse};
use crate::registry::RpcMethodRegistry;

verus! {

/// A WebSocket frame as the server tells frames apart. The close reason and
/// the contents of a raw frame are left out: nothing is done with them.
#[derive(Debug)]
pub enum Frame {
    Text(String),
    Binary(Vec<u8>),
    Ping(Vec<u8>),
    Pong(Vec<u8>),
    Close,
    Raw,
}

/// What to do with an incoming frame.
#[derive(Debug)]
pub enum FrameAction {
    /// The text is a request: parse it and answer it.
    Request(String),
    /// Send this frame back.
    Reply(Frame),
    /// Nothing.
    Ignore,
}

/// What to do with a parsed request.
pub enum Dispatch<'a, C> {
    /// Send this response; no handler runs.
    Answer(RpcResponse),
    /// Run `handler` on `params`, then answer request `id` with what it returns.
    Invoke { id: String, handler: &'a C, params: Option<JsonValue> },
}

/// A text frame is a request, a ping is answered with a pong that carries the
/// same payload, and every other frame is ignored.
pub fn process_frame(frame: Frame) -> (a: FrameAction)
    ensures
        match frame {
            Frame::Text(t) => a == FrameAction::Request(t),
            Frame::Ping(d) => a == FrameAction::Reply(Frame::Pong(d)),
            _ => a is Ignore,
        },
{
    match frame {
        Frame::Text(text) => FrameAction::Request(text),
        Frame::Ping(data) => FrameAction::Reply(Frame::Pong(data)),
        Frame::Binary(_) => FrameAction::Ignore,
        Frame::Pong(_) => FrameAction::Ignore,
        Frame::Close => FrameAction::Ignore,
        Frame::Raw => FrameAction::Ignore,
    }
}

/// Decides how a request is answered. `parsed` is the request read from a
/// text frame, or `None` when the text did not hold one: that is answered
/// with an error notification. A request for a method that has no handler is
/// answered with an error; any other runs the method's handler.
pub fn dispatch<'a, C>(registry: &'a RpcMethodRegistry<C>, parsed: Option<RpcMessage>) -> (d: Dispatch<'a, C>)
    ensures
        match parsed {
            None => d matches Dispatch::Answer(r) && r.id is None && r.result is None
                && holds_error_text(r.error, RpcError::InvalidJson),
            Some(m) => if registry@.contains_key(m.method@) {
                d matches Dispatch::Invoke { id, handler, params } && id == m.id
                    && *handler == registry@[m.method@] && params == m.params
            } else {
                d matches Dispatch::Answer(r) && r.id == Some(m.id) && r.result is None
                    && (r.error matches Some(s) && s@ == "Method "@ + m.method@ + " not found"@)
            },
        },
{
    match parsed {
        None => Dispatch::Answer(RpcResponse::notification_error(RpcError::InvalidJson)),
        Some(message) => {
            match registry.resolve(&message) {
                Ok(handler) => Dispatch::Invoke { id: message.id, handler, params: message.params },
                Err(e) => Dispatch::Answer(RpcResponse::from_result(message.id, Err(e))),
            }
        },
    }
}

} // verus!
