//! The JSON-RPC messages: requests from clients, responses and notifications.

use vstd::prelude::*;
use crate::error::{error_text, RpcError};
use crate::json::JsonValue;

verus! {

/// An incoming JSON-RPC request.
#[derive(Debug)]
pub struct RpcMessage {
    /// Identifier of the request, echoed in its response.
    pub id: String,
    /// Name of the method to call.
    pub method: String,
    /// Parameters of the call, if any.
    pub params: Option<JsonValue>,
}

/// A JSON-RPC response.
#[derive(Debug)]
pub struct RpcResponse {
    /// Identifier of the request answered, or `None` for a notification.
    pub id: Option<String>,
    /// What the call returned, when it succeeded with a value.
    pub result: Option<JsonValue>,
    /// The error text, when the call failed.
    pub error: Option<String>,
}

/// A message that the server sends unprompted.
#[derive(Debug)]
pub struct RpcNotification {
    /// Name of the event.
    pub method: String,
    /// Its parameters, if any.
    pub params: Option<JsonValue>,
}

/// `text` is `Some` and holds exactly the text of `e`.
pub open spec fn holds_error_text(text: Option<String>, e: RpcError) -> bool {
    text matches Some(s) && s@ == error_text(e)
}

impl RpcResponse {
    /// A response never carries both a result and an error.
    pub open spec fn well_shaped(self) -> bool {
        !(self.result is Some && self.error is Some)
    }

    /// A response to request `id` with the given result and error.
    pub fn new(id: String, result: Option<JsonValue>, error: Option<String>) -> (r: Self)
        ensures
            r.id == Some(id),
            r.result == result,
            r.error == error,
    {
        RpcResponse { id: Some(id), result, error }
    }

    /// The response to request `id` that failed with `error`.
    pub fn from_error(id: String, error: RpcError) -> (r: Self)
        ensures
            r.id == Some(id),
            r.result is None,
            holds_error_text(r.error, error),
            r.well_shaped(),
    {
        RpcResponse { id: Some(id), result: None, error: Some(error.message()) }
    }

    /// The response to request `id` that succeeded with `value`.
    pub fn from_value(id: String, value: Option<JsonValue>) -> (r: Self)
        ensures
            r.id == Some(id),
            r.result == value,
            r.error is None,
            r.well_shaped(),
    {
        RpcResponse { id: Some(id), result: value, error: None }
    }

    /// An error notification: it answers no request.
    pub fn notification_error(error: RpcError) -> (r: Self)
        ensures
            r.id is None,
            r.result is None,
            holds_error_text(r.error, error),
            r.well_shaped(),
    {
        RpcResponse { id: None, result: None, error: Some(error.message()) }
    }

    /// The response to request `id` whose call came back with `result`:
    /// a `null` value is answered with no result at all.
    pub fn from_result(id: String, result: Result<JsonValue, RpcError>) -> (r: Self)
        ensures
            r.id == Some(id),
            r.well_shaped(),
            match result {
                Ok(v) => r.error is None && if v is Null { r.result is None } else { r.result == Some(v) },
                Err(e) => r.result is None && holds_error_text(r.error, e),
            },
    {
        match result {
            Ok(value) => {
                if value.is_null() {
                    Self::from_value(id, None)
                } else {
                    Self::from_value(id, Some(value))
                }
            },
            Err(error) => Self::from_error(id, error),
        }
    }
}

} // verus!
