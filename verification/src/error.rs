//! The errors that the RPC layer reports to its clients.

use vstd::prelude::*;

verus! {

/// An error of an RPC call, as it is reported in a response.
#[derive(Clone, Debug)]
pub enum RpcError {
    /// A handler is already registered under this method name.
    AlreadyExists(String),
    /// No handler is registered under this method name.
    NotFound(String),
    /// An incoming text frame did not hold a request.
    InvalidJson,
    /// A handler failed; the text is its error message.
    Handler(String),
}

/// The text of an error, as a client reads it.
pub open spec fn error_text(e: RpcError) -> Seq<char> {
    match e {
        RpcError::AlreadyExists(m) => "Method "@ + m@ + " already exists"@,
        RpcError::NotFound(m) => "Method "@ + m@ + " not found"@,
        RpcError::InvalidJson => "invalid json received"@,
        RpcError::Handler(msg) => msg@,
    }
}

impl RpcError {
    /// The text of this error.
    pub fn message(&self) -> (s: String)
        ensures
            s@ == error_text(*self),
    {
        match self {
            RpcError::AlreadyExists(m) => {
                let mut s = String::from_str("Method ");
                s.append(m.as_str());
                s.append(" already exists");
                s
            },
            RpcError::NotFound(m) => {
                let mut s = String::from_str("Method ");
                s.append(m.as_str());
                s.append(" not found");
                s
            },
            RpcError::InvalidJson => String::from_str("invalid json received"),
            RpcError::Handler(msg) => msg.clone(),
        }
    }
}

} // verus!
