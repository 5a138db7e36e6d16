//! The verified core of the ME-Frp daemon: the JSON-RPC method registry, the
//! messages it exchanges, the table of connected peers, the type-keyed store
//! and the decisions of the interactive terminal.

mod table;
pub mod json;
pub mod error;
pub mod message;
pub mod registry;
pub mod store;
pub mod peers;
pub mod exchange;
pub mod terminal;
pub mod rpc;
