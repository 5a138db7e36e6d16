//! The RPC layer under the paths its users know it by.

pub use crate::message::{RpcMessage, RpcNotification, RpcResponse};
pub use crate::registry::RpcMethodRegistry;
pub use crate::store;
