//! The server side: the internal protocol, the routing state and its
//! coordinator, and the per-connection agent.

pub mod channel_message;
pub mod routing;
pub mod agent;
pub mod coordinator;
pub mod laws;
