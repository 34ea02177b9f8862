//! The wire protocol between a client and the server.

pub mod common_message;
