//! A chat relay whose routing decisions are verified.
//!
//! Clients claim a unique display name, send directed text to other named
//! clients and ask for the roster. One coordinator owns the routing state and
//! handles one event at a time; one agent per connection bridges a client's
//! transport to the coordinator. Both are state machines here: they take an
//! event and answer with the next state and the commands to carry out, so a
//! runtime only has to move messages. The console tokenizer and the command
//! grammar built on it complete the library.

pub mod communication;
pub mod logic;
pub mod server;
