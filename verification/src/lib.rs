//! The opening handshake of a WebSocket server, as pure decisions.
//!
//! The crate holds everything a readiness-driven server decides while it
//! upgrades HTTP connections: how header events become a header mapping, how
//! the accept key and the `101` response are derived, how one connection
//! advances through its states, and how the server's table of connections
//! changes with each event. Sockets, the poller and the HTTP tokenizer stay
//! with the caller, which reports what they did and performs what the
//! library answers.

pub mod headers;
pub mod key;
pub mod client;
pub mod server;
