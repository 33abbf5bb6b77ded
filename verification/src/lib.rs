//! Building blocks of a small web service: a chat broker with rooms, the
//! per-connection protocol of its websocket sessions, an echo socket and the
//! error value of the JSON API.
//!
//! Everything here is pure logic. A handler decides what has to happen and
//! returns it as a list of actions; the caller owns the sockets, the timers
//! and the actor mailboxes, and carries the actions out.

pub mod api;
pub mod echo;
pub mod server;
pub mod server_lemmas;
pub mod session;
pub mod text;
pub mod ws;
