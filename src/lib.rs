//! Server-sent events: an encoder for event frames and a registry of client
//! streams that fans frames out to every client and prunes the dead ones.
use vstd::prelude::*;

pub mod event;
pub mod server;

pub use event::EventBuilder;
pub use server::Server;
