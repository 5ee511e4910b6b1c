//! A websocket repeater: one publisher sends a recording, any number of clients watch it.
pub mod addr;
pub mod broker;
pub mod client;
pub mod delivery;
pub mod error;
pub mod grammar;
pub mod grammar_v6;
pub mod history;
pub mod ident;
pub mod ipv6;
pub mod listen;
pub mod message;
pub mod mode;
pub mod parse;
pub mod pipe;
pub mod publisher;
pub mod readback;
pub mod relay;
pub mod server;
pub mod session;
pub mod text;
pub mod uri;
