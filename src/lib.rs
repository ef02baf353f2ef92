//! A small multi-user chat service: newline framing of a byte stream, keyword
//! extraction and scripted responders on the server, and the state of an
//! interactive chat session on the client.

pub mod actions;
pub mod bots;
pub mod connection;
pub mod display;
pub mod framing;
pub mod session;
