//! The rules of a small remote command service: how a login message is judged,
//! how a request is cut into the stages of a process pipeline, in which order
//! the stages are started and what is answered, and how the two ends of a
//! connection move from state to state. Every function works on plain bytes;
//! sockets and processes belong to the program around this library.

pub mod text;
pub mod pipeline;
pub mod auth;
pub mod executor;
pub mod connection;
pub mod client;
