//! A small chat service: user accounts and login sessions, conversations
//! between online users, message delivery, and the decisions of the
//! interactive terminal client that talks to it.
//!
//! The transport (HTTP routing, locks, reading request bodies, JSON decoding
//! of requests, terminal input and output) stays outside this crate; what the
//! service and the client decide is here, with its contract.

pub mod text;
pub mod strmap;
pub mod status;
pub mod request;
pub mod json;
pub mod login;
pub mod message;
pub mod implemessage;
pub mod client;
