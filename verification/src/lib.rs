//! The decisions of an SSH-over-QUIC proxy server: handshake authentication by
//! rotating HMAC tokens carried in the TLS ALPN extension, connection routing,
//! and the relay between a QUIC stream and an SSH server.
//!
//! Sockets, TLS and the asynchronous runtime live outside of this crate and are
//! driven by the actions that it returns.

pub mod acceptor;
pub mod auth;
pub mod bytes;
pub mod cert;
pub mod client_hello;
pub mod clock;
pub mod crypto;
pub mod reader;
pub mod relay;
pub mod routes;
pub mod settings;
