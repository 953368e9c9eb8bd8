//! A bridge between a WebSocket peer and a TCP backend, written without I/O.
//!
//! Each accepted WebSocket connection is paired with one backend connection.
//! The crate holds the decisions of that pairing: how a byte stream is cut
//! into units, what a session does with each frame, tick and backend event,
//! and which sessions are live. The caller owns the sockets and timers, feeds
//! events in, and carries out the effects that come back.
pub mod connection_manager;
pub mod framing;
pub mod messages;
pub mod trace;
pub mod ws_connection;
