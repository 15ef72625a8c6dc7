//! A WebSocket (RFC 6455) endpoint library.
//!
//! The crate covers the three layers that carry the protocol:
//! the frame codec (`frame`), the HTTP upgrade handshake (`http`,
//! `headers`, `accept`, `handshake`), and the connection state
//! machine that folds frames into messages (`machine`).  Transport
//! I/O stays outside: callers feed raw bytes in and flush the bytes
//! the library queues up.

pub mod accept;
pub mod error;
pub mod frame;
pub mod handshake;
pub mod headers;
pub mod http;
pub mod machine;
pub mod mask;
pub mod tokens;
pub mod utf8;
