//! A browser-to-telnet gateway core: ANSI-to-HTML rendering, sanitising of
//! remote output, the legacy (Hixie-76) WebSocket handshake and framing, the
//! session control protocol and the outbound address filter.

pub mod text;
pub mod ansi;
pub mod sanitize;
pub mod frame;
pub mod handshake;
pub mod addr;
pub mod session;
pub mod bridge;
pub mod config;
