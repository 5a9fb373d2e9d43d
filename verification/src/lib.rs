//! Verified core of a greetd-style graphical login greeter.
//!
//! The crate covers the protocol client that a greeter drives: the wire
//! codec (length-prefixed JSON-shaped frames for requests and responses),
//! and the authentication conversation state machine that turns daemon
//! responses and user keystrokes into the next protocol request.
//!
//! Rendering, windowing and socket I/O are deliberately outside: the
//! surrounding binary feeds plain byte values in and carries bytes out.

pub mod codec;
pub mod msg;
pub mod session;
