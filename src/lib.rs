//! The HTTP/1.x response side of a server connection: per-connection state,
//! the status line and header block encoder, and body framing.
pub mod buf;
pub mod bytebuf;
pub mod context;
pub mod message;
pub mod text;
pub mod head;
pub mod transfer;
pub mod builder;
