//! Verified core of a small line-based chat system: the length-prefixed
//! message framing shared by client and server, the streaming codec over
//! `bytes::BytesMut`, and the server-side bookkeeping of who receives a
//! broadcast and who is dropped afterwards.

pub mod text;
pub mod frame;
pub mod buffer;
pub mod codec;
pub mod messages;
pub mod broadcaster;
pub mod clients;
pub mod session;
