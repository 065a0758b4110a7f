//! A client for an end-to-end encrypted messaging service, without its
//! sockets: the codec of its packets, the backup of an identity, the
//! handshake with the server and the sealing of frames and messages.

pub mod crypto;
pub mod error;
pub mod flat;
pub mod handshake;
pub mod identity;
pub mod ids;
pub mod nonce;
pub mod packets;
pub mod padding;
pub mod peers;
pub mod rest;
pub mod samples;
pub mod session;
pub mod text;

pub use crate::error::Error;
pub use crate::ids::{GroupID, MessageID, ThreemaID};
pub use crate::session::{ServerMessage, SessionState, Threema};
