//! Wire formats and protocol decisions of a Bitcoin testnet P2P observer:
//! varints, message framing, the `version` handshake payload, transaction
//! decoding and the per-message decisions of the node loop.

pub mod command;
pub mod crypto;
pub mod encoding;
pub mod inventory;
pub mod message;
pub mod network;
pub mod node;
pub mod parser;
pub mod session;
pub mod text;
pub mod transaction;
pub mod version;
