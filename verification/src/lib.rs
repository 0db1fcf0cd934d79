//! Client side of the BitTorrent peer-wire protocol, without the transport.
//!
//! The crate holds the three parts of a peer connection that decide anything:
//! the wire codec, the session state that inbound messages drive, and the
//! piece assembler with the download driver that feeds it. Bytes come and go
//! through a [`bytes::BytesMut`]; sockets and event loops belong to the caller.

pub mod buffer;
pub mod endian;
pub mod message;
pub mod wire;
pub mod wire_laws;
pub mod error;
pub mod codec;
pub mod requests;
pub mod blocks;
pub mod client;
pub mod data;
pub mod data_laws;
pub mod download;
pub mod validate;

pub use client::Client;
pub use codec::{Messages, PeerCodec};
pub use data::DataDesc;
pub use download::Download;
pub use message::Message;
pub use validate::Validate;
