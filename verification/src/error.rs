//! What can go wrong in the library's own logic.

use vstd::prelude::*;

verus! {

/// Why a message could not be encoded.
#[derive(PartialEq, Eq, Debug, Clone, Copy, Structural)]
pub enum EncodingError {
    /// The info hash of a handshake is not 20 bytes long.
    HashInfoLength,
    /// The peer id of a handshake is not 20 bytes long.
    PeerIdLength,
}

/// A handshake named another info hash than the one this session stands for.
#[derive(PartialEq, Eq, Debug, Clone, Copy, Structural)]
pub struct ProtocolMismatch;

/// The peer kept us choked until the attempts ran out, with requests still
/// pending.
#[derive(PartialEq, Eq, Debug, Clone, Copy, Structural)]
pub struct AttemptsExceeded;

impl EncodingError {
    /// The error in words.
    pub fn message(&self) -> (text: &'static str)
        ensures
            text@ == match self {
                EncodingError::HashInfoLength => "HASH INFO length shall be 20 bytes"@,
                EncodingError::PeerIdLength => "PEER ID length shall be 20 bytes"@,
            },
    {
        match self {
            EncodingError::HashInfoLength => "HASH INFO length shall be 20 bytes",
            EncodingError::PeerIdLength => "PEER ID length shall be 20 bytes",
        }
    }
}

impl ProtocolMismatch {
    /// The error in words.
    pub fn message(&self) -> (text: &'static str)
        ensures
            text@ == "Unexpected INFO hash"@,
    {
        "Unexpected INFO hash"
    }
}

impl AttemptsExceeded {
    /// The error in words.
    pub fn message(&self) -> (text: &'static str)
        ensures
            text@ == "Attempt limit exceeded"@,
    {
        "Attempt limit exceeded"
    }
}

} // verus!
