//! The messages of the peer-wire protocol.

use vstd::prelude::*;

verus! {

/// One message of the peer-wire protocol.
#[derive(PartialEq, Debug, Clone)]
pub enum Message {
    /// Opens a connection: the info hash and the sender's peer id.
    Handshake(Vec<u8>, Vec<u8>),
    KeepAlive(),
    Choke(),
    Unchoke(),
    Interested(),
    NotInterested(),
    /// The sender has the piece with this index.
    Have(u32),
    /// The pieces the sender has, one bit each, lowest index in the highest bit.
    Bitfield(Vec<u8>),
    /// Asks for a block: piece index, offset in the piece, length.
    Request(u32, u32, u32),
    /// Carries a block: piece index, offset in the piece, the bytes.
    Piece(u32, u32, Vec<u8>),
    /// Withdraws a request: piece index, offset in the piece, length.
    Cancel(u32, u32, u32),
    /// The sender's DHT port.
    Port(u16),
}

/// A message as a mathematical value: byte strings are sequences.
pub enum MessageView {
    Handshake(Seq<u8>, Seq<u8>),
    KeepAlive,
    Choke,
    Unchoke,
    Interested,
    NotInterested,
    Have(u32),
    Bitfield(Seq<u8>),
    Request(u32, u32, u32),
    Piece(u32, u32, Seq<u8>),
    Cancel(u32, u32, u32),
    Port(u16),
}

impl View for Message {
    type V = MessageView;

    open spec fn view(&self) -> MessageView {
        match self {
            Message::Handshake(info_hash, peer_id) => MessageView::Handshake(info_hash@, peer_id@),
            Message::KeepAlive() => MessageView::KeepAlive,
            Message::Choke() => MessageView::Choke,
            Message::Unchoke() => MessageView::Unchoke,
            Message::Interested() => MessageView::Interested,
            Message::NotInterested() => MessageView::NotInterested,
            Message::Have(index) => MessageView::Have(*index),
            Message::Bitfield(bits) => MessageView::Bitfield(bits@),
            Message::Request(index, begin, length) => MessageView::Request(*index, *begin, *length),
            Message::Piece(index, begin, block) => MessageView::Piece(*index, *begin, block@),
            Message::Cancel(index, begin, length) => MessageView::Cancel(*index, *begin, *length),
            Message::Port(port) => MessageView::Port(*port),
        }
    }
}

/// The views of a run of messages, in order.
pub open spec fn views(messages: Seq<Message>) -> Seq<MessageView> {
    messages.map_values(|m: Message| m@)
}

} // verus!
