//! The wire format, as functions on byte sequences.
//!
//! Two framings share a connection. A handshake is 68 bytes with no length
//! prefix: the byte 19, the 19 bytes of the protocol name, 8 reserved bytes,
//! a 20-byte info hash and a 20-byte peer id. Every other message is a frame:
//! a 4-byte big-endian length, then that many bytes, the first of which is
//! the message id. A frame of length 0 is a keep-alive.

use vstd::prelude::*;
use crate::endian::{be_u16, be_u32, u16_be, u32_be};
use crate::message::MessageView;

verus! {

pub const PSTR_SIZE: usize = 19;
pub const RESERVED_LEN: usize = 8;
pub const HASH_INFO_LEN: usize = 20;
pub const PEER_ID_LEN: usize = 20;
pub const HANDSHAKE_LEN: usize = 68;
pub const LENGTH_SIZE: usize = 4;

pub const CHOKE_ID: u8 = 0;
pub const UNCHOKE_ID: u8 = 1;
pub const INTERESTED_ID: u8 = 2;
pub const NOT_INTERESTED_ID: u8 = 3;
pub const HAVE_ID: u8 = 4;
pub const BITFIELD_ID: u8 = 5;
pub const REQUEST_ID: u8 = 6;
pub const PIECE_ID: u8 = 7;
pub const CANCEL_ID: u8 = 8;
pub const PORT_ID: u8 = 9;

/// The bytes of `BitTorrent protocol`.
pub open spec fn protocol_name() -> Seq<u8> {
    seq![
        66u8, 105u8, 116u8, 84u8, 111u8, 114u8, 114u8, 101u8, 110u8, 116u8,
        32u8, 112u8, 114u8, 111u8, 116u8, 111u8, 99u8, 111u8, 108u8,
    ]
}

/// Eight zero bytes.
pub open spec fn reserved() -> Seq<u8> {
    seq![0u8, 0u8, 0u8, 0u8, 0u8, 0u8, 0u8, 0u8]
}

/// Whether a message has an encoding: a handshake needs 20-byte fields, and
/// a frame's length has to fit its 32-bit prefix.
pub open spec fn encodable(m: MessageView) -> bool {
    match m {
        MessageView::Handshake(info_hash, peer_id) => info_hash.len() == 20 && peer_id.len() == 20,
        MessageView::Bitfield(bits) => 1 + bits.len() <= u32::MAX,
        MessageView::Piece(_, _, block) => 9 + block.len() <= u32::MAX,
        _ => true,
    }
}

/// How many bytes a message travels as. A handshake counts as 68 whatever
/// its fields hold.
pub open spec fn wire_len(m: MessageView) -> nat {
    match m {
        MessageView::Handshake(_, _) => 68,
        MessageView::KeepAlive => 4,
        MessageView::Choke => 5,
        MessageView::Unchoke => 5,
        MessageView::Interested => 5,
        MessageView::NotInterested => 5,
        MessageView::Have(_) => 9,
        MessageView::Bitfield(bits) => 5 + bits.len(),
        MessageView::Request(_, _, _) => 17,
        MessageView::Piece(_, _, block) => 13 + block.len(),
        MessageView::Cancel(_, _, _) => 17,
        MessageView::Port(_) => 7,
    }
}

/// Whether a message can be handed to the encoder with this much already
/// buffered: its frame length fits the 32-bit prefix, and the buffer's new
/// length fits `usize`. A handshake with fields of any length passes the
/// first test: the encoder itself turns it down.
pub open spec fn fits(m: MessageView, buffered: nat) -> bool {
    &&& m is Handshake || encodable(m)
    &&& buffered + wire_len(m) <= usize::MAX
}

/// A frame: the payload behind its length.
pub open spec fn framed(payload: Seq<u8>) -> Seq<u8>
    recommends
        payload.len() <= u32::MAX,
{
    u32_be(payload.len() as u32) + payload
}

/// What a message puts behind the length of its frame: the id, then the
/// fields. A keep-alive puts nothing there, and a handshake has no frame.
pub open spec fn payload(m: MessageView) -> Seq<u8> {
    match m {
        MessageView::Handshake(_, _) => Seq::empty(),
        MessageView::KeepAlive => Seq::empty(),
        MessageView::Choke => seq![CHOKE_ID],
        MessageView::Unchoke => seq![UNCHOKE_ID],
        MessageView::Interested => seq![INTERESTED_ID],
        MessageView::NotInterested => seq![NOT_INTERESTED_ID],
        MessageView::Have(index) => seq![HAVE_ID] + u32_be(index),
        MessageView::Bitfield(bits) => seq![BITFIELD_ID] + bits,
        MessageView::Request(index, begin, length) => seq![REQUEST_ID] + u32_be(index) + u32_be(
            begin,
        ) + u32_be(length),
        MessageView::Piece(index, begin, block) => seq![PIECE_ID] + u32_be(index) + u32_be(begin)
            + block,
        MessageView::Cancel(index, begin, length) => seq![CANCEL_ID] + u32_be(index) + u32_be(
            begin,
        ) + u32_be(length),
        MessageView::Port(port) => seq![PORT_ID] + u16_be(port),
    }
}

/// The bytes a message travels as.
pub open spec fn encoding(m: MessageView) -> Seq<u8>
    recommends
        encodable(m),
{
    match m {
        MessageView::Handshake(info_hash, peer_id) => seq![19u8] + protocol_name() + reserved()
            + info_hash + peer_id,
        _ => framed(payload(m)),
    }
}

/// Whether the bytes open with a whole handshake. The reserved bytes are not
/// looked at.
pub open spec fn handshake_at_head(s: Seq<u8>) -> bool {
    &&& s.len() >= 68
    &&& s[0] == 19
    &&& s.subrange(1, 20) == protocol_name()
}

/// The message in a frame's payload, if the payload makes one. Fields are read
/// from the front. A payload too short for the fields of its id, or with an
/// id outside the table, makes none; bytes behind the fields are passed over.
pub open spec fn frame_message(payload: Seq<u8>) -> Option<MessageView> {
    if payload.len() == 0 {
        Some(MessageView::KeepAlive)
    } else {
        let id = payload[0];
        let body = payload.skip(1);
        if id == CHOKE_ID {
            Some(MessageView::Choke)
        } else if id == UNCHOKE_ID {
            Some(MessageView::Unchoke)
        } else if id == INTERESTED_ID {
            Some(MessageView::Interested)
        } else if id == NOT_INTERESTED_ID {
            Some(MessageView::NotInterested)
        } else if id == HAVE_ID {
            if body.len() >= 4 {
                Some(MessageView::Have(be_u32(body)))
            } else {
                None
            }
        } else if id == BITFIELD_ID {
            Some(MessageView::Bitfield(body))
        } else if id == REQUEST_ID {
            if body.len() >= 12 {
                Some(MessageView::Request(be_u32(body), be_u32(body.skip(4)), be_u32(body.skip(8))))
            } else {
                None
            }
        } else if id == PIECE_ID {
            if body.len() >= 8 {
                Some(MessageView::Piece(be_u32(body), be_u32(body.skip(4)), body.skip(8)))
            } else {
                None
            }
        } else if id == CANCEL_ID {
            if body.len() >= 12 {
                Some(MessageView::Cancel(be_u32(body), be_u32(body.skip(4)), be_u32(body.skip(8))))
            } else {
                None
            }
        } else if id == PORT_ID {
            if body.len() >= 2 {
                Some(MessageView::Port(be_u16(body)))
            } else {
                None
            }
        } else {
            None
        }
    }
}

/// What one pass over a buffer yields: the messages, and how many bytes from
/// the front they and the dropped frames between them took.
pub struct Decoded {
    pub messages: Seq<MessageView>,
    pub consumed: nat,
}

/// Nothing decoded, nothing consumed.
pub open spec fn nothing() -> Decoded {
    Decoded { messages: Seq::empty(), consumed: 0 }
}

/// Whether the bytes open with a whole frame.
pub open spec fn frame_at_head(s: Seq<u8>) -> bool {
    s.len() >= 4 && s.len() >= 4 + be_u32(s)
}

/// Every whole frame at the front of `s`, in order. A frame whose payload
/// makes no message is consumed and leaves none; the first incomplete frame
/// ends the pass and stays.
pub open spec fn frames(s: Seq<u8>) -> Decoded
    decreases s.len(),
{
    if frame_at_head(s) {
        let end = 4 + be_u32(s);
        let rest = frames(s.skip(end));
        let head = match frame_message(s.subrange(4, end)) {
            Some(m) => seq![m],
            None => Seq::empty(),
        };
        Decoded { messages: head + rest.messages, consumed: (end + rest.consumed) as nat }
    } else {
        nothing()
    }
}

/// One pass of the decoder: a handshake if the bytes open with one, and
/// otherwise every whole frame.
pub open spec fn decoded(s: Seq<u8>) -> Decoded {
    if handshake_at_head(s) {
        Decoded {
            messages: seq![MessageView::Handshake(s.subrange(28, 48), s.subrange(48, 68))],
            consumed: 68,
        }
    } else {
        frames(s)
    }
}

} // verus!
