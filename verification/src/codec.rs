//! The codec: bytes in a buffer to messages, and messages to bytes.

use vstd::prelude::*;
use std::collections::VecDeque;
use bytes::BytesMut;
use crate::blocks::copy_of;
use crate::buffer::{as_slice, buf_bytes, extend_from_slice, split_to};
use crate::endian::{be_u16, be_u32, read_u16, read_u32, u16_be, u32_be, write_u16, write_u32};
use crate::error::EncodingError;
use crate::message::{views, Message, MessageView};
use crate::wire::{
    decoded, encodable, encoding, fits, frame_at_head, frame_message, frames, handshake_at_head,
    protocol_name, reserved, BITFIELD_ID, CANCEL_ID, CHOKE_ID, HANDSHAKE_LEN, HASH_INFO_LEN,
    HAVE_ID, INTERESTED_ID, LENGTH_SIZE, NOT_INTERESTED_ID, PEER_ID_LEN, PIECE_ID, PORT_ID,
    PSTR_SIZE, REQUEST_ID, RESERVED_LEN, UNCHOKE_ID,
};

verus! {

/// The messages of one decoding pass, oldest first.
pub type Messages = VecDeque<Message>;

/// The bytes of `BitTorrent protocol`.
fn pstr() -> (name: [u8; 19])
    ensures
        name@ == protocol_name(),
{
    let name: [u8; 19] = [
        66, 105, 116, 84, 111, 114, 114, 101, 110, 116, 32, 112, 114, 111, 116, 111, 99, 111, 108,
    ];
    assert(name@ =~= protocol_name());
    name
}

/// Whether the protocol name stands behind the first byte.
fn names_protocol(bytes: &[u8]) -> (found: bool)
    requires
        bytes@.len() >= 20,
    ensures
        found == (bytes@.subrange(1, 20) == protocol_name()),
{
    let name = pstr();
    let mut i: usize = 0;
    while i < PSTR_SIZE
        invariant
            i <= 19,
            bytes@.len() >= 20,
            name@ == protocol_name(),
            forall|j: int| 0 <= j < i ==> bytes@[1 + j] == name@[j],
        decreases 19 - i,
    {
        if bytes[i + 1] != name[i] {
            assert(bytes@.subrange(1, 20)[i as int] != protocol_name()[i as int]);
            return false;
        }
        i += 1;
    }
    assert(bytes@.subrange(1, 20) =~= protocol_name());
    true
}

/// Takes a big-endian 32-bit integer off the front of the buffer.
fn take_u32(buf: &mut BytesMut) -> (value: u32)
    requires
        buf_bytes(old(buf)).len() >= 4,
    ensures
        value == be_u32(buf_bytes(old(buf))),
        buf_bytes(final(buf)) == buf_bytes(old(buf)).skip(4),
{
    let field = split_to(buf, 4);
    read_u32(as_slice(&field))
}

/// Appends one byte.
fn add_u8(buf: &mut BytesMut, id: u8)
    requires
        buf_bytes(old(buf)).len() + 1 <= usize::MAX,
    ensures
        buf_bytes(final(buf)) == buf_bytes(old(buf)) + seq![id],
{
    let container: [u8; 1] = [id];
    assert(container@ =~= seq![id]);
    extend_from_slice(buf, container.as_slice());
}

/// Appends a 32-bit integer, high byte first.
fn add_u32(buf: &mut BytesMut, value: u32)
    requires
        buf_bytes(old(buf)).len() + 4 <= usize::MAX,
    ensures
        buf_bytes(final(buf)) == buf_bytes(old(buf)) + u32_be(value),
{
    let container = write_u32(value);
    extend_from_slice(buf, container.as_slice());
}

/// Appends a frame's length prefix.
fn add_len(buf: &mut BytesMut, value: u32)
    requires
        buf_bytes(old(buf)).len() + 4 <= usize::MAX,
    ensures
        buf_bytes(final(buf)) == buf_bytes(old(buf)) + u32_be(value),
{
    add_u32(buf, value)
}

/// Appends a 16-bit integer, high byte first.
fn add_u16(buf: &mut BytesMut, value: u16)
    requires
        buf_bytes(old(buf)).len() + 2 <= usize::MAX,
    ensures
        buf_bytes(final(buf)) == buf_bytes(old(buf)) + u16_be(value),
{
    let container = write_u16(value);
    extend_from_slice(buf, container.as_slice());
}

/// Appends a run of bytes.
fn add_vec(buf: &mut BytesMut, container: &[u8])
    requires
        buf_bytes(old(buf)).len() + container@.len() <= usize::MAX,
    ensures
        buf_bytes(final(buf)) == buf_bytes(old(buf)) + container@,
{
    extend_from_slice(buf, container);
}

/// The codec of a peer connection. It keeps no state between calls.
pub struct PeerCodec;

impl PeerCodec {
    /// Takes a handshake off the front of the buffer, if a whole one stands
    /// there; otherwise leaves the buffer as it is.
    pub fn handshake(&self, buf: &mut BytesMut) -> (taken: Option<Message>)
        ensures
            match taken {
                Some(m) => {
                    &&& handshake_at_head(buf_bytes(old(buf)))
                    &&& m@ == MessageView::Handshake(
                        buf_bytes(old(buf)).subrange(28, 48),
                        buf_bytes(old(buf)).subrange(48, 68),
                    )
                    &&& buf_bytes(final(buf)) == buf_bytes(old(buf)).skip(68)
                },
                None => {
                    &&& !handshake_at_head(buf_bytes(old(buf)))
                    &&& buf_bytes(final(buf)) == buf_bytes(old(buf))
                },
            },
    {
        let ghost before = buf_bytes(buf);
        let bytes = as_slice(buf);
        if HANDSHAKE_LEN <= bytes.len() && bytes[0] == 19 && names_protocol(bytes) {
            let _ = split_to(buf, 1 + PSTR_SIZE + RESERVED_LEN);
            let hash_info = copy_of(as_slice(&split_to(buf, HASH_INFO_LEN)));
            let peer_id = copy_of(as_slice(&split_to(buf, PEER_ID_LEN)));
            assert(hash_info@ =~= before.subrange(28, 48));
            assert(peer_id@ =~= before.subrange(48, 68));
            assert(buf_bytes(buf) =~= before.skip(68));
            Some(Message::Handshake(hash_info, peer_id))
        } else {
            None
        }
    }

    /// What a frame with the choke id carries.
    pub fn choke(&self) -> (m: Option<Message>)
        ensures
            m matches Some(msg) && msg@ == MessageView::Choke,
    {
        Some(Message::Choke())
    }

    /// What a frame with the unchoke id carries.
    pub fn unchoke(&self) -> (m: Option<Message>)
        ensures
            m matches Some(msg) && msg@ == MessageView::Unchoke,
    {
        Some(Message::Unchoke())
    }

    /// What a frame with the interested id carries.
    pub fn interested(&self) -> (m: Option<Message>)
        ensures
            m matches Some(msg) && msg@ == MessageView::Interested,
    {
        Some(Message::Interested())
    }

    /// What a frame with the not-interested id carries.
    pub fn not_interested(&self) -> (m: Option<Message>)
        ensures
            m matches Some(msg) && msg@ == MessageView::NotInterested,
    {
        Some(Message::NotInterested())
    }

    /// Reads a have message from what follows its id: four bytes of piece
    /// index. With fewer bytes there is no message and the buffer stays.
    pub fn have(&self, buf: &mut BytesMut) -> (m: Option<Message>)
        ensures
            match m {
                Some(msg) => {
                    &&& buf_bytes(old(buf)).len() >= 4
                    &&& msg@ == MessageView::Have(be_u32(buf_bytes(old(buf))))
                    &&& buf_bytes(final(buf)) == buf_bytes(old(buf)).skip(4)
                },
                None => buf_bytes(old(buf)).len() < 4 && buf_bytes(final(buf)) == buf_bytes(
                    old(buf),
                ),
            },
    {
        if as_slice(buf).len() >= 4 {
            let index = take_u32(buf);
            Some(Message::Have(index))
        } else {
            None
        }
    }

    /// Reads a bitfield message from what follows its id, `len` being the
    /// frame's length with the id: the `len - 1` bytes of the field. With
    /// fewer bytes there is no message and the buffer stays.
    pub fn bitfield(&self, buf: &mut BytesMut, len: usize) -> (m: Option<Message>)
        requires
            len >= 1,
        ensures
            match m {
                Some(msg) => {
                    &&& buf_bytes(old(buf)).len() >= len - 1
                    &&& msg@ == MessageView::Bitfield(buf_bytes(old(buf)).subrange(0, len - 1))
                    &&& buf_bytes(final(buf)) == buf_bytes(old(buf)).skip(len - 1)
                },
                None => buf_bytes(old(buf)).len() < len - 1 && buf_bytes(final(buf)) == buf_bytes(
                    old(buf),
                ),
            },
    {
        let data_len: usize = len - 1;
        if as_slice(buf).len() >= data_len {
            let bits = copy_of(as_slice(&split_to(buf, data_len)));
            Some(Message::Bitfield(bits))
        } else {
            None
        }
    }

    /// Reads a request message from what follows its id: piece index, offset
    /// and length, four bytes each. With fewer bytes there is no message and
    /// the buffer stays.
    pub fn request(&self, buf: &mut BytesMut) -> (m: Option<Message>)
        ensures
            match m {
                Some(msg) => {
                    &&& buf_bytes(old(buf)).len() >= 12
                    &&& msg@ == MessageView::Request(
                        be_u32(buf_bytes(old(buf))),
                        be_u32(buf_bytes(old(buf)).skip(4)),
                        be_u32(buf_bytes(old(buf)).skip(8)),
                    )
                    &&& buf_bytes(final(buf)) == buf_bytes(old(buf)).skip(12)
                },
                None => buf_bytes(old(buf)).len() < 12 && buf_bytes(final(buf)) == buf_bytes(
                    old(buf),
                ),
            },
    {
        let ghost before = buf_bytes(buf);
        if as_slice(buf).len() >= 12 {
            let index = take_u32(buf);
            let begin = take_u32(buf);
            assert(buf_bytes(buf) =~= before.skip(8));
            let length = take_u32(buf);
            assert(buf_bytes(buf) =~= before.skip(12));
            Some(Message::Request(index, begin, length))
        } else {
            None
        }
    }

    /// Reads a cancel message from what follows its id: piece index, offset
    /// and length, four bytes each. With fewer bytes there is no message and
    /// the buffer stays.
    pub fn cancel(&self, buf: &mut BytesMut) -> (m: Option<Message>)
        ensures
            match m {
                Some(msg) => {
                    &&& buf_bytes(old(buf)).len() >= 12
                    &&& msg@ == MessageView::Cancel(
                        be_u32(buf_bytes(old(buf))),
                        be_u32(buf_bytes(old(buf)).skip(4)),
                        be_u32(buf_bytes(old(buf)).skip(8)),
                    )
                    &&& buf_bytes(final(buf)) == buf_bytes(old(buf)).skip(12)
                },
                None => buf_bytes(old(buf)).len() < 12 && buf_bytes(final(buf)) == buf_bytes(
                    old(buf),
                ),
            },
    {
        let ghost before = buf_bytes(buf);
        if as_slice(buf).len() >= 12 {
            let index = take_u32(buf);
            let begin = take_u32(buf);
            assert(buf_bytes(buf) =~= before.skip(8));
            let length = take_u32(buf);
            assert(buf_bytes(buf) =~= before.skip(12));
            Some(Message::Cancel(index, begin, length))
        } else {
            None
        }
    }

    /// Reads a piece message from what follows its id, `len` being the
    /// frame's length with the id: piece index and offset, four bytes each,
    /// then the `len - 9` bytes of the block. Where `len` has no room for
    /// the two fields, or the buffer holds fewer than `len - 1` bytes, there
    /// is no message and the buffer stays.
    pub fn piece(&self, buf: &mut BytesMut, len: usize) -> (m: Option<Message>)
        requires
            len >= 1,
        ensures
            match m {
                Some(msg) => {
                    &&& len >= 9
                    &&& buf_bytes(old(buf)).len() >= len - 1
                    &&& msg@ == MessageView::Piece(
                        be_u32(buf_bytes(old(buf))),
                        be_u32(buf_bytes(old(buf)).skip(4)),
                        buf_bytes(old(buf)).subrange(8, len - 1),
                    )
                    &&& buf_bytes(final(buf)) == buf_bytes(old(buf)).skip(len - 1)
                },
                None => {
                    &&& len < 9 || buf_bytes(old(buf)).len() < len - 1
                    &&& buf_bytes(final(buf)) == buf_bytes(old(buf))
                },
            },
    {
        let ghost before = buf_bytes(buf);
        if len >= 9 && as_slice(buf).len() >= len - 1 {
            let index = take_u32(buf);
            let begin = take_u32(buf);
            assert(buf_bytes(buf) =~= before.skip(8));
            let block = copy_of(as_slice(&split_to(buf, len - 9)));
            assert(block@ =~= before.subrange(8, len - 1));
            assert(buf_bytes(buf) =~= before.skip(len - 1));
            Some(Message::Piece(index, begin, block))
        } else {
            None
        }
    }

    /// Reads a port message from what follows its id: two bytes of port.
    /// With fewer bytes there is no message and the buffer stays.
    pub fn port(&self, buf: &mut BytesMut) -> (m: Option<Message>)
        ensures
            match m {
                Some(msg) => {
                    &&& buf_bytes(old(buf)).len() >= 2
                    &&& msg@ == MessageView::Port(be_u16(buf_bytes(old(buf))))
                    &&& buf_bytes(final(buf)) == buf_bytes(old(buf)).skip(2)
                },
                None => buf_bytes(old(buf)).len() < 2 && buf_bytes(final(buf)) == buf_bytes(
                    old(buf),
                ),
            },
    {
        if as_slice(buf).len() >= 2 {
            let field = split_to(buf, 2);
            let port = read_u16(as_slice(&field));
            Some(Message::Port(port))
        } else {
            None
        }
    }

    /// What a frame's payload of `len` bytes carries, `frame` holding the
    /// payload. The frame is used up.
    fn frame(&self, frame: &mut BytesMut, len: usize) -> (m: Option<Message>)
        requires
            len == buf_bytes(old(frame)).len(),
        ensures
            match m {
                Some(msg) => frame_message(buf_bytes(old(frame))) == Some(msg@),
                None => frame_message(buf_bytes(old(frame))) is None,
            },
    {
        let ghost payload = buf_bytes(frame);
        if len == 0 {
            return Some(Message::KeepAlive());
        }
        let code = split_to(frame, 1);
        let msg_code: u8 = as_slice(&code)[0];
        assert(msg_code == payload[0]);
        assert(buf_bytes(frame) == payload.skip(1));
        if msg_code == CHOKE_ID {
            self.choke()
        } else if msg_code == UNCHOKE_ID {
            self.unchoke()
        } else if msg_code == INTERESTED_ID {
            self.interested()
        } else if msg_code == NOT_INTERESTED_ID {
            self.not_interested()
        } else if msg_code == HAVE_ID {
            self.have(frame)
        } else if msg_code == BITFIELD_ID {
            assert(payload.skip(1).subrange(0, len - 1) =~= payload.skip(1));
            self.bitfield(frame, len)
        } else if msg_code == REQUEST_ID {
            self.request(frame)
        } else if msg_code == PIECE_ID {
            assert(len >= 9 ==> payload.skip(1).subrange(8, len - 1) =~= payload.skip(1).skip(8));
            self.piece(frame, len)
        } else if msg_code == CANCEL_ID {
            self.cancel(frame)
        } else if msg_code == PORT_ID {
            self.port(frame)
        } else {
            None
        }
    }

    /// One pass over the buffer. A handshake at the front is taken alone.
    /// Otherwise every whole frame is taken, in order: those that make a
    /// message yield it, the others are dropped. An incomplete frame at the
    /// end stays in the buffer for the next pass. The result is `None` when
    /// the pass made no message.
    pub fn decode(&mut self, buf: &mut BytesMut) -> (out: Option<Messages>)
        ensures
            buf_bytes(final(buf)) == buf_bytes(old(buf)).skip(
                decoded(buf_bytes(old(buf))).consumed as int,
            ),
            match out {
                Some(messages) => messages@.len() > 0 && views(messages@) == decoded(
                    buf_bytes(old(buf)),
                ).messages,
                None => decoded(buf_bytes(old(buf))).messages.len() == 0,
            },
    {
        let ghost orig = buf_bytes(buf);
        let mut messages: Messages = VecDeque::new();
        assert(views(messages@) =~= Seq::empty());
        if as_slice(buf).len() == 0 {
            assert(orig.skip(0) =~= orig);
            return None;
        }
        match self.handshake(buf) {
            Some(handshake) => {
                messages.push_back(handshake);
                assert(views(messages@) =~= decoded(orig).messages);
            },
            None => {
                let ghost mut used: nat = 0;
                assert(orig.skip(0) =~= orig);
                assert(views(messages@) + frames(orig).messages =~= frames(orig).messages);
                while as_slice(buf).len() >= LENGTH_SIZE
                    invariant
                        used <= orig.len(),
                        buf_bytes(buf) == orig.skip(used as int),
                        frames(orig).messages == views(messages@) + frames(buf_bytes(buf)).messages,
                        frames(orig).consumed == used + frames(buf_bytes(buf)).consumed,
                    ensures
                        !frame_at_head(buf_bytes(buf)),
                    decreases buf_bytes(buf).len(),
                {
                    let ghost cur = buf_bytes(buf);
                    let ghost before = views(messages@);
                    let payload_length: usize = read_u32(as_slice(buf)) as usize;
                    if as_slice(buf).len() - LENGTH_SIZE < payload_length {
                        break ;
                    }
                    let _ = split_to(buf, LENGTH_SIZE);
                    let mut frame = split_to(buf, payload_length);
                    assert(buf_bytes(&frame) =~= cur.subrange(4, 4 + payload_length));
                    assert(buf_bytes(buf) =~= cur.skip(4 + payload_length));
                    assert(buf_bytes(buf) =~= orig.skip(used + 4 + payload_length));
                    match self.frame(&mut frame, payload_length) {
                        Some(msg) => {
                            messages.push_back(msg);
                            assert(views(messages@) =~= before + seq![msg@]);
                        },
                        None => {
                            assert(views(messages@) =~= before + Seq::<MessageView>::empty());
                        },
                    }
                    proof {
                        used = (used + 4 + payload_length) as nat;
                        let rest = frames(buf_bytes(buf));
                        let head = match frame_message(cur.subrange(4, 4 + payload_length)) {
                            Some(m) => seq![m],
                            None => Seq::empty(),
                        };
                        assert(frames(cur).messages == head + rest.messages);
                        assert(before + (head + rest.messages) =~= (before + head) + rest.messages);
                    }
                }
            },
        }
        if messages.len() == 0 {
            None
        } else {
            Some(messages)
        }
    }

    /// Whether `encode` may be called with this message and this buffer: the
    /// test that its precondition asks for.
    pub fn has_room(&self, msg: &Message, buf: &BytesMut) -> (ok: bool)
        ensures
            ok == fits(msg@, buf_bytes(buf).len()),
    {
        let buffered: usize = as_slice(buf).len();
        match msg {
            Message::Handshake(_, _) => buffered <= usize::MAX - 68,
            Message::KeepAlive() => buffered <= usize::MAX - 4,
            Message::Choke() => buffered <= usize::MAX - 5,
            Message::Unchoke() => buffered <= usize::MAX - 5,
            Message::Interested() => buffered <= usize::MAX - 5,
            Message::NotInterested() => buffered <= usize::MAX - 5,
            Message::Have(_) => buffered <= usize::MAX - 9,
            Message::Bitfield(bits) => bits.len() <= 0xffff_fffe && bits.len() <= usize::MAX - 5
                && buffered <= usize::MAX - 5 - bits.len(),
            Message::Request(_, _, _) => buffered <= usize::MAX - 17,
            Message::Piece(_, _, block) => block.len() <= 0xffff_fff6 && block.len() <= usize::MAX
                - 13 && buffered <= usize::MAX - 13 - block.len(),
            Message::Cancel(_, _, _) => buffered <= usize::MAX - 17,
            Message::Port(_) => buffered <= usize::MAX - 7,
        }
    }

    /// Encodes the message if `encode` may be called with it, and otherwise
    /// says `None` and leaves the buffer as it is.
    pub fn try_encode(&mut self, msg: Message, buf: &mut BytesMut) -> (done: Option<
        Result<(), EncodingError>,
    >)
        ensures
            match done {
                Some(Ok(_)) => {
                    &&& fits(msg@, buf_bytes(old(buf)).len())
                    &&& encodable(msg@)
                    &&& buf_bytes(final(buf)) == buf_bytes(old(buf)) + encoding(msg@)
                },
                Some(Err(e)) => {
                    &&& fits(msg@, buf_bytes(old(buf)).len())
                    &&& buf_bytes(final(buf)) == buf_bytes(old(buf))
                    &&& msg@ matches MessageView::Handshake(info_hash, peer_id)
                    &&& e == if info_hash.len() != 20 {
                        EncodingError::HashInfoLength
                    } else {
                        EncodingError::PeerIdLength
                    }
                    &&& !encodable(msg@)
                },
                None => {
                    &&& !fits(msg@, buf_bytes(old(buf)).len())
                    &&& buf_bytes(final(buf)) == buf_bytes(old(buf))
                },
            },
    {
        if self.has_room(&msg, buf) {
            Some(self.encode(msg, buf))
        } else {
            None
        }
    }

    /// Appends the message's bytes to the buffer. A handshake whose info hash
    /// or peer id is not 20 bytes long is turned down, the info hash being
    /// looked at first, and the buffer stays as it is.
    pub fn encode(&mut self, msg: Message, buf: &mut BytesMut) -> (done: Result<(), EncodingError>)
        requires
            fits(msg@, buf_bytes(old(buf)).len()),
        ensures
            match done {
                Ok(_) => {
                    &&& encodable(msg@)
                    &&& buf_bytes(final(buf)) == buf_bytes(old(buf)) + encoding(msg@)
                },
                Err(e) => {
                    &&& buf_bytes(final(buf)) == buf_bytes(old(buf))
                    &&& msg@ matches MessageView::Handshake(info_hash, peer_id)
                    &&& e == if info_hash.len() != 20 {
                        EncodingError::HashInfoLength
                    } else {
                        EncodingError::PeerIdLength
                    }
                    &&& !encodable(msg@)
                },
            },
    {
        let ghost before = buf_bytes(buf);
        match msg {
            Message::Handshake(hash_info, peer_id) => {
                if hash_info.len() != HASH_INFO_LEN {
                    return Err(EncodingError::HashInfoLength);
                }
                if peer_id.len() != PEER_ID_LEN {
                    return Err(EncodingError::PeerIdLength);
                }
                let name = pstr();
                let zeros: [u8; 8] = [0, 0, 0, 0, 0, 0, 0, 0];
                assert(zeros@ =~= reserved());
                add_u8(buf, 19);
                add_vec(buf, name.as_slice());
                add_vec(buf, zeros.as_slice());
                add_vec(buf, hash_info.as_slice());
                add_vec(buf, peer_id.as_slice());
                assert(buf_bytes(buf) =~= before + encoding(msg@));
            },
            Message::KeepAlive() => {
                add_len(buf, 0);
                assert(buf_bytes(buf) =~= before + encoding(msg@));
            },
            Message::Choke() => {
                add_len(buf, 1);
                add_u8(buf, CHOKE_ID);
                assert(buf_bytes(buf) =~= before + encoding(msg@));
            },
            Message::Unchoke() => {
                add_len(buf, 1);
                add_u8(buf, UNCHOKE_ID);
                assert(buf_bytes(buf) =~= before + encoding(msg@));
            },
            Message::Interested() => {
                add_len(buf, 1);
                add_u8(buf, INTERESTED_ID);
                assert(buf_bytes(buf) =~= before + encoding(msg@));
            },
            Message::NotInterested() => {
                add_len(buf, 1);
                add_u8(buf, NOT_INTERESTED_ID);
                assert(buf_bytes(buf) =~= before + encoding(msg@));
            },
            Message::Have(index) => {
                add_len(buf, 5);
                add_u8(buf, HAVE_ID);
                add_u32(buf, index);
                assert(buf_bytes(buf) =~= before + encoding(msg@));
            },
            Message::Bitfield(bitfield) => {
                let len: u32 = 1 + bitfield.len() as u32;
                add_len(buf, len);
                add_u8(buf, BITFIELD_ID);
                add_vec(buf, bitfield.as_slice());
                assert(buf_bytes(buf) =~= before + encoding(msg@));
            },
            Message::Request(index, begin, length) => {
                add_len(buf, 13);
                add_u8(buf, REQUEST_ID);
                add_u32(buf, index);
                add_u32(buf, begin);
                add_u32(buf, length);
                assert(buf_bytes(buf) =~= before + encoding(msg@));
            },
            Message::Piece(index, begin, block) => {
                let len: u32 = 9 + block.len() as u32;
                add_len(buf, len);
                add_u8(buf, PIECE_ID);
                add_u32(buf, index);
                add_u32(buf, begin);
                add_vec(buf, block.as_slice());
                assert(buf_bytes(buf) =~= before + encoding(msg@));
            },
            Message::Cancel(index, begin, length) => {
                add_len(buf, 13);
                add_u8(buf, CANCEL_ID);
                add_u32(buf, index);
                add_u32(buf, begin);
                add_u32(buf, length);
                assert(buf_bytes(buf) =~= before + encoding(msg@));
            },
            Message::Port(port) => {
                add_len(buf, 3);
                add_u8(buf, PORT_ID);
                add_u16(buf, port);
                assert(buf_bytes(buf) =~= before + encoding(msg@));
            },
        }
        Ok(())
    }
}

} // verus!
