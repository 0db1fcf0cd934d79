//! The state of one peer connection, and what inbound messages do to it.
//!
//! The session sends nothing itself. Each operation hands back the message
//! to send; the caller sends it and gives the peer's answer to
//! [`Client::enqueue`], which applies every message of it in order.

use vstd::prelude::*;
use std::collections::HashSet;
use std::collections::VecDeque;
use crate::blocks::{copy_of, BlockMap, Place};
use crate::codec::Messages;
use crate::error::ProtocolMismatch;
use crate::message::{views, Message, MessageView};
use crate::requests::{Request, RequestSet};

verus! {

/// Whether the bit for the `j`-th piece of a bitfield byte is set: the first
/// piece has the highest bit.
pub open spec fn has_bit(byte: u8, j: u8) -> bool
    recommends
        j < 8,
{
    byte & (0x80u8 >> j) != 0
}

/// The weight of the bit for the `j`-th piece of a bitfield byte.
pub open spec fn bit_weight(j: u8) -> int
    recommends
        j < 8,
{
    if j == 0 {
        128
    } else if j == 1 {
        64
    } else if j == 2 {
        32
    } else if j == 3 {
        16
    } else if j == 4 {
        8
    } else if j == 5 {
        4
    } else if j == 6 {
        2
    } else {
        1
    }
}

/// The bit for the `j`-th piece is bit `7 - j` of the byte's binary form.
pub proof fn lemma_has_bit(byte: u8, j: u8)
    requires
        j < 8,
    ensures
        has_bit(byte, j) <==> (byte as int / bit_weight(j)) % 2 == 1,
{
    assert(j < 8 ==> (byte & (0x80u8 >> j) != 0 <==> (byte >> ((7 - j) as u8)) % 2 == 1))
        by (bit_vector);
    assert(byte >> 7u8 == byte / 128) by (bit_vector);
    assert(byte >> 6u8 == byte / 64) by (bit_vector);
    assert(byte >> 5u8 == byte / 32) by (bit_vector);
    assert(byte >> 4u8 == byte / 16) by (bit_vector);
    assert(byte >> 3u8 == byte / 8) by (bit_vector);
    assert(byte >> 2u8 == byte / 4) by (bit_vector);
    assert(byte >> 1u8 == byte / 2) by (bit_vector);
    assert(byte >> 0u8 == byte) by (bit_vector);
}

/// Whether a bitfield marks a piece: byte `index / 8` holds its bit, at
/// place `index % 8` from the top.
pub open spec fn marks(bits: Seq<u8>, index: u32) -> bool {
    index / 8 < bits.len() && has_bit(bits[(index / 8) as int], (index % 8) as u8)
}

/// The pieces that a bitfield announces. Bits past the last 32-bit index
/// name no piece.
pub open spec fn announced(bits: Seq<u8>) -> Set<u32> {
    Set::new(|index: u32| marks(bits, index))
}

/// A session as a mathematical value.
pub struct SessionView {
    /// The peer does not serve our requests.
    pub am_choked: bool,
    /// We have told the peer that we want blocks.
    pub am_interested: bool,
    /// We do not serve the peer's requests.
    pub peer_choked: bool,
    /// The peer has told us that it wants blocks.
    pub peer_interested: bool,
    /// The pieces the peer has announced.
    pub peer_have: Set<u32>,
    /// The blocks the peer has asked of us and not withdrawn.
    pub peer_requests: Set<Request>,
    /// The blocks the peer has sent.
    pub blocks: Map<Place, Seq<u8>>,
    /// Inbound messages not yet applied, oldest first.
    pub messages: Seq<MessageView>,
    /// The info hash named in our handshake.
    pub info_hash: Seq<u8>,
}

/// Whether the session takes the message. Only a handshake that names
/// another info hash than the session's is turned down.
pub open spec fn accepts(s: SessionView, m: MessageView) -> bool {
    m matches MessageView::Handshake(info_hash, _) ==> info_hash == s.info_hash
}

/// The session after a message that it takes.
pub open spec fn applied(s: SessionView, m: MessageView) -> SessionView {
    match m {
        MessageView::Handshake(_, _) => s,
        MessageView::KeepAlive => s,
        MessageView::Choke => SessionView { am_choked: true, ..s },
        MessageView::Unchoke => SessionView { am_choked: false, ..s },
        MessageView::Interested => SessionView { peer_interested: true, ..s },
        MessageView::NotInterested => SessionView { peer_interested: false, ..s },
        MessageView::Have(index) => SessionView { peer_have: s.peer_have.insert(index), ..s },
        MessageView::Bitfield(bits) => SessionView {
            peer_have: s.peer_have.union(announced(bits)),
            ..s
        },
        MessageView::Request(index, begin, length) => SessionView {
            peer_requests: s.peer_requests.insert((index, begin, length)),
            ..s
        },
        MessageView::Piece(index, begin, block) => SessionView {
            blocks: s.blocks.insert((index, begin), block),
            ..s
        },
        MessageView::Cancel(index, begin, length) => SessionView {
            peer_requests: s.peer_requests.remove((index, begin, length)),
            ..s
        },
        MessageView::Port(_) => s,
    }
}

/// The session after its queue has been worked off from the front: each
/// message is taken out and applied, up to and including the first that the
/// session turns down, which changes nothing but the queue.
pub open spec fn dispatched(s: SessionView) -> SessionView
    decreases s.messages.len(),
{
    if s.messages.len() == 0 {
        s
    } else {
        let rest = SessionView { messages: s.messages.skip(1), ..s };
        if accepts(rest, s.messages[0]) {
            dispatched(applied(rest, s.messages[0]))
        } else {
            rest
        }
    }
}

/// Whether the session takes every message of its queue.
pub open spec fn dispatches(s: SessionView) -> bool
    decreases s.messages.len(),
{
    if s.messages.len() == 0 {
        true
    } else {
        let rest = SessionView { messages: s.messages.skip(1), ..s };
        accepts(rest, s.messages[0]) && dispatches(applied(rest, s.messages[0]))
    }
}

/// The state of one peer connection.
pub struct Client {
    pub am_choked: bool,
    pub am_interested: bool,
    pub peer_choked: bool,
    pub peer_interested: bool,
    pub peer_have: HashSet<u32>,
    pub peer_requests: RequestSet,
    pub blocks: BlockMap,
    pub messages: Messages,
    pub info_hash: Vec<u8>,
}

impl View for Client {
    type V = SessionView;

    open spec fn view(&self) -> SessionView {
        SessionView {
            am_choked: self.am_choked,
            am_interested: self.am_interested,
            peer_choked: self.peer_choked,
            peer_interested: self.peer_interested,
            peer_have: self.peer_have@,
            peer_requests: self.peer_requests@,
            blocks: self.blocks@,
            messages: views(self.messages@),
            info_hash: self.info_hash@,
        }
    }
}

/// Whether two byte strings are the same.
fn same_bytes(a: &Vec<u8>, b: &Vec<u8>) -> (same: bool)
    ensures
        same == (a@ == b@),
{
    if a.len() != b.len() {
        return false;
    }
    let mut i: usize = 0;
    while i < a.len()
        invariant
            i <= a.len(),
            a.len() == b.len(),
            forall|j: int| 0 <= j < i ==> a@[j] == b@[j],
        decreases a.len() - i,
    {
        if a[i] != b[i] {
            return false;
        }
        i += 1;
    }
    assert(a@ =~= b@);
    true
}

impl Client {
    /// Whether the session's parts are well formed. Every session that this
    /// module hands out is, and its methods keep it so.
    pub open spec fn wf(&self) -> bool {
        self.peer_requests.wf()
    }

    /// The session of a connection that has just been opened: choked on both
    /// sides, interested on neither, and nothing known of the peer.
    pub fn connect() -> (client: Client)
        ensures
            client.wf(),
            client@ == (SessionView {
                am_choked: true,
                am_interested: false,
                peer_choked: true,
                peer_interested: false,
                peer_have: Set::empty(),
                peer_requests: Set::empty(),
                blocks: Map::empty(),
                messages: Seq::empty(),
                info_hash: Seq::empty(),
            }),
    {
        let client = Client {
            am_choked: true,
            am_interested: false,
            peer_choked: true,
            peer_interested: false,
            peer_have: HashSet::new(),
            peer_requests: RequestSet::new(),
            blocks: BlockMap::new(),
            messages: VecDeque::new(),
            info_hash: Vec::new(),
        };
        assert(views(client.messages@) =~= Seq::<MessageView>::empty());
        client
    }

    /// Records the info hash that the session stands for and hands back the
    /// handshake to send. The peer's answer goes to `enqueue`, which turns
    /// down a handshake that names another info hash.
    pub fn handshake(&mut self, info_hash: Vec<u8>, id: &[u8]) -> (msg: Message)
        ensures
            final(self)@ == (SessionView { info_hash: info_hash@, ..old(self)@ }),
            final(self).wf() == old(self).wf(),
            msg@ == MessageView::Handshake(info_hash@, id@),
    {
        self.info_hash = copy_of(info_hash.as_slice());
        Message::Handshake(info_hash, copy_of(id))
    }

    /// Notes that the peer has a piece.
    pub fn peer_have(&mut self, index: u32)
        ensures
            final(self)@ == (SessionView {
                peer_have: old(self)@.peer_have.insert(index),
                ..old(self)@
            }),
            final(self).wf() == old(self).wf(),
    {
        self.peer_have.insert(index);
    }

    /// Notes every piece that a bitfield announces. Indices are not held
    /// against any piece count.
    pub fn create_peer_have(&mut self, bits: Vec<u8>)
        ensures
            final(self)@ == (SessionView {
                peer_have: old(self)@.peer_have.union(announced(bits@)),
                ..old(self)@
            }),
            final(self).wf() == old(self).wf(),
    {
        let ghost had = self.peer_have@;
        let limit: usize = if bits.len() > 0x2000_0000 {
            0x2000_0000
        } else {
            bits.len()
        };
        let mut k: usize = 0;
        while k < limit
            invariant
                k <= limit,
                limit <= bits.len(),
                limit <= 0x2000_0000,
                limit == bits.len() || limit == 0x2000_0000,
                self.am_choked == old(self).am_choked,
                self.am_interested == old(self).am_interested,
                self.peer_choked == old(self).peer_choked,
                self.peer_interested == old(self).peer_interested,
                self.peer_requests == old(self).peer_requests,
                self.blocks == old(self).blocks,
                self.messages == old(self).messages,
                self.info_hash == old(self).info_hash,
                forall|index: u32|
                    #![trigger self.peer_have@.contains(index)]
                    self.peer_have@.contains(index) <==> had.contains(index) || (index / 8 < k
                        && marks(bits@, index)),
            decreases limit - k,
        {
            let byte: u8 = bits[k];
            let mut j: u8 = 0;
            while j < 8
                invariant
                    j <= 8,
                    k < limit,
                    limit <= bits.len(),
                    limit <= 0x2000_0000,
                    byte == bits@[k as int],
                    self.am_choked == old(self).am_choked,
                    self.am_interested == old(self).am_interested,
                    self.peer_choked == old(self).peer_choked,
                    self.peer_interested == old(self).peer_interested,
                    self.peer_requests == old(self).peer_requests,
                    self.blocks == old(self).blocks,
                    self.messages == old(self).messages,
                    self.info_hash == old(self).info_hash,
                    forall|index: u32|
                        #![trigger self.peer_have@.contains(index)]
                        self.peer_have@.contains(index) <==> had.contains(index) || ((index / 8 < k
                            || (index / 8 == k && index % 8 < j)) && marks(bits@, index)),
                decreases 8 - j,
            {
                let mask: u8 = 0x80u8 >> j;
                if 0 != byte & mask {
                    let index: u32 = (k * 8) as u32 + j as u32;
                    assert(index / 8 == k && index % 8 == j);
                    self.peer_have.insert(index);
                }
                j += 1;
            }
            k += 1;
        }
        proof {
            assert(self.peer_have@ =~= had.union(announced(bits@)));
        }
    }

    /// Applies one inbound message, or turns it down and leaves the session
    /// as it is. A message is turned down only where `accepts` says so.
    pub fn process(&mut self, msg: Message) -> (done: Result<(), ProtocolMismatch>)
        requires
            old(self).wf(),
        ensures
            final(self).wf(),
            match done {
                Ok(_) => accepts(old(self)@, msg@) && final(self)@ == applied(old(self)@, msg@),
                Err(_) => !accepts(old(self)@, msg@) && final(self)@ == old(self)@,
            },
    {
        match msg {
            Message::Handshake(info_hash, _) => {
                if !same_bytes(&self.info_hash, &info_hash) {
                    return Err(ProtocolMismatch);
                }
            },
            Message::KeepAlive() => {},
            Message::Choke() => {
                self.am_choked = true;
            },
            Message::Unchoke() => {
                self.am_choked = false;
            },
            Message::Interested() => {
                self.peer_interested = true;
            },
            Message::NotInterested() => {
                self.peer_interested = false;
            },
            Message::Have(index) => {
                self.peer_have(index);
            },
            Message::Bitfield(bits) => {
                self.create_peer_have(bits);
            },
            Message::Request(index, offset, length) => {
                self.peer_requests.insert(index, offset, length);
            },
            Message::Piece(index, offset, block) => {
                self.blocks.insert(index, offset, block);
            },
            Message::Cancel(index, offset, length) => {
                self.peer_requests.remove(index, offset, length);
            },
            Message::Port(_) => {},
        }
        Ok(())
    }

    /// Works the queue off from the front, applying each message, and stops
    /// behind the first that the session turns down.
    pub fn dispatch(&mut self) -> (done: Result<(), ProtocolMismatch>)
        requires
            old(self).wf(),
        ensures
            final(self).wf(),
            final(self)@ == dispatched(old(self)@),
            done is Ok <==> dispatches(old(self)@),
    {
        loop
            invariant
                self.wf(),
                dispatched(self@) == dispatched(old(self)@),
                dispatches(self@) == dispatches(old(self)@),
            decreases self.messages@.len(),
        {
            let ghost before = self@;
            match self.messages.pop_front() {
                Some(msg) => {
                    assert(views(self.messages@) =~= before.messages.skip(1));
                    assert(msg@ == before.messages[0]);
                    match self.process(msg) {
                        Ok(_) => {},
                        Err(e) => {
                            return Err(e);
                        },
                    }
                },
                None => {
                    return Ok(());
                },
            }
        }
    }

    /// Puts the messages of a peer's answer behind the queue and works the
    /// queue off.
    pub fn enqueue(&mut self, messages: Messages) -> (done: Result<(), ProtocolMismatch>)
        requires
            old(self).wf(),
        ensures
            final(self).wf(),
            final(self)@ == dispatched(
                SessionView { messages: old(self)@.messages + views(messages@), ..old(self)@ },
            ),
            done is Ok <==> dispatches(
                SessionView { messages: old(self)@.messages + views(messages@), ..old(self)@ },
            ),
    {
        let mut messages = messages;
        let ghost arrived = messages@;
        self.messages.append(&mut messages);
        assert(views(self.messages@) =~= old(self)@.messages + views(arrived));
        self.dispatch()
    }

    /// The message that asks the peer to unchoke us: interested.
    pub fn unchoke_me(&self) -> (msg: Message)
        ensures
            msg@ == MessageView::Interested,
    {
        Message::Interested()
    }

    /// The message that tells the peer we will serve it: unchoke.
    pub fn unchoke_peer(&self) -> (msg: Message)
        ensures
            msg@ == MessageView::Unchoke,
    {
        Message::Unchoke()
    }

    /// The message that asks for a block.
    pub fn request(&self, index: u32, offset: u32, size: u32) -> (msg: Message)
        ensures
            msg@ == MessageView::Request(index, offset, size),
    {
        Message::Request(index, offset, size)
    }

    /// The message that only asks the peer for what it has to say: a
    /// keep-alive.
    pub fn ping(&self) -> (msg: Message)
        ensures
            msg@ == MessageView::KeepAlive,
    {
        Message::KeepAlive()
    }
}

/// Inbound messages never change the info hash that the session stands for:
/// neither one message that is taken, nor a whole queue worked off.
pub proof fn lemma_info_hash_is_fixed(s: SessionView, m: MessageView)
    ensures
        applied(s, m).info_hash == s.info_hash,
        dispatched(s).info_hash == s.info_hash,
    decreases s.messages.len(),
{
    if s.messages.len() > 0 {
        let rest = SessionView { messages: s.messages.skip(1), ..s };
        if accepts(rest, s.messages[0]) {
            lemma_info_hash_is_fixed(applied(rest, s.messages[0]), m);
            lemma_info_hash_is_fixed(rest, s.messages[0]);
        }
    }
}

/// A queue that the session takes whole is worked off to the end.
pub proof fn lemma_dispatch_empties_queue(s: SessionView)
    requires
        dispatches(s),
    ensures
        dispatched(s).messages.len() == 0,
    decreases s.messages.len(),
{
    if s.messages.len() > 0 {
        let rest = SessionView { messages: s.messages.skip(1), ..s };
        lemma_dispatch_empties_queue(applied(rest, s.messages[0]));
    }
}

} // verus!
