//! The piece assembler: which blocks are still to be asked for, which have
//! come, and the pieces they make.

use vstd::prelude::*;
use crate::blocks::{indices_of, BlockMap, Place};
use crate::requests::{Request, RequestSet};

verus! {

/// The length of a block. Only the last block of a piece may be shorter.
pub const CHUNK_LEN: u32 = 16384;

/// How many pieces of `piece` bytes it takes to hold `total` bytes: the
/// quotient, rounded up.
pub open spec fn pieces(total: nat, piece: nat) -> nat
    recommends
        piece > 0,
{
    if total % piece == 0 {
        total / piece
    } else {
        total / piece + 1
    }
}

/// Whether `length` bytes at offset `begin` are one of the blocks that a
/// piece of `piece` bytes is cut into: blocks start at the multiples of
/// `CHUNK_LEN` below the piece's length and run for `CHUNK_LEN` bytes or to
/// the piece's end, whichever comes first.
pub open spec fn is_block(piece: nat, begin: u32, length: u32) -> bool {
    &&& begin % CHUNK_LEN == 0
    &&& begin < piece
    &&& length == if piece - begin < CHUNK_LEN {
        piece - begin
    } else {
        CHUNK_LEN as int
    }
}

/// The requests for all the blocks of one piece.
pub open spec fn piece_blocks(index: u32, piece: nat) -> Set<Request> {
    Set::new(|r: Request| r.0 == index && is_block(piece, r.1, r.2))
}

/// The bytes that stand in a row from `offset` on: the block at `offset`,
/// then the block where that one ends, and so on to the first place that has
/// no block. The row also ends at a place past `limit`, from where it could
/// only grow too long, and at a block of no bytes, which leads nowhere.
pub open spec fn row(received: Map<Place, Seq<u8>>, index: u32, offset: nat, limit: nat) -> Seq<u8>
    decreases
        (if offset <= limit {
            limit + 1 - offset
        } else {
            0
        }) as nat,
{
    if offset <= limit && offset <= u32::MAX && received.contains_key((index, offset as u32))
        && received[(index, offset as u32)].len() > 0 {
        let block = received[(index, offset as u32)];
        block + row(received, index, offset + block.len(), limit)
    } else {
        Seq::empty()
    }
}

/// The piece with this index, as far as the blocks received make it: the
/// row from offset 0, if it is exactly as long as a piece.
pub open spec fn piece_of(received: Map<Place, Seq<u8>>, index: u32, piece: nat) -> Option<Seq<u8>> {
    let bytes = row(received, index, 0, piece);
    if bytes.len() == piece {
        Some(bytes)
    } else {
        None
    }
}

/// An assembler as a mathematical value.
pub struct DataView {
    /// The info hash of the content.
    pub info_hash: Seq<u8>,
    /// The length of the content.
    pub total_length: nat,
    /// The length of a piece.
    pub piece_length: nat,
    /// The number of pieces.
    pub piece_count: nat,
    /// The requests still to be sent.
    pub pending: Set<Request>,
    /// The blocks that have come.
    pub received: Map<Place, Seq<u8>>,
}

/// What holds of every assembler: pieces have a length that an offset can
/// say, the piece count follows from the lengths, and every pending request
/// is for a block of a piece that exists.
pub open spec fn valid(v: DataView) -> bool {
    &&& 0 < v.piece_length <= u32::MAX
    &&& v.piece_count == pieces(v.total_length, v.piece_length)
    &&& forall|r: Request| #[trigger]
        v.pending.contains(r) ==> r.0 < v.piece_count && is_block(v.piece_length, r.1, r.2)
}

/// What a download is after, and how far it has come.
pub struct DataDesc {
    info_hash: Vec<u8>,
    total_len: usize,
    piece_len: usize,
    piece_count: usize,
    requests: RequestSet,
    blocks: BlockMap,
}

impl View for DataDesc {
    type V = DataView;

    closed spec fn view(&self) -> DataView {
        DataView {
            info_hash: self.info_hash@,
            total_length: self.total_len as nat,
            piece_length: self.piece_len as nat,
            piece_count: self.piece_count as nat,
            pending: self.requests@,
            received: self.blocks@,
        }
    }
}

impl DataDesc {
    /// Whether the parts that the view does not show are in order.
    pub closed spec fn parts_wf(&self) -> bool {
        self.requests.wf()
    }

    /// Whether the assembler is in order. Every assembler that `new` hands
    /// out is, and the methods keep it so.
    pub open spec fn wf(&self) -> bool {
        self.parts_wf() && valid(self@)
    }

    /// An assembler for `total` bytes in pieces of `piece` bytes, with
    /// nothing pending and nothing received. A piece has at least one byte
    /// and at most as many as a 32-bit offset can say.
    pub fn new(hash: Vec<u8>, total: usize, piece: usize) -> (desc: DataDesc)
        requires
            0 < piece <= u32::MAX,
        ensures
            desc.wf(),
            desc@ == (DataView {
                info_hash: hash@,
                total_length: total as nat,
                piece_length: piece as nat,
                piece_count: pieces(total as nat, piece as nat),
                pending: Set::empty(),
                received: Map::empty(),
            }),
    {
        let whole: usize = total / piece;
        let count: usize = if total % piece == 0 {
            whole
        } else {
            assert(whole < total) by (nonlinear_arith)
                requires
                    whole == total / piece,
                    total % piece != 0,
                    piece > 0,
            ;
            whole + 1
        };
        DataDesc {
            info_hash: hash,
            total_len: total,
            piece_len: piece,
            piece_count: count,
            requests: RequestSet::new(),
            blocks: BlockMap::new(),
        }
    }

    /// The info hash of the content.
    pub fn info_hash(&self) -> (hash: &Vec<u8>)
        ensures
            hash@ == self@.info_hash,
    {
        &self.info_hash
    }

    /// The number of pieces.
    pub fn piece_count(&self) -> (count: usize)
        ensures
            count == self@.piece_count,
    {
        self.piece_count
    }

    /// The length of a piece.
    pub fn piece_len(&self) -> (len: usize)
        ensures
            len == self@.piece_length,
    {
        self.piece_len
    }

    /// Makes every block of a piece pending. An index that names no piece
    /// changes nothing, and a block that is pending already stays so.
    pub fn add_index(&mut self, index: u32)
        requires
            old(self).wf(),
        ensures
            final(self).wf(),
            final(self)@ == if index < old(self)@.piece_count {
                DataView {
                    pending: old(self)@.pending.union(
                        piece_blocks(index, old(self)@.piece_length),
                    ),
                    ..old(self)@
                }
            } else {
                old(self)@
            },
    {
        if index as usize >= self.piece_count {
            return ;
        }
        let ghost had = self.requests@;
        let ghost len = self.piece_len as nat;
        let mut offset: u32 = 0;
        let mut piece: u32 = self.piece_len as u32;
        while piece > CHUNK_LEN
            invariant
                self.requests.wf(),
                self.info_hash == old(self).info_hash,
                self.total_len == old(self).total_len,
                self.piece_len == old(self).piece_len,
                self.piece_count == old(self).piece_count,
                self.blocks == old(self).blocks,
                len == self.piece_len,
                len <= u32::MAX,
                offset + piece == len,
                offset % CHUNK_LEN == 0,
                piece > 0,
                forall|r: Request|
                    #![trigger self.requests@.contains(r)]
                    self.requests@.contains(r) <==> had.contains(r) || (r.0 == index && r.1
                        < offset && is_block(len, r.1, r.2)),
            decreases piece,
        {
            self.requests.insert(index, offset, CHUNK_LEN);
            piece -= CHUNK_LEN;
            offset += CHUNK_LEN;
        }
        if piece > 0 {
            self.requests.insert(index, offset, piece);
        }
        proof {
            assert forall|r: Request|
                self.requests@.contains(r) == had.union(piece_blocks(index, len)).contains(r) by {
                if r.0 == index && is_block(len, r.1, r.2) && r.1 > offset {
                    assert(r.1 >= offset + CHUNK_LEN);
                }
            }
            assert(self.requests@ =~= had.union(piece_blocks(index, len)));
        }
    }

    /// Stores a block that has come, in place of any block that was at the
    /// same place.
    pub fn add_block(&mut self, index: u32, offset: u32, block: Vec<u8>)
        requires
            old(self).wf(),
        ensures
            final(self).wf(),
            final(self)@ == (DataView {
                received: old(self)@.received.insert((index, offset), block@),
                ..old(self)@
            }),
    {
        self.blocks.insert(index, offset, block);
    }

    /// Stores a copy of every block of a batch, in place of any block that
    /// was at the same place.
    pub fn load_blocks(&mut self, blocks: &BlockMap)
        requires
            old(self).wf(),
        ensures
            final(self).wf(),
            final(self)@ == (DataView {
                received: old(self)@.received.union_prefer_right(blocks@),
                ..old(self)@
            }),
    {
        self.blocks.load(blocks);
    }

    /// Takes some pending request out and hands it back, or says that none
    /// is pending. Which one leaves is not laid down.
    pub fn request(&mut self) -> (next: Option<Request>)
        requires
            old(self).wf(),
        ensures
            final(self).wf(),
            match next {
                Some(r) => {
                    &&& old(self)@.pending.contains(r)
                    &&& final(self)@ == (DataView {
                        pending: old(self)@.pending.remove(r),
                        ..old(self)@
                    })
                },
                None => old(self)@.pending == Set::<Request>::empty() && final(self)@ == old(
                    self,
                )@,
            },
    {
        self.requests.take()
    }

    /// Whether nothing is pending.
    pub fn is_done(&self) -> (done: bool)
        requires
            self.wf(),
        ensures
            done == (self@.pending == Set::<Request>::empty()),
    {
        self.requests.is_empty()
    }

    /// The piece indices that a block has come for, each once, in no
    /// particular order.
    pub fn get_indices(&self) -> (found: Vec<u32>)
        ensures
            found@.no_duplicates(),
            found@.to_set() == indices_of(self@.received),
    {
        self.blocks.indices()
    }

    /// The bytes of a piece, put together from the blocks that have come:
    /// the blocks in a row from offset 0, if together they are exactly as
    /// long as a piece. Otherwise the piece is not there yet.
    pub fn get_piece(&self, index: u32) -> (piece: Option<Vec<u8>>)
        requires
            self.wf(),
        ensures
            match piece {
                Some(bytes) => piece_of(self@.received, index, self@.piece_length) == Some(
                    bytes@,
                ),
                None => piece_of(self@.received, index, self@.piece_length) is None,
            },
    {
        let ghost received = self.blocks@;
        let ghost limit = self.piece_len as nat;
        let mut piece: Vec<u8> = Vec::new();
        let mut offset: usize = 0;
        assert(piece@ + row(received, index, 0, limit) =~= row(received, index, 0, limit));
        loop
            invariant
                self.wf(),
                received == self.blocks@,
                limit == self.piece_len,
                offset <= limit <= u32::MAX,
                piece@.len() == offset,
                row(received, index, 0, limit) == piece@ + row(received, index, offset as nat, limit),
            ensures
                row(received, index, 0, limit) == piece@,
            decreases limit - offset,
        {
            let ghost so_far = piece@;
            match self.blocks.get(index, offset as u32) {
                None => {
                    assert(so_far + Seq::<u8>::empty() =~= so_far);
                    break ;
                },
                Some(block) => {
                    if block.len() == 0 {
                        assert(so_far + Seq::<u8>::empty() =~= so_far);
                        break ;
                    }
                    if block.len() > self.piece_len - offset {
                        return None;
                    }
                    piece.extend_from_slice(block.as_slice());
                    offset += block.len();
                    assert(so_far + (block@ + row(received, index, offset as nat, limit)) =~= (
                    so_far + block@) + row(received, index, offset as nat, limit));
                },
            }
        }
        if offset == self.piece_len {
            Some(piece)
        } else {
            None
        }
    }
}

} // verus!
