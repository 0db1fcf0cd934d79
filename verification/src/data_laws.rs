//! What holds of the assembler's arithmetic: the piece count is the rounded-up
//! quotient, the blocks of a piece tile it, a gap hides what lies behind it,
//! and a piece whose blocks have all come is their concatenation.

use vstd::prelude::*;
use crate::blocks::Place;
use crate::data::{is_block, piece_of, pieces, row, CHUNK_LEN};

verus! {

/// The piece count is the least number of pieces that hold the content.
pub proof fn lemma_pieces_is_ceiling(total: nat, piece: nat)
    requires
        piece > 0,
    ensures
        pieces(total, piece) * piece >= total,
        total > 0 ==> (pieces(total, piece) - 1) * piece < total,
        total == 0 ==> pieces(total, piece) == 0,
{
    let q = total / piece;
    let r = total % piece;
    assert(total == q * piece + r && 0 <= r < piece) by (nonlinear_arith)
        requires
            piece > 0,
            q == total / piece,
            r == total % piece,
    ;
    assert((q + 1) * piece == q * piece + piece) by (nonlinear_arith);
    assert((q - 1) * piece == q * piece - piece) by (nonlinear_arith);
    if total == 0 {
        assert(q == 0) by (nonlinear_arith)
            requires
                0 == q * piece + r,
                0 <= r,
                piece > 0,
                q >= 0,
        ;
    }
}

/// A block has at least one byte and at most `CHUNK_LEN`, and ends within
/// the piece.
pub proof fn lemma_block_within(piece: nat, begin: u32, length: u32)
    requires
        is_block(piece, begin, length),
    ensures
        0 < length <= CHUNK_LEN,
        begin + length <= piece,
{
}

/// The blocks of a piece tile it: every byte of the piece lies in the block
/// that starts at the last multiple of `CHUNK_LEN` up to it, and in no
/// other. So the lengths of the blocks add up to the piece's length.
pub proof fn lemma_blocks_tile(piece: nat, at: nat)
    requires
        piece <= u32::MAX,
        at < piece,
    ensures
        ({
            let begin = (at - at % (CHUNK_LEN as nat)) as u32;
            let length = if piece - begin < CHUNK_LEN {
                (piece - begin) as u32
            } else {
                CHUNK_LEN
            };
            &&& is_block(piece, begin, length)
            &&& begin <= at < begin + length
            &&& forall|b: u32, l: u32|
                is_block(piece, b, l) && b <= at < b + l ==> b == begin && l == length
        }),
{
}

/// Whether two collections of blocks hold the same at every offset of a piece
/// up to `upto`.
pub open spec fn agree(
    received: Map<Place, Seq<u8>>,
    later: Map<Place, Seq<u8>>,
    index: u32,
    upto: nat,
) -> bool {
    forall|o: u32|
        #![trigger received.contains_key((index, o))]
        #![trigger later.contains_key((index, o))]
        o <= upto ==> received.contains_key((index, o)) == later.contains_key((index, o)) && (
        received.contains_key((index, o)) ==> received[(index, o)] == later[(index, o)])
}

/// Where two collections of blocks hold the same at every offset of a piece
/// up to `upto`, a row that ends by then is the same in both.
pub proof fn lemma_row_agrees(
    received: Map<Place, Seq<u8>>,
    later: Map<Place, Seq<u8>>,
    index: u32,
    offset: nat,
    limit: nat,
    upto: nat,
)
    requires
        offset + row(received, index, offset, limit).len() <= upto,
        agree(received, later, index, upto),
    ensures
        row(later, index, offset, limit) == row(received, index, offset, limit),
    decreases
        (if offset <= limit {
            limit + 1 - offset
        } else {
            0
        }) as nat,
{
    if offset <= limit && offset <= u32::MAX {
        let o = offset as u32;
        assert(o <= upto);
        if received.contains_key((index, o)) && received[(index, o)].len() > 0 {
            let block = received[(index, o)];
            lemma_row_agrees(received, later, index, offset + block.len(), limit, upto);
        }
    }
}

/// A gap hides what lies behind it: where the row from offset 0 ends short
/// of the piece's length, the piece is not there, whatever blocks come in at
/// offsets behind the row's end.
pub proof fn lemma_gap_hides_later_blocks(
    received: Map<Place, Seq<u8>>,
    later: Map<Place, Seq<u8>>,
    index: u32,
    piece: nat,
)
    requires
        row(received, index, 0, piece).len() < piece,
        agree(received, later, index, row(received, index, 0, piece).len()),
    ensures
        piece_of(received, index, piece) is None,
        piece_of(later, index, piece) is None,
{
    lemma_row_agrees(received, later, index, 0, piece, row(received, index, 0, piece).len());
}

/// With every block of a piece there in its full length, and nothing
/// behind the piece's end, the row from a block's start runs to the end of
/// the piece, and each of its bytes is the byte of the block that it lies in.
proof fn lemma_row_of_blocks(received: Map<Place, Seq<u8>>, index: u32, piece: nat, offset: nat)
    requires
        0 < piece <= u32::MAX,
        offset <= piece,
        offset % (CHUNK_LEN as nat) == 0 || offset == piece,
        forall|b: u32, l: u32| #[trigger]
            is_block(piece, b, l) ==> received.contains_key((index, b)) && received[(index, b)].len()
                == l,
        !received.contains_key((index, piece as u32)),
    ensures
        row(received, index, offset, piece).len() == piece - offset,
        forall|at: int|
            offset <= at < piece ==> #[trigger] row(received, index, offset, piece)[at - offset]
                == received[(index, (at - at % (CHUNK_LEN as int)) as u32)][at % (
            CHUNK_LEN as int)],
    decreases piece - offset,
{
    if offset < piece {
        let begin = offset as u32;
        let length = if piece - begin < CHUNK_LEN {
            (piece - begin) as u32
        } else {
            CHUNK_LEN
        };
        assert(is_block(piece, begin, length));
        let block = received[(index, begin)];
        assert(block.len() == length);
        let next = offset + block.len();
        lemma_row_of_blocks(received, index, piece, next);
        let rest = row(received, index, next, piece);
        let whole = row(received, index, offset, piece);
        assert(whole == block + rest);
        assert forall|at: int| offset <= at < piece implies #[trigger] whole[at - offset]
            == received[(index, (at - at % (CHUNK_LEN as int)) as u32)][at % (
        CHUNK_LEN as int)] by {
            if at < next {
                assert(at - at % (CHUNK_LEN as int) == offset);
                assert(whole[at - offset] == block[at - offset]);
            } else {
                assert(whole[at - offset] == rest[at - next]);
            }
        }
    }
}

/// A piece whose blocks have all come, each in its full length, with
/// nothing stored behind the piece's end, is there: it is as long as a
/// piece, and each of its bytes is the byte of the block that it lies in.
pub proof fn lemma_whole_piece(received: Map<Place, Seq<u8>>, index: u32, piece: nat)
    requires
        0 < piece <= u32::MAX,
        forall|b: u32, l: u32| #[trigger]
            is_block(piece, b, l) ==> received.contains_key((index, b)) && received[(index, b)].len()
                == l,
        !received.contains_key((index, piece as u32)),
    ensures
        piece_of(received, index, piece) matches Some(bytes) && bytes.len() == piece && forall|
            at: int,
        |
            0 <= at < piece ==> #[trigger] bytes[at] == received[(
                index,
                (at - at % (CHUNK_LEN as int)) as u32,
            )][at % (CHUNK_LEN as int)],
{
    lemma_row_of_blocks(received, index, piece, 0);
    let bytes = row(received, index, 0, piece);
    assert forall|at: int| 0 <= at < piece implies #[trigger] bytes[at] == received[(
        index,
        (at - at % (CHUNK_LEN as int)) as u32,
    )][at % (CHUNK_LEN as int)] by {
        assert(bytes[at] == bytes[at - 0]);
    }
}

} // verus!
