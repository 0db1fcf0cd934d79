//! What holds of the wire format: decoding undoes encoding, a message cut
//! into pieces decodes as the whole does, and a handshake is recognised by
//! its first twenty bytes alone.

use vstd::prelude::*;
use crate::endian::{be_u32, lemma_u16_round_trip, lemma_u32_round_trip, u16_be, u32_be};
use crate::message::MessageView;
use crate::wire::{
    decoded, encodable, encoding, frame_at_head, frame_message, frames, handshake_at_head,
    nothing, payload, protocol_name, wire_len, Decoded,
};

verus! {

/// An encoding is as long as `wire_len` says.
pub proof fn lemma_encoding_len(m: MessageView)
    requires
        encodable(m),
    ensures
        encoding(m).len() == wire_len(m),
{
}

/// The payload of a message other than a handshake reads back as that
/// message.
pub proof fn lemma_payload_round_trip(m: MessageView)
    requires
        !(m is Handshake),
    ensures
        frame_message(payload(m)) == Some(m),
{
    let body = payload(m).skip(1);
    let none = Seq::<u8>::empty();
    match m {
        MessageView::Have(index) => {
            lemma_u32_round_trip(index, none);
            assert(body =~= u32_be(index) + none);
        },
        MessageView::Bitfield(bits) => {
            assert(body =~= bits);
        },
        MessageView::Request(index, begin, length) => {
            lemma_u32_round_trip(index, u32_be(begin) + u32_be(length));
            lemma_u32_round_trip(begin, u32_be(length));
            lemma_u32_round_trip(length, none);
            assert(body =~= u32_be(index) + (u32_be(begin) + u32_be(length)));
            assert(body.skip(4) =~= u32_be(begin) + u32_be(length));
            assert(body.skip(8) =~= u32_be(length) + none);
        },
        MessageView::Piece(index, begin, block) => {
            lemma_u32_round_trip(index, u32_be(begin) + block);
            lemma_u32_round_trip(begin, block);
            assert(body =~= u32_be(index) + (u32_be(begin) + block));
            assert(body.skip(4) =~= u32_be(begin) + block);
            assert(body.skip(8) =~= block);
        },
        MessageView::Cancel(index, begin, length) => {
            lemma_u32_round_trip(index, u32_be(begin) + u32_be(length));
            lemma_u32_round_trip(begin, u32_be(length));
            lemma_u32_round_trip(length, none);
            assert(body =~= u32_be(index) + (u32_be(begin) + u32_be(length)));
            assert(body.skip(4) =~= u32_be(begin) + u32_be(length));
            assert(body.skip(8) =~= u32_be(length) + none);
        },
        MessageView::Port(port) => {
            lemma_u16_round_trip(port, none);
            assert(body =~= u16_be(port) + none);
        },
        _ => {},
    }
}

/// No prefix of a frame's encoding opens with a handshake: where the
/// protocol name has its fourth letter, a frame has its message id.
pub proof fn lemma_frame_is_no_handshake(m: MessageView, k: int)
    requires
        encodable(m),
        !(m is Handshake),
        0 <= k <= encoding(m).len(),
    ensures
        !handshake_at_head(encoding(m).subrange(0, k)),
{
    let s = encoding(m).subrange(0, k);
    if handshake_at_head(s) {
        assert(s[4] == s.subrange(1, 20)[3]);
        assert(s[4] == payload(m)[0]);
    }
}

/// Decoding the encoding of a message gives that message alone and uses up
/// every byte.
pub proof fn lemma_decode_encode(m: MessageView)
    requires
        encodable(m),
    ensures
        decoded(encoding(m)) == (Decoded { messages: seq![m], consumed: encoding(m).len() }),
{
    let s = encoding(m);
    match m {
        MessageView::Handshake(info_hash, peer_id) => {
            assert(s.subrange(1, 20) =~= protocol_name());
            assert(s.subrange(28, 48) =~= info_hash);
            assert(s.subrange(48, 68) =~= peer_id);
        },
        _ => {
            let p = payload(m);
            lemma_frame_is_no_handshake(m, s.len() as int);
            assert(s.subrange(0, s.len() as int) =~= s);
            lemma_u32_round_trip(p.len() as u32, p);
            lemma_payload_round_trip(m);
            assert(s.subrange(4, 4 + p.len() as int) =~= p);
            assert(s.skip(4 + p.len() as int) =~= Seq::<u8>::empty());
            assert(frames(Seq::<u8>::empty()) == nothing());
            assert(seq![m] + Seq::<MessageView>::empty() =~= seq![m]);
        },
    }
}

/// A proper prefix of a message's encoding decodes to nothing and is left
/// whole.
pub proof fn lemma_prefix_waits(m: MessageView, k: int)
    requires
        encodable(m),
        0 <= k < encoding(m).len(),
    ensures
        decoded(encoding(m).subrange(0, k)) == nothing(),
{
    let s = encoding(m).subrange(0, k);
    match m {
        MessageView::Handshake(info_hash, peer_id) => {
            if k >= 4 {
                assert(be_u32(s) == 0x13426974);
            }
        },
        _ => {
            let p = payload(m);
            lemma_frame_is_no_handshake(m, k);
            if k >= 4 {
                lemma_u32_round_trip(p.len() as u32, p);
                assert(be_u32(s) == be_u32(encoding(m)));
            }
        },
    }
}

/// What the decoder yields when chunks arrive one after another: each is
/// appended to what the pass before it left, and a pass follows. The result
/// holds the messages of all passes in order and what stays buffered.
pub open spec fn fed(buffered: Seq<u8>, chunks: Seq<Seq<u8>>) -> (Seq<MessageView>, Seq<u8>)
    decreases chunks.len(),
{
    if chunks.len() == 0 {
        (Seq::empty(), buffered)
    } else {
        let s = buffered + chunks.first();
        let pass = decoded(s);
        let later = fed(s.skip(pass.consumed as int), chunks.drop_first());
        (pass.messages + later.0, later.1)
    }
}

/// Empty chunks into an empty buffer yield nothing.
proof fn lemma_fed_nothing(chunks: Seq<Seq<u8>>)
    requires
        chunks.flatten().len() == 0,
    ensures
        fed(Seq::empty(), chunks) == (Seq::<MessageView>::empty(), Seq::<u8>::empty()),
    decreases chunks.len(),
{
    if chunks.len() > 0 {
        let s = Seq::<u8>::empty() + chunks.first();
        assert(chunks.flatten() == chunks.first() + chunks.drop_first().flatten());
        assert(s =~= Seq::<u8>::empty());
        assert(frames(s) == nothing());
        assert(s.skip(0) =~= Seq::<u8>::empty());
        lemma_fed_nothing(chunks.drop_first());
        assert(Seq::<MessageView>::empty() + Seq::<MessageView>::empty() =~= Seq::<
            MessageView,
        >::empty());
    }
}

/// With a proper prefix of a message's encoding buffered and the rest of it
/// arriving in chunks, the passes yield the message once and leave nothing.
proof fn lemma_fed_rest(m: MessageView, buffered: Seq<u8>, chunks: Seq<Seq<u8>>)
    requires
        encodable(m),
        buffered + chunks.flatten() == encoding(m),
        buffered.len() < encoding(m).len(),
    ensures
        fed(buffered, chunks) == (seq![m], Seq::<u8>::empty()),
    decreases chunks.len(),
{
    let whole = encoding(m);
    if chunks.len() == 0 {
        assert(chunks.flatten() =~= Seq::<u8>::empty());
        assert(buffered + chunks.flatten() =~= buffered);
    } else {
        let s = buffered + chunks.first();
        let later = chunks.drop_first();
        assert(chunks.flatten() == chunks.first() + later.flatten());
        assert(s + later.flatten() =~= whole);
        assert(s =~= whole.subrange(0, s.len() as int));
        if s.len() < whole.len() {
            lemma_prefix_waits(m, s.len() as int);
            assert(s.skip(0) =~= s);
            lemma_fed_rest(m, s, later);
            assert(Seq::<MessageView>::empty() + seq![m] =~= seq![m]);
        } else {
            assert(s =~= whole);
            lemma_decode_encode(m);
            assert(s.skip(whole.len() as int) =~= Seq::<u8>::empty());
            lemma_fed_nothing(later);
            assert(seq![m] + Seq::<MessageView>::empty() =~= seq![m]);
        }
    }
}

/// However the encoding of a message is cut into chunks, feeding them to the
/// decoder one after another yields what feeding it whole does: the message,
/// once, with nothing left in the buffer.
pub proof fn lemma_chunks_decode_as_whole(m: MessageView, chunks: Seq<Seq<u8>>)
    requires
        encodable(m),
        chunks.flatten() == encoding(m),
    ensures
        fed(Seq::empty(), chunks) == (seq![m], Seq::<u8>::empty()),
        fed(Seq::empty(), seq![encoding(m)]) == (seq![m], Seq::<u8>::empty()),
{
    let none = Seq::<u8>::empty();
    lemma_encoding_len(m);
    assert(none + chunks.flatten() =~= encoding(m));
    lemma_fed_rest(m, none, chunks);
    let one = seq![encoding(m)];
    assert(one.drop_first() =~= Seq::<Seq<u8>>::empty());
    assert(one.flatten() =~= encoding(m)) by {
        assert(one.flatten() == one.first() + one.drop_first().flatten());
        assert(one.drop_first().flatten() =~= none);
    }
    assert(none + one.flatten() =~= encoding(m));
    lemma_fed_rest(m, none, one);
}

/// Frames never yield a handshake.
pub proof fn lemma_frames_hold_no_handshake(s: Seq<u8>)
    ensures
        forall|i: int| 0 <= i < frames(s).messages.len() ==> !(#[trigger] frames(s).messages[i] is Handshake),
    decreases s.len(),
{
    if frame_at_head(s) {
        let end = 4 + be_u32(s);
        lemma_frames_hold_no_handshake(s.skip(end));
    }
}

/// Sixty-eight bytes that open with 19 and the protocol name decode to the
/// handshake whose info hash and peer id are their last forty bytes, whatever
/// the reserved bytes hold.
pub proof fn lemma_handshake_exact(s: Seq<u8>)
    requires
        s.len() == 68,
        s[0] == 19,
        s.subrange(1, 20) == protocol_name(),
    ensures
        decoded(s) == (Decoded {
            messages: seq![MessageView::Handshake(s.subrange(28, 48), s.subrange(48, 68))],
            consumed: 68,
        }),
{
}

/// Change any one of the first twenty bytes of a handshake, the length byte
/// or a byte of the protocol name, and the decoder sees no handshake in it:
/// the bytes are read as frames, which yield none.
pub proof fn lemma_handshake_mutation(s: Seq<u8>, at: int, byte: u8)
    requires
        handshake_at_head(s),
        0 <= at < 20,
        byte != s[at],
    ensures
        !handshake_at_head(s.update(at, byte)),
        decoded(s.update(at, byte)) == frames(s.update(at, byte)),
        forall|i: int|
            0 <= i < decoded(s.update(at, byte)).messages.len() ==> !(
            #[trigger] decoded(s.update(at, byte)).messages[i] is Handshake),
{
    let t = s.update(at, byte);
    if at >= 1 {
        assert(t.subrange(1, 20)[at - 1] == byte);
        assert(s.subrange(1, 20)[at - 1] == s[at]);
    }
    lemma_frames_hold_no_handshake(t);
}

} // verus!
