use bytes::BytesMut;
use torrent_peer::error::EncodingError;
use torrent_peer::{Message, PeerCodec};

const NAME: &[u8] = b"BitTorrent protocol";

fn encoded(msg: Message) -> Vec<u8> {
    let mut codec = PeerCodec;
    let mut buf = BytesMut::new();
    assert!(codec.has_room(&msg, &buf));
    codec.encode(msg, &mut buf).unwrap();
    buf.to_vec()
}

fn decode_all(bytes: &[u8]) -> (Vec<Message>, Vec<u8>) {
    let mut codec = PeerCodec;
    let mut buf = BytesMut::from(bytes.to_vec());
    let messages = match codec.decode(&mut buf) {
        Some(queue) => queue.into_iter().collect(),
        None => Vec::new(),
    };
    (messages, buf.to_vec())
}

fn samples() -> Vec<Message> {
    vec![
        Message::Handshake(vec![7; 20], vec![9; 20]),
        Message::KeepAlive(),
        Message::Choke(),
        Message::Unchoke(),
        Message::Interested(),
        Message::NotInterested(),
        Message::Have(0x0102_0304),
        Message::Bitfield(vec![0b1011_0000, 0xff, 0]),
        Message::Bitfield(vec![]),
        Message::Request(1, 16384, 16384),
        Message::Piece(2, 32768, vec![1, 2, 3, 4, 5]),
        Message::Piece(0, 0, vec![]),
        Message::Cancel(u32::MAX, 0, 7232),
        Message::Port(6881),
    ]
}

fn handshake_bytes() -> Vec<u8> {
    let mut bytes = vec![19u8];
    bytes.extend_from_slice(NAME);
    bytes.extend_from_slice(&[0; 8]);
    bytes.extend_from_slice(&[0xaa; 20]);
    bytes.extend_from_slice(&[0xbb; 20]);
    bytes
}

#[test]
fn round_trip_of_every_kind() {
    for msg in samples() {
        let bytes = encoded(msg.clone());
        let (messages, rest) = decode_all(&bytes);
        assert_eq!(messages, vec![msg]);
        assert!(rest.is_empty());
    }
}

#[test]
fn handshake_layout() {
    let bytes = encoded(Message::Handshake(vec![0xaa; 20], vec![0xbb; 20]));
    assert_eq!(bytes.len(), 68);
    assert_eq!(bytes, handshake_bytes());
}

#[test]
fn keep_alive_layout() {
    assert_eq!(encoded(Message::KeepAlive()), vec![0, 0, 0, 0]);
}

#[test]
fn flag_layouts() {
    assert_eq!(encoded(Message::Choke()), vec![0, 0, 0, 1, 0]);
    assert_eq!(encoded(Message::Unchoke()), vec![0, 0, 0, 1, 1]);
    assert_eq!(encoded(Message::Interested()), vec![0, 0, 0, 1, 2]);
    assert_eq!(encoded(Message::NotInterested()), vec![0, 0, 0, 1, 3]);
}

#[test]
fn have_layout() {
    assert_eq!(encoded(Message::Have(0x0102_0304)), vec![0, 0, 0, 5, 4, 1, 2, 3, 4]);
}

#[test]
fn bitfield_layout() {
    assert_eq!(encoded(Message::Bitfield(vec![0xb0, 0x01])), vec![0, 0, 0, 3, 5, 0xb0, 0x01]);
}

#[test]
fn request_layout() {
    assert_eq!(
        encoded(Message::Request(1, 16384, 7232)),
        vec![0, 0, 0, 13, 6, 0, 0, 0, 1, 0, 0, 0x40, 0, 0, 0, 0x1c, 0x40]
    );
}

#[test]
fn piece_layout() {
    assert_eq!(
        encoded(Message::Piece(1, 2, vec![9, 8, 7])),
        vec![0, 0, 0, 12, 7, 0, 0, 0, 1, 0, 0, 0, 2, 9, 8, 7]
    );
}

#[test]
fn cancel_layout() {
    assert_eq!(
        encoded(Message::Cancel(0x0a0b_0c0d, 0, 1)),
        vec![0, 0, 0, 13, 8, 0x0a, 0x0b, 0x0c, 0x0d, 0, 0, 0, 0, 0, 0, 0, 1]
    );
}

#[test]
fn port_layout() {
    assert_eq!(encoded(Message::Port(0x1ae1)), vec![0, 0, 0, 3, 9, 0x1a, 0xe1]);
}

#[test]
fn encode_appends_to_what_is_buffered() {
    let mut codec = PeerCodec;
    let mut buf = BytesMut::from(vec![1u8, 2, 3]);
    codec.encode(Message::Choke(), &mut buf).unwrap();
    codec.encode(Message::Have(1), &mut buf).unwrap();
    assert_eq!(buf.to_vec(), vec![1, 2, 3, 0, 0, 0, 1, 0, 0, 0, 0, 5, 4, 0, 0, 0, 1]);
}

#[test]
fn encode_turns_down_a_short_info_hash() {
    let mut codec = PeerCodec;
    let mut buf = BytesMut::from(vec![5u8]);
    let done = codec.encode(Message::Handshake(vec![0; 19], vec![0; 20]), &mut buf);
    assert_eq!(done, Err(EncodingError::HashInfoLength));
    assert_eq!(buf.to_vec(), vec![5]);
}

#[test]
fn encode_turns_down_a_long_peer_id() {
    let mut codec = PeerCodec;
    let mut buf = BytesMut::new();
    let done = codec.encode(Message::Handshake(vec![0; 20], vec![0; 21]), &mut buf);
    assert_eq!(done, Err(EncodingError::PeerIdLength));
    assert!(buf.is_empty());
}

#[test]
fn encode_looks_at_the_info_hash_first() {
    let mut codec = PeerCodec;
    let mut buf = BytesMut::new();
    let done = codec.encode(Message::Handshake(vec![], vec![]), &mut buf);
    assert_eq!(done, Err(EncodingError::HashInfoLength));
}

#[test]
fn encoding_errors_in_words() {
    assert_eq!(EncodingError::HashInfoLength.message(), "HASH INFO length shall be 20 bytes");
    assert_eq!(EncodingError::PeerIdLength.message(), "PEER ID length shall be 20 bytes");
}

#[test]
fn has_room_for_ordinary_messages() {
    let codec = PeerCodec;
    let buf = BytesMut::from(vec![0u8; 100]);
    for msg in samples() {
        assert!(codec.has_room(&msg, &buf));
    }
    assert!(codec.has_room(&Message::Handshake(vec![], vec![1]), &buf));
}

#[test]
fn decode_of_nothing() {
    let (messages, rest) = decode_all(&[]);
    assert!(messages.is_empty());
    assert!(rest.is_empty());
    let mut codec = PeerCodec;
    let mut buf = BytesMut::new();
    assert!(codec.decode(&mut buf).is_none());
}

#[test]
fn decode_takes_every_whole_frame() {
    let mut bytes = Vec::new();
    for msg in samples().into_iter().skip(1) {
        bytes.extend_from_slice(&encoded(msg));
    }
    let (messages, rest) = decode_all(&bytes);
    let expected: Vec<Message> = samples().into_iter().skip(1).collect();
    assert_eq!(messages, expected);
    assert!(rest.is_empty());
}

#[test]
fn decode_leaves_an_incomplete_frame() {
    let mut bytes = encoded(Message::Have(3));
    bytes.extend_from_slice(&[0, 0, 0, 13, 6, 0, 0]);
    let (messages, rest) = decode_all(&bytes);
    assert_eq!(messages, vec![Message::Have(3)]);
    assert_eq!(rest, vec![0, 0, 0, 13, 6, 0, 0]);
}

#[test]
fn decode_waits_for_the_length() {
    let (messages, rest) = decode_all(&[0, 0, 0]);
    assert!(messages.is_empty());
    assert_eq!(rest, vec![0, 0, 0]);
}

#[test]
fn decode_drops_an_unknown_id_and_goes_on() {
    let mut bytes = vec![0, 0, 0, 4, 200, 1, 2, 3];
    bytes.extend_from_slice(&encoded(Message::Unchoke()));
    let (messages, rest) = decode_all(&bytes);
    assert_eq!(messages, vec![Message::Unchoke()]);
    assert!(rest.is_empty());
}

#[test]
fn decode_of_dropped_frames_alone_is_none() {
    let mut codec = PeerCodec;
    let mut buf = BytesMut::from(vec![0u8, 0, 0, 2, 77, 1, 0, 0, 0, 1, 10]);
    assert!(codec.decode(&mut buf).is_none());
    assert!(buf.is_empty());
}

#[test]
fn decode_drops_frames_too_short_for_their_fields() {
    let short: Vec<Vec<u8>> = vec![
        vec![0, 0, 0, 4, 4, 1, 2, 3],
        vec![0, 0, 0, 12, 6, 0, 0, 0, 1, 0, 0, 0, 2, 0, 0, 0],
        vec![0, 0, 0, 8, 7, 0, 0, 0, 1, 0, 0, 0],
        vec![0, 0, 0, 1, 8],
        vec![0, 0, 0, 2, 9, 1],
    ];
    for frame in short {
        let mut bytes = frame.clone();
        bytes.extend_from_slice(&encoded(Message::Port(80)));
        let (messages, rest) = decode_all(&bytes);
        assert_eq!(messages, vec![Message::Port(80)]);
        assert!(rest.is_empty());
    }
}

#[test]
fn decode_passes_over_bytes_behind_the_fields() {
    let mut bytes = vec![0, 0, 0, 7, 4, 0, 0, 0, 9, 0xee, 0xee];
    bytes.extend_from_slice(&[0, 0, 0, 3, 1, 0xee, 0xee]);
    bytes.extend_from_slice(&encoded(Message::Choke()));
    let (messages, rest) = decode_all(&bytes);
    assert_eq!(messages, vec![Message::Have(9), Message::Unchoke(), Message::Choke()]);
    assert!(rest.is_empty());
}

#[test]
fn decode_reads_the_flag_ids() {
    let (messages, _) = decode_all(&[0, 0, 0, 1, 2, 0, 0, 0, 1, 3]);
    assert_eq!(messages, vec![Message::Interested(), Message::NotInterested()]);
}

#[test]
fn decode_takes_a_piece_without_a_block() {
    let (messages, rest) = decode_all(&[0, 0, 0, 9, 7, 0, 0, 0, 1, 0, 0, 0, 2]);
    assert_eq!(messages, vec![Message::Piece(1, 2, vec![])]);
    assert!(rest.is_empty());
}

#[test]
fn handshake_exactness() {
    let bytes = handshake_bytes();
    let (messages, rest) = decode_all(&bytes);
    assert_eq!(messages, vec![Message::Handshake(vec![0xaa; 20], vec![0xbb; 20])]);
    assert!(rest.is_empty());
}

#[test]
fn handshake_with_reserved_bits_set() {
    let mut bytes = handshake_bytes();
    bytes[25] = 0x10;
    bytes[27] = 0x05;
    let (messages, _) = decode_all(&bytes);
    assert_eq!(messages, vec![Message::Handshake(vec![0xaa; 20], vec![0xbb; 20])]);
}

#[test]
fn handshake_name_mutations_fall_back_to_frames() {
    for at in 0..20 {
        let mut bytes = handshake_bytes();
        bytes[at] ^= 0x01;
        let (messages, rest) = decode_all(&bytes);
        assert!(messages.iter().all(|m| !matches!(m, Message::Handshake(_, _))));
        assert!(messages.is_empty());
        assert_eq!(rest, bytes);
    }
}

#[test]
fn handshake_is_taken_alone() {
    let mut bytes = handshake_bytes();
    bytes.extend_from_slice(&encoded(Message::Unchoke()));
    let mut codec = PeerCodec;
    let mut buf = BytesMut::from(bytes);
    let first: Vec<Message> = codec.decode(&mut buf).unwrap().into_iter().collect();
    assert_eq!(first, vec![Message::Handshake(vec![0xaa; 20], vec![0xbb; 20])]);
    assert_eq!(buf.to_vec(), vec![0, 0, 0, 1, 1]);
    let second: Vec<Message> = codec.decode(&mut buf).unwrap().into_iter().collect();
    assert_eq!(second, vec![Message::Unchoke()]);
    assert!(buf.is_empty());
}

#[test]
fn handshake_helper_leaves_other_bytes() {
    let codec = PeerCodec;
    let mut buf = BytesMut::from(vec![19u8; 80]);
    assert_eq!(codec.handshake(&mut buf), None);
    assert_eq!(buf.len(), 80);
    let mut short = BytesMut::from(handshake_bytes()[..67].to_vec());
    assert_eq!(codec.handshake(&mut short), None);
    assert_eq!(short.len(), 67);
}

#[test]
fn field_readers_take_their_fields() {
    let codec = PeerCodec;
    let mut buf = BytesMut::from(vec![0u8, 0, 1, 2, 0xff]);
    assert_eq!(codec.have(&mut buf), Some(Message::Have(258)));
    assert_eq!(buf.to_vec(), vec![0xff]);
    assert_eq!(codec.have(&mut buf), None);
    assert_eq!(buf.to_vec(), vec![0xff]);

    let mut buf = BytesMut::from(vec![1u8, 2, 3, 4]);
    assert_eq!(codec.bitfield(&mut buf, 4), Some(Message::Bitfield(vec![1, 2, 3])));
    assert_eq!(buf.to_vec(), vec![4]);
    assert_eq!(codec.bitfield(&mut buf, 3), None);

    let mut buf = BytesMut::from(vec![0u8, 0, 0, 1, 0, 0, 0, 2, 0, 0, 0, 3, 9]);
    assert_eq!(codec.request(&mut buf), Some(Message::Request(1, 2, 3)));
    assert_eq!(buf.to_vec(), vec![9]);
    assert_eq!(codec.request(&mut buf), None);

    let mut buf = BytesMut::from(vec![0u8, 0, 0, 1, 0, 0, 0, 2, 0, 0, 0, 3, 9]);
    assert_eq!(codec.cancel(&mut buf), Some(Message::Cancel(1, 2, 3)));
    assert_eq!(buf.to_vec(), vec![9]);

    let mut buf = BytesMut::from(vec![0u8, 0, 0, 1, 0, 0, 0, 2, 5, 6, 7]);
    assert_eq!(codec.piece(&mut buf, 11), Some(Message::Piece(1, 2, vec![5, 6])));
    assert_eq!(buf.to_vec(), vec![7]);
    assert_eq!(codec.piece(&mut buf, 8), None);
    assert_eq!(codec.piece(&mut buf, 12), None);

    let mut buf = BytesMut::from(vec![0x1au8, 0xe1, 3]);
    assert_eq!(codec.port(&mut buf), Some(Message::Port(6881)));
    assert_eq!(buf.to_vec(), vec![3]);
    assert_eq!(codec.port(&mut buf), None);
}

#[test]
fn flag_helpers() {
    let codec = PeerCodec;
    assert_eq!(codec.choke(), Some(Message::Choke()));
    assert_eq!(codec.unchoke(), Some(Message::Unchoke()));
    assert_eq!(codec.interested(), Some(Message::Interested()));
    assert_eq!(codec.not_interested(), Some(Message::NotInterested()));
}

fn feed(chunks: &[&[u8]]) -> (Vec<Message>, Vec<u8>) {
    let mut codec = PeerCodec;
    let mut buf = BytesMut::new();
    let mut messages = Vec::new();
    for chunk in chunks {
        buf.extend_from_slice(chunk);
        if let Some(queue) = codec.decode(&mut buf) {
            messages.extend(queue);
        }
    }
    (messages, buf.to_vec())
}

#[test]
fn resumability_byte_by_byte() {
    for msg in samples() {
        let bytes = encoded(msg.clone());
        let chunks: Vec<&[u8]> = bytes.chunks(1).collect();
        let (messages, rest) = feed(&chunks);
        assert_eq!(messages, vec![msg]);
        assert!(rest.is_empty());
    }
}

#[test]
fn resumability_in_uneven_chunks() {
    for msg in samples() {
        let bytes = encoded(msg.clone());
        for cut in 0..=bytes.len() {
            let (head, tail) = bytes.split_at(cut);
            let empty: &[u8] = &[];
            let (messages, rest) = feed(&[empty, head, empty, tail, empty]);
            assert_eq!(messages, vec![msg.clone()]);
            assert!(rest.is_empty());
        }
    }
}

#[test]
fn a_prefix_is_left_whole() {
    let bytes = encoded(Message::Piece(1, 0, vec![3; 100]));
    for cut in 0..bytes.len() {
        let (messages, rest) = decode_all(&bytes[..cut]);
        assert!(messages.is_empty());
        assert_eq!(rest, bytes[..cut].to_vec());
    }
}

#[test]
fn try_encode_encodes_what_fits() {
    let mut codec = PeerCodec;
    let mut buf = BytesMut::from(vec![9u8]);
    assert_eq!(codec.try_encode(Message::Port(1), &mut buf), Some(Ok(())));
    assert_eq!(buf.to_vec(), vec![9, 0, 0, 0, 3, 9, 0, 1]);
    assert_eq!(
        codec.try_encode(Message::Handshake(vec![0; 20], vec![]), &mut buf),
        Some(Err(EncodingError::PeerIdLength))
    );
    assert_eq!(buf.to_vec(), vec![9, 0, 0, 0, 3, 9, 0, 1]);
}
