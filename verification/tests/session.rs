use std::collections::VecDeque;
use torrent_peer::error::ProtocolMismatch;
use torrent_peer::{Client, Message};

fn batch(messages: Vec<Message>) -> VecDeque<Message> {
    messages.into_iter().collect()
}

fn have(client: &Client) -> Vec<u32> {
    let mut indices: Vec<u32> = client.peer_have.iter().cloned().collect();
    indices.sort();
    indices
}

#[test]
fn a_new_session() {
    let client = Client::connect();
    assert!(client.am_choked);
    assert!(!client.am_interested);
    assert!(client.peer_choked);
    assert!(!client.peer_interested);
    assert!(client.peer_have.is_empty());
    assert!(client.peer_requests.is_empty());
    assert!(client.blocks.indices().is_empty());
    assert!(client.messages.is_empty());
    assert!(client.info_hash.is_empty());
}

#[test]
fn bitfield_decode() {
    let mut client = Client::connect();
    client.process(Message::Bitfield(vec![0b1011_0000])).unwrap();
    assert_eq!(have(&client), vec![0, 2, 3]);
    for index in [1u32, 4, 5, 6, 7] {
        assert!(!client.peer_have.contains(&index));
    }
}

#[test]
fn bitfield_over_several_bytes() {
    let mut client = Client::connect();
    client.create_peer_have(vec![0x00, 0x81, 0xff]);
    assert_eq!(have(&client), vec![8, 15, 16, 17, 18, 19, 20, 21, 22, 23]);
}

#[test]
fn bitfield_adds_to_what_is_known() {
    let mut client = Client::connect();
    client.peer_have(100);
    client.create_peer_have(vec![0x01]);
    client.create_peer_have(vec![]);
    assert_eq!(have(&client), vec![7, 100]);
}

#[test]
fn have_is_idempotent() {
    let mut client = Client::connect();
    client.process(Message::Have(4)).unwrap();
    client.process(Message::Have(4)).unwrap();
    client.process(Message::Have(u32::MAX)).unwrap();
    assert_eq!(have(&client), vec![4, u32::MAX]);
}

#[test]
fn choke_and_interest_flags() {
    let mut client = Client::connect();
    client.process(Message::Unchoke()).unwrap();
    assert!(!client.am_choked);
    client.process(Message::Choke()).unwrap();
    assert!(client.am_choked);
    client.process(Message::Interested()).unwrap();
    assert!(client.peer_interested);
    client.process(Message::NotInterested()).unwrap();
    assert!(!client.peer_interested);
    assert!(client.peer_choked);
    assert!(!client.am_interested);
}

#[test]
fn keep_alive_and_port_change_nothing() {
    let mut client = Client::connect();
    client.process(Message::KeepAlive()).unwrap();
    client.process(Message::Port(6881)).unwrap();
    assert!(client.am_choked);
    assert!(client.peer_have.is_empty());
    assert!(client.peer_requests.is_empty());
    assert!(client.blocks.indices().is_empty());
}

#[test]
fn requests_and_cancels() {
    let mut client = Client::connect();
    client.process(Message::Request(1, 0, 16384)).unwrap();
    client.process(Message::Request(1, 16384, 16384)).unwrap();
    client.process(Message::Request(1, 0, 16384)).unwrap();
    assert!(client.peer_requests.contains(1, 0, 16384));
    assert!(client.peer_requests.contains(1, 16384, 16384));
    assert!(!client.peer_requests.contains(1, 0, 16383));
    assert!(!client.peer_requests.contains(0, 1, 16384));
    client.process(Message::Cancel(1, 0, 16384)).unwrap();
    assert!(!client.peer_requests.contains(1, 0, 16384));
    assert!(client.peer_requests.contains(1, 16384, 16384));
    client.process(Message::Cancel(9, 9, 9)).unwrap();
    assert!(client.peer_requests.contains(1, 16384, 16384));
}

#[test]
fn pieces_are_kept_by_place() {
    let mut client = Client::connect();
    client.process(Message::Piece(3, 16384, vec![1, 2])).unwrap();
    client.process(Message::Piece(3, 0, vec![9])).unwrap();
    client.process(Message::Piece(3, 16384, vec![7, 7, 7])).unwrap();
    assert_eq!(client.blocks.get(3, 16384), Some(&vec![7, 7, 7]));
    assert_eq!(client.blocks.get(3, 0), Some(&vec![9]));
    assert_eq!(client.blocks.get(16384, 3), None);
    assert_eq!(client.blocks.indices(), vec![3]);
}

#[test]
fn handshake_records_the_info_hash() {
    let mut client = Client::connect();
    let msg = client.handshake(vec![5; 20], b"-01-TORRENT-PEER-RS-");
    assert_eq!(msg, Message::Handshake(vec![5; 20], b"-01-TORRENT-PEER-RS-".to_vec()));
    assert_eq!(client.info_hash, vec![5; 20]);
}

#[test]
fn handshake_with_the_same_hash_is_taken() {
    let mut client = Client::connect();
    client.handshake(vec![5; 20], b"me");
    assert_eq!(client.enqueue(batch(vec![Message::Handshake(vec![5; 20], vec![1; 20])])), Ok(()));
    assert_eq!(client.process(Message::Handshake(vec![5; 20], vec![2; 20])), Ok(()));
    assert_eq!(client.info_hash, vec![5; 20]);
}

#[test]
fn handshake_with_another_hash_is_a_mismatch() {
    let mut client = Client::connect();
    client.handshake(vec![5; 20], b"me");
    assert_eq!(
        client.process(Message::Handshake(vec![6; 20], vec![1; 20])),
        Err(ProtocolMismatch)
    );
    assert_eq!(
        client.process(Message::Handshake(vec![5; 19], vec![1; 20])),
        Err(ProtocolMismatch)
    );
    assert_eq!(client.info_hash, vec![5; 20]);
    assert_eq!(ProtocolMismatch.message(), "Unexpected INFO hash");
}

#[test]
fn enqueue_applies_in_order() {
    let mut client = Client::connect();
    let done = client.enqueue(batch(vec![
        Message::Unchoke(),
        Message::Have(1),
        Message::Choke(),
        Message::Bitfield(vec![0x80]),
        Message::Unchoke(),
    ]));
    assert_eq!(done, Ok(()));
    assert!(!client.am_choked);
    assert_eq!(have(&client), vec![0, 1]);
    assert!(client.messages.is_empty());
}

#[test]
fn dispatch_stops_behind_a_mismatch() {
    let mut client = Client::connect();
    client.handshake(vec![1; 20], b"me");
    let done = client.enqueue(batch(vec![
        Message::Have(1),
        Message::Handshake(vec![2; 20], vec![0; 20]),
        Message::Have(2),
        Message::Unchoke(),
    ]));
    assert_eq!(done, Err(ProtocolMismatch));
    assert_eq!(have(&client), vec![1]);
    assert!(client.am_choked);
    let left: Vec<Message> = client.messages.iter().cloned().collect();
    assert_eq!(left, vec![Message::Have(2), Message::Unchoke()]);
    assert_eq!(client.dispatch(), Ok(()));
    assert_eq!(have(&client), vec![1, 2]);
    assert!(!client.am_choked);
}

#[test]
fn dispatch_of_an_empty_queue() {
    let mut client = Client::connect();
    assert_eq!(client.dispatch(), Ok(()));
    assert_eq!(client.enqueue(VecDeque::new()), Ok(()));
}

#[test]
fn messages_to_send() {
    let client = Client::connect();
    assert_eq!(client.unchoke_me(), Message::Interested());
    assert_eq!(client.unchoke_peer(), Message::Unchoke());
    assert_eq!(client.request(1, 2, 3), Message::Request(1, 2, 3));
    assert_eq!(client.ping(), Message::KeepAlive());
}
