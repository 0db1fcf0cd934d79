use std::collections::VecDeque;
use torrent_peer::download::{Step, TRIES_TO_UNCHOKE};
use torrent_peer::error::AttemptsExceeded;
use torrent_peer::{Client, DataDesc, Download, Message};

fn sent(step: Result<Step, AttemptsExceeded>) -> Message {
    match step {
        Ok(Step::Send(msg)) => msg,
        Ok(Step::Done) => panic!("the download is over"),
        Err(_) => panic!("the driver gave up"),
    }
}

#[test]
fn driver_termination() {
    let client = Client::connect();
    let mut desc = DataDesc::new(vec![0; 20], 100_000, 40_000);
    desc.add_index(0);
    let mut driver = Download::new(5);
    let mut requests = 0;
    let mut steps = 0;
    let outcome = loop {
        steps += 1;
        match driver.step(&client, &mut desc) {
            Ok(Step::Send(Message::Request(_, _, _))) => requests += 1,
            Ok(Step::Send(msg)) => assert_eq!(msg, Message::Interested()),
            Ok(Step::Done) => break Ok(()),
            Err(e) => break Err(e),
        }
        assert!(steps < 100);
    };
    assert_eq!(outcome, Err(AttemptsExceeded));
    assert_eq!(requests, 0);
    assert_eq!(steps, 6);
    assert_eq!(driver.attempts, 0);
    assert!(!desc.is_done());
    assert_eq!(AttemptsExceeded.message(), "Attempt limit exceeded");
}

#[test]
fn the_default_budget() {
    assert_eq!(TRIES_TO_UNCHOKE, 5);
    let driver = Download::new(TRIES_TO_UNCHOKE);
    assert_eq!(driver.attempts, 5);
    assert_eq!(driver.budget, 5);
}

#[test]
fn no_budget_and_something_pending() {
    let client = Client::connect();
    let mut desc = DataDesc::new(vec![], 10, 10);
    desc.add_index(0);
    let mut driver = Download::new(0);
    assert!(matches!(driver.step(&client, &mut desc), Err(AttemptsExceeded)));
}

#[test]
fn nothing_pending_is_done_at_once() {
    let mut client = Client::connect();
    client.process(Message::Piece(0, 0, vec![1, 2, 3])).unwrap();
    let mut desc = DataDesc::new(vec![], 3, 3);
    let mut driver = Download::new(0);
    assert!(matches!(driver.step(&client, &mut desc), Ok(Step::Done)));
    assert_eq!(desc.get_piece(0), Some(vec![1, 2, 3]));
}

#[test]
fn an_interested_peer_is_unchoked_first() {
    let mut client = Client::connect();
    client.process(Message::Interested()).unwrap();
    let mut desc = DataDesc::new(vec![], 10, 10);
    desc.add_index(0);
    let mut driver = Download::new(5);
    assert_eq!(sent(driver.step(&client, &mut desc)), Message::Unchoke());
    assert_eq!(driver.attempts, 5);
    client.process(Message::Unchoke()).unwrap();
    assert_eq!(sent(driver.step(&client, &mut desc)), Message::Unchoke());
    client.process(Message::NotInterested()).unwrap();
    assert_eq!(sent(driver.step(&client, &mut desc)), Message::Request(0, 0, 10));
}

#[test]
fn progress_restores_the_budget() {
    let mut client = Client::connect();
    let mut desc = DataDesc::new(vec![], 100_000, 40_000);
    desc.add_index(1);
    let mut driver = Download::new(5);
    assert_eq!(sent(driver.step(&client, &mut desc)), Message::Interested());
    assert_eq!(sent(driver.step(&client, &mut desc)), Message::Interested());
    assert_eq!(driver.attempts, 3);
    client.process(Message::Unchoke()).unwrap();
    let first = sent(driver.step(&client, &mut desc));
    assert!(matches!(first, Message::Request(1, _, _)));
    assert_eq!(driver.attempts, 5);
    client.process(Message::Choke()).unwrap();
    assert_eq!(sent(driver.step(&client, &mut desc)), Message::Interested());
    assert_eq!(driver.attempts, 4);
}

#[test]
fn a_whole_download() {
    let mut client = Client::connect();
    let mut desc = DataDesc::new(vec![9; 20], 100_000, 40_000);
    desc.add_index(2);
    let mut driver = Download::new(TRIES_TO_UNCHOKE);
    let hello = client.handshake(vec![9; 20], b"-01-TORRENT-PEER-RS-");
    assert!(matches!(hello, Message::Handshake(_, _)));
    let mut answer = VecDeque::new();
    answer.push_back(Message::Handshake(vec![9; 20], vec![1; 20]));
    answer.push_back(Message::Bitfield(vec![0xff]));
    client.enqueue(answer).unwrap();
    let mut asked = Vec::new();
    loop {
        match driver.step(&client, &mut desc).unwrap() {
            Step::Done => break,
            Step::Send(Message::Interested()) => {
                client.process(Message::Unchoke()).unwrap();
            }
            Step::Send(Message::Request(index, begin, length)) => {
                asked.push((index, begin, length));
                let fill = (begin / 16384) as u8 + 1;
                client.process(Message::Piece(index, begin, vec![fill; length as usize])).unwrap();
            }
            Step::Send(other) => panic!("unexpected {:?}", other),
        }
    }
    asked.sort();
    assert_eq!(asked, vec![(2, 0, 16384), (2, 16384, 16384), (2, 32768, 7232)]);
    assert_eq!(desc.get_indices(), vec![2]);
    let piece = desc.get_piece(2).unwrap();
    assert_eq!(piece.len(), 40_000);
    assert_eq!(piece[0], 1);
    assert_eq!(piece[16384], 2);
    assert_eq!(piece[39_999], 3);
}
