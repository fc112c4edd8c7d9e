use primary::crypto::SecretShare;
use primary::messages::Header;
use primary::proposer::{Proposer, ENTRY_SIZE};
use primary::types::{Digest, PublicKey, WorkerId};

fn secret_bytes(seed: u8) -> [u8; 32] {
    let mut bytes = [0u8; 32];
    bytes[31] = seed;
    bytes
}

fn secret(seed: u8) -> SecretShare {
    SecretShare::from_bytes(secret_bytes(seed)).unwrap()
}

fn name(seed: u8) -> PublicKey {
    PublicKey { bytes: [seed; 32] }
}

fn entries(count: u8) -> Vec<(Digest, WorkerId)> {
    (0..count).map(|i| (Digest { bytes: [i; 32] }, i as u32)).collect()
}

fn proposer(header_size: usize) -> Proposer {
    Proposer::new(name(1), secret(1), header_size, 250)
}

#[test]
fn new_proposer_starts_at_round_one() {
    let proposer = proposer(100);
    assert_eq!(proposer.round(), 1);
    assert_eq!(proposer.payload_size(), 0);
    assert_eq!(proposer.max_header_delay(), 250);
}

#[test]
fn entry_size_is_the_serialized_size() {
    assert_eq!(ENTRY_SIZE, 36);
    let entry = (Digest { bytes: [9; 32] }, 77u32);
    assert_eq!(bcs::serialized_size(&(entry.0.bytes, entry.1)).unwrap(), ENTRY_SIZE);
    let mut proposer = proposer(1000);
    proposer.receive(vec![entry]);
    assert_eq!(proposer.payload_size(), 36);
    proposer.receive(entries(3));
    assert_eq!(proposer.payload_size(), 144);
}

#[test]
fn nothing_is_proposed_while_nothing_waits() {
    let mut proposer = proposer(100);
    assert_eq!(proposer.poll(false), None);
    assert_eq!(proposer.poll(true), None);
    proposer.receive(Vec::new());
    assert_eq!(proposer.poll(true), None);
}

#[test]
fn header_is_made_once_the_size_is_reached_whatever_the_timer() {
    let mut proposer = proposer(72);
    proposer.receive(entries(1));
    assert_eq!(proposer.poll(false), None);
    assert_eq!(proposer.payload_size(), 36);
    proposer.receive(entries(1));
    let header = proposer.poll(false).unwrap();
    let mut payload = entries(1);
    payload.extend(entries(1));
    assert_eq!(header, Header::new(name(1), 1, payload, Vec::new(), &secret(1)));
    assert_eq!(proposer.payload_size(), 0);
    assert_eq!(proposer.poll(false), None);
    assert_eq!(proposer.poll(true), None);
}

#[test]
fn smaller_header_is_made_when_the_timer_runs_out() {
    let mut proposer = proposer(1000);
    proposer.receive(entries(2));
    assert_eq!(proposer.poll(false), None);
    let header = proposer.poll(true).unwrap();
    assert_eq!(header.payload, entries(2));
    assert_eq!(header.author, name(1));
    assert_eq!(header.round, 1);
    assert_eq!(header.parents, Vec::new());
    assert_eq!(header.digest(), header.id);
    assert_eq!(proposer.payload_size(), 0);
}

#[test]
fn header_size_zero_always_proposes() {
    let mut proposer = proposer(0);
    let header = proposer.poll(false).unwrap();
    assert_eq!(header.payload, Vec::new());
}

#[test]
fn make_header_takes_everything_that_waits() {
    let mut proposer = proposer(1000);
    proposer.receive(entries(3));
    let header = proposer.make_header();
    assert_eq!(header.payload, entries(3));
    let next = proposer.make_header();
    assert_eq!(next.payload, Vec::new());
}

#[test]
fn advance_moves_forward_only() {
    let mut proposer = proposer(1000);
    proposer.advance(4);
    assert_eq!(proposer.round(), 4);
    proposer.advance(2);
    assert_eq!(proposer.round(), 4);
    proposer.receive(entries(1));
    assert_eq!(proposer.poll(true).unwrap().round, 4);
}

#[test]
fn has_room_until_the_size_would_overflow() {
    let proposer = proposer(1000);
    assert!(proposer.has_room(&entries(200)));
    assert!(proposer.has_room(&Vec::new()));
}

#[test]
fn try_receive_takes_what_fits() {
    let mut proposer = proposer(1000);
    assert!(proposer.try_receive(entries(4)));
    assert_eq!(proposer.payload_size(), 144);
    assert_eq!(proposer.poll(true).unwrap().payload, entries(4));
}
