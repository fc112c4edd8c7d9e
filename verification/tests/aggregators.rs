use primary::aggregators::VotesAggregator;
use primary::bitmap::set_bit;
use primary::committee::{Authority, Committee};
use primary::crypto::SecretShare;
use primary::error::DagError;
use primary::messages::{Certificate, Header, Vote};
use primary::types::{KeyShare, PublicKey, SignatureShare};

fn secret_bytes(seed: u8) -> [u8; 32] {
    let mut bytes = [0u8; 32];
    bytes[31] = seed;
    bytes
}

fn secret(seed: u8) -> SecretShare {
    SecretShare::from_bytes(secret_bytes(seed)).unwrap()
}

fn key_of(seed: u8) -> KeyShare {
    let key = blsttc::SecretKeyShare::from_bytes(secret_bytes(seed)).unwrap();
    KeyShare { bytes: key.public_key_share().to_bytes() }
}

fn name(seed: u8) -> PublicKey {
    PublicKey { bytes: [seed; 32] }
}

fn committee(stakes: &[u32], threshold: u32) -> Committee {
    let mut list = Vec::new();
    for (i, stake) in stakes.iter().enumerate() {
        let seed = (i + 1) as u8;
        list.push(Authority { name: name(seed), stake: *stake, key_share: key_of(seed) });
    }
    Committee::new(list, threshold).unwrap()
}

fn header() -> Header {
    Header::new(name(1), 5, Vec::new(), Vec::new(), &secret(1))
}

fn vote(header: &Header, voter: u8) -> Vote {
    Vote::new(header, &name(voter), &secret(voter))
}

#[test]
fn new_aggregator_is_empty() {
    let aggregator = VotesAggregator::new();
    assert_eq!(aggregator.weight(), 0);
    assert_eq!(aggregator.bitmap(), 0);
    assert_eq!(aggregator.signers(), 0);
    assert_eq!(aggregator.aggregate(), SignatureShare::default());
    assert!(!aggregator.is_certified());
}

#[test]
fn three_authorities_threshold_two() {
    let committee = committee(&[1, 1, 1], 2);
    let header = header();
    let mut aggregator = VotesAggregator::new();

    let first = aggregator.append(vote(&header, 1), &committee, &header);
    assert_eq!(first, Ok(None));

    let second = aggregator.append(vote(&header, 2), &committee, &header);
    let certificate = second.unwrap().unwrap();
    let bits = set_bit(
        set_bit(0, committee.seat(&name(1)).unwrap()),
        committee.seat(&name(2)).unwrap(),
    );
    assert_eq!(certificate.id, header.id);
    assert_eq!(certificate.round, 5);
    assert_eq!(certificate.origin, name(1));
    assert_eq!(certificate.votes.0, bits);
    assert_eq!(certificate.votes.0.count_ones(), 2);

    let third = aggregator.append(vote(&header, 3), &committee, &header);
    assert_eq!(third, Ok(None));
}

#[test]
fn first_vote_is_the_aggregate() {
    let committee = committee(&[1, 1, 1], 3);
    let header = header();
    let mut aggregator = VotesAggregator::new();
    let first = vote(&header, 2);
    assert_eq!(aggregator.append(first, &committee, &header), Ok(None));
    assert_eq!(aggregator.aggregate(), first.signature);
    assert_eq!(aggregator.bitmap(), set_bit(0, committee.seat(&name(2)).unwrap()));
    assert_eq!(aggregator.signers(), 1);
    assert_eq!(aggregator.weight(), 1);
}

#[test]
fn second_share_is_added_to_the_aggregate() {
    let committee = committee(&[1, 1, 1], 3);
    let header = header();
    let mut aggregator = VotesAggregator::new();
    let first = vote(&header, 1);
    let second = vote(&header, 2);
    aggregator.append(first, &committee, &header).unwrap();
    aggregator.append(second, &committee, &header).unwrap();
    let a = blsttc::G2Projective::from_compressed(&first.signature.bytes).unwrap();
    let b = blsttc::G2Projective::from_compressed(&second.signature.bytes).unwrap();
    assert_eq!(aggregator.aggregate().bytes, (a + b).to_compressed());
    assert_ne!(aggregator.aggregate(), first.signature);
    assert_ne!(aggregator.aggregate(), second.signature);
    assert_eq!(aggregator.signers(), 2);
}

#[test]
fn certificate_of_the_aggregator_verifies() {
    let committee = committee(&[1, 1, 1, 1], 3);
    let header = header();
    let mut aggregator = VotesAggregator::new();
    assert_eq!(aggregator.append(vote(&header, 4), &committee, &header), Ok(None));
    assert_eq!(aggregator.append(vote(&header, 2), &committee, &header), Ok(None));
    let certificate = aggregator
        .append(vote(&header, 3), &committee, &header)
        .unwrap()
        .unwrap();
    assert_eq!(certificate.votes.0.count_ones(), 3);
    assert_eq!(certificate.verify(&committee), Ok(()));
    let other: Certificate = Certificate { round: 6, ..certificate };
    assert_eq!(other.verify(&committee), Err(DagError::InvalidSignature));
}

#[test]
fn order_of_votes_does_not_change_the_certificate() {
    let committee = committee(&[1, 1, 1], 3);
    let header = header();
    let mut forward = VotesAggregator::new();
    forward.append(vote(&header, 1), &committee, &header).unwrap();
    forward.append(vote(&header, 2), &committee, &header).unwrap();
    let a = forward.append(vote(&header, 3), &committee, &header).unwrap().unwrap();
    let mut backward = VotesAggregator::new();
    backward.append(vote(&header, 3), &committee, &header).unwrap();
    backward.append(vote(&header, 2), &committee, &header).unwrap();
    let b = backward.append(vote(&header, 1), &committee, &header).unwrap().unwrap();
    assert_eq!(a, b);
}

#[test]
fn second_vote_of_an_authority_changes_nothing() {
    let committee = committee(&[1, 1, 1], 3);
    let header = header();
    let mut aggregator = VotesAggregator::new();
    aggregator.append(vote(&header, 1), &committee, &header).unwrap();
    let before = aggregator;
    let again = aggregator.append(vote(&header, 1), &committee, &header);
    assert_eq!(again, Err(DagError::AuthorityReuse(name(1))));
    assert_eq!(aggregator, before);
    assert_eq!(aggregator.aggregate(), before.aggregate());
    assert_eq!(aggregator.bitmap(), before.bitmap());
}

#[test]
fn second_vote_after_the_certificate_is_refused_too() {
    let committee = committee(&[1, 1, 1], 1);
    let header = header();
    let mut aggregator = VotesAggregator::new();
    assert!(aggregator.append(vote(&header, 1), &committee, &header).unwrap().is_some());
    assert_eq!(
        aggregator.append(vote(&header, 1), &committee, &header),
        Err(DagError::AuthorityReuse(name(1)))
    );
}

#[test]
fn stranger_is_turned_away() {
    let committee = committee(&[1, 1, 1], 2);
    let header = header();
    let mut aggregator = VotesAggregator::new();
    let answer = aggregator.append(vote(&header, 9), &committee, &header);
    assert_eq!(answer, Err(DagError::UnknownAuthority(name(9))));
    assert_eq!(aggregator, VotesAggregator::new());
}

#[test]
fn vote_with_a_wrong_signature_leaves_no_trace() {
    let committee = committee(&[1, 1, 1], 2);
    let header = header();
    let mut aggregator = VotesAggregator::new();
    let forged = Vote::new(&header, &name(2), &secret(3));
    assert_eq!(
        aggregator.append(forged, &committee, &header),
        Err(DagError::InvalidSignature)
    );
    assert_eq!(aggregator, VotesAggregator::new());
    assert_eq!(aggregator.append(vote(&header, 2), &committee, &header), Ok(None));
    assert_eq!(aggregator.weight(), 1);
}

#[test]
fn certificate_comes_when_the_stake_first_reaches_the_threshold() {
    let committee = committee(&[10, 20, 30, 40], 50);
    let header = header();
    let mut aggregator = VotesAggregator::new();
    assert_eq!(aggregator.append(vote(&header, 1), &committee, &header), Ok(None));
    assert_eq!(aggregator.weight(), 10);
    assert_eq!(aggregator.append(vote(&header, 2), &committee, &header), Ok(None));
    assert_eq!(aggregator.weight(), 30);
    assert_eq!(
        aggregator.append(vote(&header, 2), &committee, &header),
        Err(DagError::AuthorityReuse(name(2)))
    );
    assert_eq!(aggregator.weight(), 30);
    let certificate = aggregator.append(vote(&header, 3), &committee, &header).unwrap();
    assert!(certificate.is_some());
    assert!(aggregator.is_certified());
    assert_eq!(aggregator.weight(), 0);
    assert_eq!(aggregator.signers(), 3);
    assert_eq!(aggregator.bitmap().count_ones(), 3);
}

#[test]
fn votes_after_the_certificate_are_counted_but_not_signed_in() {
    let committee = committee(&[10, 20, 30, 40], 30);
    let header = header();
    let mut aggregator = VotesAggregator::new();
    aggregator.append(vote(&header, 1), &committee, &header).unwrap();
    let certificate = aggregator.append(vote(&header, 2), &committee, &header).unwrap().unwrap();
    let bitmap = aggregator.bitmap();
    let aggregate = aggregator.aggregate();
    assert_eq!(certificate.votes, (bitmap, aggregate));
    let unchecked = Vote::new(&header, &name(3), &secret(4));
    assert_eq!(aggregator.append(unchecked, &committee, &header), Ok(None));
    assert_eq!(aggregator.weight(), 30);
    assert_eq!(aggregator.append(vote(&header, 4), &committee, &header), Ok(None));
    assert_eq!(aggregator.weight(), 70);
    assert_eq!(aggregator.bitmap(), bitmap);
    assert_eq!(aggregator.aggregate(), aggregate);
    assert_eq!(aggregator.signers(), 2);
}

#[test]
fn single_vote_can_be_a_quorum() {
    let committee = committee(&[5, 1], 5);
    let header = header();
    let mut aggregator = VotesAggregator::new();
    let first = vote(&header, 1);
    let certificate = aggregator.append(first, &committee, &header).unwrap().unwrap();
    assert_eq!(certificate.votes.1, first.signature);
    assert_eq!(certificate.votes.0.count_ones(), 1);
    assert_eq!(certificate.verify(&committee), Ok(()));
}

#[test]
fn malformed_share_is_refused() {
    let committee = committee(&[1, 1], 2);
    let header = header();
    let mut aggregator = VotesAggregator::new();
    let mut broken = vote(&header, 1);
    broken.signature = SignatureShare { bytes: [0xff; 96] };
    assert_eq!(
        aggregator.append(broken, &committee, &header),
        Err(DagError::InvalidSignature)
    );
    assert_eq!(aggregator, VotesAggregator::new());
}

#[test]
fn record_three_seats_threshold_two() {
    let header = header();
    let share = |seed: u8| SignatureShare { bytes: [seed; 96] };
    let mut aggregator = VotesAggregator::new();
    assert!(aggregator.wants_check(0));
    assert_eq!(
        aggregator.record(name(1), 0, 1, 2, true, share(1), None, &header),
        Ok(None)
    );
    assert!(!aggregator.wants_check(0));
    assert!(aggregator.wants_check(1));
    assert_eq!(aggregator.aggregate(), share(1));
    let second = aggregator.record(name(2), 1, 1, 2, true, share(2), Some(share(12)), &header);
    assert_eq!(
        second,
        Ok(Some(Certificate {
            id: header.id,
            round: 5,
            origin: name(1),
            votes: (0b11, share(12)),
        }))
    );
    assert!(!aggregator.wants_check(2));
    assert_eq!(
        aggregator.record(name(3), 2, 1, 2, false, share(3), None, &header),
        Ok(None)
    );
    assert_eq!(aggregator.bitmap(), 0b11);
    assert_eq!(aggregator.weight(), 1);
    assert_eq!(
        aggregator.record(name(3), 2, 1, 2, true, share(3), None, &header),
        Err(DagError::AuthorityReuse(name(3)))
    );
}

#[test]
fn record_refuses_what_does_not_hold() {
    let header = header();
    let share = |seed: u8| SignatureShare { bytes: [seed; 96] };
    let mut aggregator = VotesAggregator::new();
    assert_eq!(
        aggregator.record(name(1), 0, 1, 9, false, share(1), None, &header),
        Err(DagError::InvalidSignature)
    );
    assert_eq!(
        aggregator.record(name(1), 128, 1, 9, true, share(1), None, &header),
        Err(DagError::UnknownAuthority(name(1)))
    );
    assert_eq!(aggregator, VotesAggregator::new());
    assert_eq!(aggregator.record(name(1), 127, 1, 9, true, share(1), None, &header), Ok(None));
    let before = aggregator;
    assert_eq!(
        aggregator.record(name(2), 5, 1, 9, true, share(2), None, &header),
        Err(DagError::InvalidSignature)
    );
    assert_eq!(aggregator, before);
    assert_eq!(aggregator.bitmap(), 1u128 << 127);
}

#[test]
fn record_counts_stake_up_to_the_largest() {
    let header = header();
    let share = SignatureShare { bytes: [1; 96] };
    let mut aggregator = VotesAggregator::new();
    assert!(aggregator
        .record(name(1), 0, u32::MAX, 1, true, share, None, &header)
        .unwrap()
        .is_some());
    for seat in 1..128usize {
        assert_eq!(
            aggregator.record(name(2), seat, u32::MAX, 1, false, share, None, &header),
            Ok(None)
        );
    }
    assert_eq!(aggregator.weight(), 127 * (u32::MAX as u64));
    assert_eq!(aggregator.signers(), 1);
}
