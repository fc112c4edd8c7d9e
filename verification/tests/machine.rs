use primary::aggregators::VotesAggregator;
use primary::committee::{Authority, Committee};
use primary::crypto::SecretShare;
use primary::error::DagError;
use primary::machine::{Core, CoreAction, CoreEvent, Outcome};
use primary::messages::{Certificate, Header, PrimaryMessage, Vote};
use primary::types::{Digest, KeyShare, PublicKey, SignatureShare};

fn secret_bytes(seed: u8) -> [u8; 32] {
    let mut bytes = [0u8; 32];
    bytes[31] = seed;
    bytes
}

fn secret(seed: u8) -> SecretShare {
    SecretShare::from_bytes(secret_bytes(seed)).unwrap()
}

fn key_of(seed: u8) -> KeyShare {
    let key = blsttc::SecretKeyShare::from_bytes(secret_bytes(seed)).unwrap();
    KeyShare { bytes: key.public_key_share().to_bytes() }
}

fn name(seed: u8) -> PublicKey {
    PublicKey { bytes: [seed; 32] }
}

fn committee(members: u8, threshold: u32) -> Committee {
    let mut list = Vec::new();
    for seed in 1..=members {
        list.push(Authority { name: name(seed), stake: 1, key_share: key_of(seed) });
    }
    Committee::new(list, threshold).unwrap()
}

fn machine(me: u8, members: u8, threshold: u32, gc_depth: u64) -> Core {
    Core::new(name(me), committee(members, threshold), secret(me), gc_depth)
}

fn others(me: u8, members: u8) -> Vec<PublicKey> {
    committee(members, 1).others(&name(me))
}

fn header(author: u8, round: u64) -> Header {
    Header::new(
        name(author),
        round,
        vec![(Digest { bytes: [7; 32] }, 0)],
        Vec::new(),
        &secret(author),
    )
}

fn vote(header: &Header, voter: u8) -> Vote {
    Vote::new(header, &name(voter), &secret(voter))
}

fn certificate(round: u64) -> Certificate {
    Certificate {
        id: Digest { bytes: [3; 32] },
        round,
        origin: name(2),
        votes: (5, SignatureShare { bytes: [1; 96] }),
    }
}

fn peer(message: PrimaryMessage) -> CoreEvent {
    CoreEvent::Message(message)
}

#[test]
fn new_core_is_empty() {
    let node = machine(1, 3, 2, 50);
    assert_eq!(node.gc_round(), 0);
    assert_eq!(node.pending_headers(), 0);
    assert_eq!(node.recorded_votes(), 0);
}

#[test]
fn header_of_a_peer_is_stored_and_voted_for() {
    let mut node = machine(1, 3, 2, 50);
    let header = header(2, 4);
    let outcome = node.handle(peer(PrimaryMessage::Header(header.clone())));
    assert_eq!(
        outcome,
        Outcome {
            actions: vec![
                CoreAction::StoreHeader(header.clone()),
                CoreAction::Send {
                    to: name(2),
                    round: 4,
                    message: PrimaryMessage::Vote(vote(&header, 1)),
                },
            ],
            result: Ok(()),
        }
    );
    assert_eq!(node.recorded_votes(), 1);
    assert_eq!(node.pending_headers(), 0);
}

#[test]
fn header_older_than_the_floor_is_refused_and_not_stored() {
    let mut node = machine(1, 3, 2, 10);
    node.cleanup(16);
    assert_eq!(node.gc_round(), 6);
    let header = header(2, 5);
    let outcome = node.handle(peer(PrimaryMessage::Header(header.clone())));
    assert_eq!(outcome.result, Err(DagError::HeaderTooOld(header.id, 5)));
    assert_eq!(outcome.actions, Vec::new());
    assert_eq!(node.recorded_votes(), 0);
    assert_eq!(node.gc_round(), 6);
}

#[test]
fn header_at_the_floor_is_processed() {
    let mut node = machine(1, 3, 2, 10);
    node.cleanup(16);
    let header = header(2, 6);
    let outcome = node.handle(peer(PrimaryMessage::Header(header.clone())));
    assert_eq!(outcome.result, Ok(()));
    assert_eq!(outcome.actions.len(), 2);
}

#[test]
fn forged_header_is_refused() {
    let mut node = machine(1, 3, 2, 50);
    let forged = Header::new(name(2), 4, Vec::new(), Vec::new(), &secret(3));
    let outcome = node.handle(peer(PrimaryMessage::Header(forged)));
    assert_eq!(outcome.result, Err(DagError::InvalidSignature));
    assert_eq!(outcome.actions, Vec::new());
    let mut changed = header(2, 4);
    changed.round = 9;
    let outcome = node.handle(peer(PrimaryMessage::Header(changed)));
    assert_eq!(outcome.result, Err(DagError::InvalidHeaderId));
    let outcome = node.handle(peer(PrimaryMessage::Header(header(9, 4))));
    assert_eq!(outcome.result, Err(DagError::UnknownAuthority(name(9))));
    assert_eq!(node.recorded_votes(), 0);
}

#[test]
fn loopback_header_is_processed_like_a_header_of_a_peer() {
    let mut node = machine(1, 3, 2, 10);
    node.cleanup(16);
    let stale = header(2, 5);
    let outcome = node.handle(CoreEvent::HeaderLoopback(stale.clone()));
    assert_eq!(
        outcome,
        Outcome { actions: Vec::new(), result: Err(DagError::HeaderTooOld(stale.id, 5)) }
    );
    let fresh = header(2, 7);
    let outcome = node.handle(CoreEvent::HeaderLoopback(fresh.clone()));
    assert_eq!(outcome.result, Ok(()));
    assert_eq!(outcome.actions[0], CoreAction::StoreHeader(fresh));
    assert_eq!(outcome.actions.len(), 2);
}

#[test]
fn stale_own_header_is_broadcast_but_not_stored() {
    let mut node = machine(1, 3, 2, 10);
    node.cleanup(16);
    let stale = header(1, 5);
    let outcome = node.handle(CoreEvent::OwnHeader(stale.clone()));
    assert_eq!(
        outcome,
        Outcome {
            actions: vec![CoreAction::Broadcast {
                to: others(1, 3),
                round: 5,
                message: PrimaryMessage::Header(stale.clone()),
            }],
            result: Err(DagError::HeaderTooOld(stale.id, 5)),
        }
    );
    assert_eq!(node.pending_headers(), 1);
    assert_eq!(node.recorded_votes(), 0);
}

#[test]
fn own_header_is_registered_broadcast_and_voted_for() {
    let mut node = machine(1, 3, 2, 50);
    let header = header(1, 1);
    let outcome = node.handle(CoreEvent::OwnHeader(header.clone()));
    assert_eq!(
        outcome,
        Outcome {
            actions: vec![
                CoreAction::Broadcast {
                    to: others(1, 3),
                    round: 1,
                    message: PrimaryMessage::Header(header.clone()),
                },
                CoreAction::StoreHeader(header.clone()),
            ],
            result: Ok(()),
        }
    );
    assert_eq!(node.pending_headers(), 1);
    assert_eq!(node.recorded_votes(), 1);
}

#[test]
fn votes_of_a_quorum_make_the_certificate() {
    let mut node = machine(1, 3, 2, 50);
    let header = header(1, 1);
    node.handle(CoreEvent::OwnHeader(header.clone()));
    let outcome = node.handle(peer(PrimaryMessage::Vote(vote(&header, 2))));
    assert_eq!(outcome.result, Ok(()));
    assert_eq!(outcome.actions.len(), 3);
    let certificate = match &outcome.actions[0] {
        CoreAction::Broadcast {
            to,
            round: 1,
            message: PrimaryMessage::Certificate(certificate),
        } if *to == others(1, 3) => *certificate,
        other => panic!("unexpected action {:?}", other),
    };
    assert_eq!(certificate.id, header.id);
    assert_eq!(certificate.round, 1);
    assert_eq!(certificate.origin, name(1));
    assert_eq!(certificate.votes.0.count_ones(), 2);
    assert_eq!(certificate.verify(&committee(3, 2)), Ok(()));
    assert_eq!(outcome.actions[1], CoreAction::StoreCertificate(certificate));
    assert_eq!(outcome.actions[2], CoreAction::Deliver(certificate));
    assert_eq!(node.pending_headers(), 0);

    let late = node.handle(peer(PrimaryMessage::Vote(vote(&header, 3))));
    assert_eq!(late, Outcome { actions: Vec::new(), result: Ok(()) });
}

#[test]
fn own_vote_alone_can_make_the_certificate() {
    let mut node = machine(1, 3, 1, 50);
    let header = header(1, 1);
    let outcome = node.handle(CoreEvent::OwnHeader(header.clone()));
    assert_eq!(outcome.result, Ok(()));
    assert_eq!(outcome.actions.len(), 5);
    assert_eq!(
        outcome.actions[0],
        CoreAction::Broadcast {
            to: others(1, 3),
            round: 1,
            message: PrimaryMessage::Header(header.clone()),
        }
    );
    assert_eq!(outcome.actions[1], CoreAction::StoreHeader(header.clone()));
    let certificate = Certificate {
        id: header.id,
        round: 1,
        origin: name(1),
        votes: (
            primary::bitmap::set_bit(0, committee(3, 1).seat(&name(1)).unwrap()),
            vote(&header, 1).signature,
        ),
    };
    assert_eq!(
        outcome.actions[2],
        CoreAction::Broadcast {
            to: others(1, 3),
            round: 1,
            message: PrimaryMessage::Certificate(certificate),
        }
    );
    assert_eq!(outcome.actions[3], CoreAction::StoreCertificate(certificate));
    assert_eq!(outcome.actions[4], CoreAction::Deliver(certificate));
    assert_eq!(node.pending_headers(), 0);
}

#[test]
fn own_header_twice_is_registered_once() {
    let mut node = machine(1, 3, 3, 50);
    let header = header(1, 1);
    node.handle(CoreEvent::OwnHeader(header.clone()));
    let again = node.handle(CoreEvent::OwnHeader(header.clone()));
    assert_eq!(again.result, Err(DagError::AuthorityReuse(name(1))));
    assert_eq!(again.actions.len(), 2);
    assert_eq!(node.pending_headers(), 1);
}

#[test]
fn vote_for_an_unknown_header_is_dropped() {
    let mut node = machine(1, 3, 2, 50);
    let header = header(2, 3);
    let outcome = node.handle(peer(PrimaryMessage::Vote(vote(&header, 3))));
    assert_eq!(outcome, Outcome { actions: Vec::new(), result: Ok(()) });
}

#[test]
fn vote_that_does_not_match_the_header_is_refused() {
    let mut node = machine(1, 3, 3, 50);
    let header = header(1, 4);
    node.handle(CoreEvent::OwnHeader(header.clone()));
    let mut wrong_round = vote(&header, 2);
    wrong_round.round = 5;
    let outcome = node.handle(peer(PrimaryMessage::Vote(wrong_round)));
    assert_eq!(outcome.result, Err(DagError::UnexpectedVote(header.id)));
    assert_eq!(outcome.actions, Vec::new());
    let mut wrong_origin = vote(&header, 2);
    wrong_origin.origin = name(3);
    let outcome = node.handle(peer(PrimaryMessage::Vote(wrong_origin)));
    assert_eq!(outcome.result, Err(DagError::UnexpectedVote(header.id)));
    let outcome = node.handle(peer(PrimaryMessage::Vote(vote(&header, 2))));
    assert_eq!(outcome, Outcome { actions: Vec::new(), result: Ok(()) });
    assert_eq!(node.pending_headers(), 1);
}

#[test]
fn vote_older_than_the_floor_is_refused() {
    let mut node = machine(1, 3, 2, 10);
    node.cleanup(16);
    let header = header(2, 5);
    let stale = vote(&header, 3);
    let outcome = node.handle(peer(PrimaryMessage::Vote(stale)));
    assert_eq!(outcome.result, Err(DagError::VoteTooOld(header.id, 5)));
    assert_eq!(outcome.actions, Vec::new());
}

#[test]
fn duplicate_vote_is_refused_by_the_aggregator() {
    let mut node = machine(1, 4, 3, 50);
    let header = header(1, 1);
    node.handle(CoreEvent::OwnHeader(header.clone()));
    let first = node.handle(peer(PrimaryMessage::Vote(vote(&header, 2))));
    assert_eq!(first, Outcome { actions: Vec::new(), result: Ok(()) });
    let again = node.handle(peer(PrimaryMessage::Vote(vote(&header, 2))));
    assert_eq!(again.result, Err(DagError::AuthorityReuse(name(2))));
    assert_eq!(again.actions, Vec::new());
    let third = node.handle(peer(PrimaryMessage::Vote(vote(&header, 3))));
    assert_eq!(third.actions.len(), 3);
}

#[test]
fn certificate_of_a_peer_goes_to_the_verification_pool() {
    let mut node = machine(1, 3, 2, 50);
    let outcome = node.handle(peer(PrimaryMessage::Certificate(certificate(4))));
    assert_eq!(
        outcome,
        Outcome { actions: vec![CoreAction::Verify(certificate(4))], result: Ok(()) }
    );
}

#[test]
fn certificate_older_than_the_floor_is_refused() {
    let mut node = machine(1, 3, 2, 10);
    node.cleanup(16);
    let stale = certificate(5);
    let outcome = node.handle(peer(PrimaryMessage::Certificate(stale)));
    assert_eq!(outcome.result, Err(DagError::CertificateTooOld(stale.digest(), 5)));
    assert_eq!(outcome.actions, Vec::new());
    let outcome = node.handle(peer(PrimaryMessage::Certificate(certificate(6))));
    assert_eq!(outcome.result, Ok(()));
}

#[test]
fn same_certificate_twice_is_stored_and_delivered_twice() {
    let mut node = machine(1, 3, 2, 50);
    let certificate = certificate(4);
    let expected = Outcome {
        actions: vec![
            CoreAction::StoreCertificate(certificate),
            CoreAction::Deliver(certificate),
        ],
        result: Ok(()),
    };
    let first = node.handle(peer(PrimaryMessage::VerifiedCertificate(certificate)));
    let second = node.handle(peer(PrimaryMessage::VerifiedCertificate(certificate)));
    assert_eq!(first, expected);
    assert_eq!(second, expected);
    assert_eq!(certificate.digest(), certificate.digest());
}

#[test]
fn loopback_certificate_is_stored_and_delivered() {
    let mut node = machine(1, 3, 2, 10);
    node.cleanup(16);
    let certificate = certificate(2);
    let outcome = node.handle(CoreEvent::CertificateLoopback(certificate));
    assert_eq!(
        outcome.actions,
        vec![CoreAction::StoreCertificate(certificate), CoreAction::Deliver(certificate)]
    );
    assert_eq!(outcome.result, Ok(()));
}

#[test]
fn floor_follows_the_consensus_round_at_the_depth() {
    let mut node = machine(1, 3, 2, 10);
    node.cleanup(10);
    assert_eq!(node.gc_round(), 0);
    node.cleanup(11);
    assert_eq!(node.gc_round(), 1);
    node.cleanup(25);
    assert_eq!(node.gc_round(), 15);
    node.cleanup(3);
    assert_eq!(node.gc_round(), 15);
    node.cleanup(12);
    assert_eq!(node.gc_round(), 2);
}

#[test]
fn cleanup_drops_what_was_noted_of_earlier_rounds() {
    let mut node = machine(1, 3, 2, 10);
    node.handle(peer(PrimaryMessage::Header(header(2, 3))));
    node.handle(peer(PrimaryMessage::Header(header(3, 4))));
    node.handle(peer(PrimaryMessage::Header(header(2, 5))));
    assert_eq!(node.recorded_votes(), 3);
    node.cleanup(13);
    assert_eq!(node.recorded_votes(), 3);
    node.cleanup(14);
    assert_eq!(node.recorded_votes(), 2);
    node.cleanup(15);
    assert_eq!(node.recorded_votes(), 1);
    node.cleanup(100);
    assert_eq!(node.recorded_votes(), 0);
}

#[test]
fn pending_headers_outlive_the_floor() {
    let mut node = machine(1, 3, 2, 10);
    let header = header(1, 1);
    node.handle(CoreEvent::OwnHeader(header.clone()));
    node.cleanup(100);
    assert_eq!(node.pending_headers(), 1);
    let outcome = node.handle(peer(PrimaryMessage::Vote(vote(&header, 2))));
    assert_eq!(outcome.result, Err(DagError::VoteTooOld(header.id, 1)));
}

#[test]
fn handlers_append_to_the_actions_they_are_given() {
    let mut node = machine(1, 3, 2, 50);
    let mut actions = vec![CoreAction::Deliver(certificate(1))];
    assert_eq!(node.process_certificate(certificate(2), &mut actions), Ok(()));
    assert_eq!(
        actions,
        vec![
            CoreAction::Deliver(certificate(1)),
            CoreAction::StoreCertificate(certificate(2)),
            CoreAction::Deliver(certificate(2)),
        ]
    );
    let header = header(2, 3);
    assert_eq!(node.sanitize_header(&header), Ok(()));
    assert_eq!(node.sanitize_vote(&vote(&header, 2)), Ok(()));
    assert_eq!(node.sanitize_certificate(&certificate(0)), Ok(()));
    assert_eq!(node.process_header(&header, &mut actions), Ok(()));
    assert_eq!(actions.len(), 5);
    assert_eq!(node.process_vote(vote(&header, 2), &mut actions), Ok(()));
    assert_eq!(actions.len(), 5);
    let own = Header::new(name(1), 2, Vec::new(), Vec::new(), &secret(1));
    assert_eq!(node.process_own_header(own, &mut actions), Ok(()));
    assert_eq!(actions.len(), 7);
}

#[test]
fn settle_vote_follows_the_answer() {
    let mut node = machine(1, 3, 3, 50);
    let header = header(1, 1);
    node.handle(CoreEvent::OwnHeader(header.clone()));
    let mut actions = Vec::new();
    let refused = node.settle_vote(
        0,
        VotesAggregator::new(),
        Err(DagError::InvalidSignature),
        &mut actions,
    );
    assert_eq!(refused, Err(DagError::InvalidSignature));
    assert_eq!(actions, Vec::new());
    assert_eq!(node.pending_headers(), 1);
    assert_eq!(node.settle_vote(0, VotesAggregator::new(), Ok(None), &mut actions), Ok(()));
    assert_eq!(node.settle_vote(7, VotesAggregator::new(), Ok(None), &mut actions), Ok(()));
    assert_eq!(actions, Vec::new());
    assert_eq!(node.pending_headers(), 1);
    let settled = node.settle_vote(
        0,
        VotesAggregator::new(),
        Ok(Some(certificate(1))),
        &mut actions,
    );
    assert_eq!(settled, Ok(()));
    assert_eq!(
        actions,
        vec![
            CoreAction::Broadcast {
                to: others(1, 3),
                round: 1,
                message: PrimaryMessage::Certificate(certificate(1)),
            },
            CoreAction::StoreCertificate(certificate(1)),
            CoreAction::Deliver(certificate(1)),
        ]
    );
    assert_eq!(node.pending_headers(), 0);
}

#[test]
fn settle_vote_takes_the_new_state_of_the_aggregator() {
    let mut node = machine(1, 4, 3, 50);
    let header = header(1, 1);
    node.handle(CoreEvent::OwnHeader(header.clone()));
    let mut actions = Vec::new();
    node.settle_vote(0, VotesAggregator::new(), Ok(None), &mut actions).unwrap();
    let first = node.handle(peer(PrimaryMessage::Vote(vote(&header, 1))));
    assert_eq!(first, Outcome { actions: Vec::new(), result: Ok(()) });
    let second = node.handle(peer(PrimaryMessage::Vote(vote(&header, 2))));
    assert_eq!(second, Outcome { actions: Vec::new(), result: Ok(()) });
    let third = node.handle(peer(PrimaryMessage::Vote(vote(&header, 3))));
    assert_eq!(third.actions.len(), 3);
}

#[test]
fn accept_header_stores_and_sends_the_vote_it_is_given() {
    let mut node = machine(1, 3, 2, 50);
    let header = header(2, 4);
    let given = vote(&header, 3);
    let mut actions = Vec::new();
    assert_eq!(node.accept_header(&header, given, &mut actions), Ok(()));
    assert_eq!(
        actions,
        vec![
            CoreAction::StoreHeader(header.clone()),
            CoreAction::Send { to: name(2), round: 4, message: PrimaryMessage::Vote(given) },
        ]
    );
    assert_eq!(node.recorded_votes(), 1);
}

#[test]
fn run_handles_the_event_and_then_collects_garbage() {
    let mut node = machine(1, 3, 2, 10);
    let header = header(2, 5);
    let outcome = node.run(peer(PrimaryMessage::Header(header.clone())), 16);
    assert_eq!(outcome.result, Ok(()));
    assert_eq!(outcome.actions.len(), 2);
    assert_eq!(node.gc_round(), 6);
    assert_eq!(node.recorded_votes(), 0);
    let again = node.run(peer(PrimaryMessage::Header(header.clone())), 16);
    assert_eq!(again.result, Err(DagError::HeaderTooOld(header.id, 5)));
    assert_eq!(again.actions, Vec::new());
}

#[test]
fn broadcast_goes_to_all_others_and_to_nobody_else() {
    let mut node = machine(2, 4, 3, 50);
    let header = header(2, 1);
    let outcome = node.handle(CoreEvent::OwnHeader(header));
    let to = match &outcome.actions[0] {
        CoreAction::Broadcast { to, .. } => to.clone(),
        other => panic!("unexpected action {:?}", other),
    };
    assert_eq!(to.len(), 3);
    assert!(!to.contains(&name(2)));
    assert!(to.contains(&name(1)) && to.contains(&name(3)) && to.contains(&name(4)));
}
