use primary::committee::{precedes, Authority, Committee, CommitteeError, MAX_AUTHORITIES};
use primary::types::{KeyShare, PublicKey};

fn name(seed: u8) -> PublicKey {
    PublicKey { bytes: [seed; 32] }
}

fn key(first: u8, last: u8) -> KeyShare {
    let mut bytes = [0u8; 48];
    bytes[0] = first;
    bytes[47] = last;
    KeyShare { bytes }
}

fn authority(seed: u8, stake: u32, key_share: KeyShare) -> Authority {
    Authority { name: name(seed), stake, key_share }
}

fn three() -> Committee {
    Committee::new(
        vec![
            authority(1, 10, key(9, 0)),
            authority(2, 20, key(3, 7)),
            authority(3, 30, key(3, 2)),
        ],
        40,
    )
    .unwrap()
}

#[test]
fn key_shares_are_ordered_by_their_bytes() {
    assert!(precedes(&key(3, 2), &key(3, 7)));
    assert!(precedes(&key(3, 7), &key(9, 0)));
    assert!(!precedes(&key(9, 0), &key(3, 7)));
    assert!(!precedes(&key(3, 7), &key(3, 7)));
}

#[test]
fn seats_follow_the_order_of_the_key_shares() {
    let committee = three();
    assert_eq!(committee.size(), 3);
    assert_eq!(committee.seat(&name(3)), Some(0));
    assert_eq!(committee.seat(&name(2)), Some(1));
    assert_eq!(committee.seat(&name(1)), Some(2));
    assert_eq!(committee.seat(&name(4)), None);
    assert_eq!(committee.authority(0), Some(authority(3, 30, key(3, 2))));
    assert_eq!(committee.authority(2), Some(authority(1, 10, key(9, 0))));
    assert_eq!(committee.authority(3), None);
}

#[test]
fn seats_do_not_depend_on_the_order_of_the_list() {
    let other = Committee::new(
        vec![
            authority(3, 30, key(3, 2)),
            authority(1, 10, key(9, 0)),
            authority(2, 20, key(3, 7)),
        ],
        40,
    )
    .unwrap();
    assert_eq!(other, three());
}

#[test]
fn stake_and_key_of_members_and_strangers() {
    let committee = three();
    assert_eq!(committee.stake(&name(1)), 10);
    assert_eq!(committee.stake(&name(2)), 20);
    assert_eq!(committee.stake(&name(3)), 30);
    assert_eq!(committee.stake(&name(9)), 0);
    assert_eq!(committee.key_share(&name(2)), Some(key(3, 7)));
    assert_eq!(committee.key_share(&name(9)), None);
    assert_eq!(committee.validity_threshold(), 40);
}

#[test]
fn others_are_all_but_one_by_seat() {
    let committee = three();
    assert_eq!(committee.others(&name(2)), vec![name(3), name(1)]);
    assert_eq!(committee.others(&name(3)), vec![name(2), name(1)]);
    assert_eq!(committee.others(&name(7)), vec![name(3), name(2), name(1)]);
}

#[test]
fn clone_keeps_the_committee() {
    let committee = three();
    assert_eq!(committee.clone(), committee);
}

#[test]
fn zero_threshold_is_refused_first() {
    let twice = vec![authority(1, 1, key(1, 0)), authority(1, 1, key(1, 0))];
    assert_eq!(Committee::new(twice, 0), Err(CommitteeError::ZeroThreshold));
    assert_eq!(Committee::new(Vec::new(), 0), Err(CommitteeError::ZeroThreshold));
}

#[test]
fn too_many_authorities_are_refused() {
    let mut many = Vec::new();
    for i in 0..=MAX_AUTHORITIES {
        let mut bytes = [0u8; 32];
        bytes[0] = i as u8;
        bytes[1] = (i >> 8) as u8;
        many.push(Authority {
            name: PublicKey { bytes },
            stake: 1,
            key_share: key(i as u8, (i >> 8) as u8),
        });
    }
    assert_eq!(many.len(), 129);
    assert_eq!(Committee::new(many.clone(), 1), Err(CommitteeError::TooManyAuthorities));
    many.pop();
    let committee = Committee::new(many, 1).unwrap();
    assert_eq!(committee.size(), 128);
}

#[test]
fn duplicate_name_is_refused() {
    let list = vec![
        authority(1, 1, key(1, 0)),
        authority(2, 1, key(2, 0)),
        authority(1, 5, key(3, 0)),
    ];
    assert_eq!(Committee::new(list, 1), Err(CommitteeError::DuplicateName));
}

#[test]
fn duplicate_name_comes_before_duplicate_key() {
    let list = vec![
        authority(1, 1, key(1, 0)),
        authority(2, 1, key(1, 0)),
        authority(2, 1, key(3, 0)),
    ];
    assert_eq!(Committee::new(list, 1), Err(CommitteeError::DuplicateName));
}

#[test]
fn duplicate_key_is_refused() {
    let list = vec![
        authority(1, 1, key(1, 0)),
        authority(2, 1, key(2, 0)),
        authority(3, 1, key(1, 0)),
    ];
    assert_eq!(Committee::new(list, 1), Err(CommitteeError::DuplicateKey));
}

#[test]
fn empty_committee_has_no_seat() {
    let committee = Committee::new(Vec::new(), 1).unwrap();
    assert_eq!(committee.size(), 0);
    assert_eq!(committee.seat(&name(1)), None);
    assert_eq!(committee.others(&name(1)), Vec::new());
}
