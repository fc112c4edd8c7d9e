//! The committee of an epoch: who votes, with what weight and under which
//! key, and the seat that each authority has in a signer bitmap.
use crate::types::{KeyShare, PublicKey, Stake};
use vstd::prelude::*;

verus! {

/// Largest committee that a signer bitmap can record.
pub const MAX_AUTHORITIES: usize = 128;

/// One member of the committee.
#[derive(Clone, Copy, Debug, PartialEq, Eq)]
pub struct Authority {
    /// Identity of the authority.
    pub name: PublicKey,
    /// Voting power of the authority.
    pub stake: Stake,
    /// Public key share under which its votes are checked.
    pub key_share: KeyShare,
}

/// Why a list of authorities makes no committee.
#[derive(Clone, Copy, Debug, PartialEq, Eq)]
pub enum CommitteeError {
    /// The validity threshold is zero.
    ZeroThreshold,
    /// There are more authorities than a signer bitmap has bits.
    TooManyAuthorities,
    /// Two authorities have the same name.
    DuplicateName,
    /// Two authorities have the same public key share.
    DuplicateKey,
}

/// Lexicographic order of two byte strings, looking at the positions from
/// `from` on.
pub open spec fn lex_lt_from(a: Seq<u8>, b: Seq<u8>, from: int) -> bool
    decreases a.len() - from,
{
    if from < 0 || from >= a.len() || from >= b.len() {
        false
    } else if a[from] != b[from] {
        a[from] < b[from]
    } else {
        lex_lt_from(a, b, from + 1)
    }
}

/// The order of public key shares: lexicographic on their bytes.
pub open spec fn key_lt(a: KeyShare, b: KeyShare) -> bool {
    lex_lt_from(a.bytes@, b.bytes@, 0)
}

/// No two authorities of the list have the same name.
pub open spec fn distinct_names(seats: Seq<Authority>) -> bool {
    forall|i: int, j: int| 0 <= i < j < seats.len() ==> seats[i].name != seats[j].name
}

/// No two authorities of the list have the same key share.
pub open spec fn distinct_keys(seats: Seq<Authority>) -> bool {
    forall|i: int, j: int| 0 <= i < j < seats.len() ==> seats[i].key_share != seats[j].key_share
}

/// The key shares of the list ascend strictly.
pub open spec fn ascending_keys(seats: Seq<Authority>) -> bool {
    forall|i: int, j: int|
        0 <= i < j < seats.len() ==> key_lt(seats[i].key_share, seats[j].key_share)
}

/// The seat of the authority called `name`, if the list holds one.
pub open spec fn seat_in(seats: Seq<Authority>, name: PublicKey) -> Option<int> {
    if exists|i: int| 0 <= i < seats.len() && seats[i].name == name {
        Some(choose|i: int| 0 <= i < seats.len() && seats[i].name == name)
    } else {
        None
    }
}

/// Whether `a` stands among the first `n` authorities of `input`.
pub open spec fn among_first(input: Seq<Authority>, n: int, a: Authority) -> bool {
    exists|k: int| 0 <= k < n && k < input.len() && input[k] == a
}

/// The names of the first `n` authorities, but for `name`.
pub open spec fn names_except(seats: Seq<Authority>, name: PublicKey, n: int) -> Seq<PublicKey>
    decreases n,
{
    if n <= 0 {
        Seq::empty()
    } else if seats[n - 1].name == name {
        names_except(seats, name, n - 1)
    } else {
        names_except(seats, name, n - 1).push(seats[n - 1].name)
    }
}

proof fn lemma_lex_irreflexive(a: Seq<u8>, from: int)
    ensures
        !lex_lt_from(a, a, from),
    decreases a.len() - from,
{
    if 0 <= from < a.len() {
        lemma_lex_irreflexive(a, from + 1);
    }
}

proof fn lemma_lex_transitive(a: Seq<u8>, b: Seq<u8>, c: Seq<u8>, from: int)
    requires
        a.len() == b.len(),
        b.len() == c.len(),
        lex_lt_from(a, b, from),
        lex_lt_from(b, c, from),
    ensures
        lex_lt_from(a, c, from),
    decreases a.len() - from,
{
    if 0 <= from < a.len() {
        if a[from] == b[from] && b[from] == c[from] {
            lemma_lex_transitive(a, b, c, from + 1);
        }
    }
}

proof fn lemma_lex_total(a: Seq<u8>, b: Seq<u8>, from: int)
    requires
        a.len() == b.len(),
        0 <= from,
        !lex_lt_from(a, b, from),
        !lex_lt_from(b, a, from),
    ensures
        forall|k: int| from <= k < a.len() ==> a[k] == b[k],
    decreases a.len() - from,
{
    if from < a.len() {
        lemma_lex_total(a, b, from + 1);
    }
}

/// No key share comes before itself.
pub proof fn lemma_key_lt_irreflexive(a: KeyShare)
    ensures
        !key_lt(a, a),
{
    lemma_lex_irreflexive(a.bytes@, 0);
}

/// The order of key shares is transitive.
pub proof fn lemma_key_lt_transitive(a: KeyShare, b: KeyShare, c: KeyShare)
    requires
        key_lt(a, b),
        key_lt(b, c),
    ensures
        key_lt(a, c),
{
    lemma_lex_transitive(a.bytes@, b.bytes@, c.bytes@, 0);
}

/// Of two different key shares one comes before the other.
pub proof fn lemma_key_lt_total(a: KeyShare, b: KeyShare)
    requires
        !key_lt(a, b),
        !key_lt(b, a),
    ensures
        a == b,
{
    lemma_lex_total(a.bytes@, b.bytes@, 0);
    assert(a.bytes =~= b.bytes);
}

/// Key shares that ascend strictly are distinct.
pub proof fn lemma_ascending_is_distinct(seats: Seq<Authority>)
    requires
        ascending_keys(seats),
    ensures
        distinct_keys(seats),
{
    assert forall|i: int, j: int| 0 <= i < j < seats.len() implies seats[i].key_share
        != seats[j].key_share by {
        lemma_key_lt_irreflexive(seats[i].key_share);
    }
}

/// With distinct names, the seat of an authority is the one place in the
/// list where its name stands.
pub proof fn lemma_seat_is_unique(seats: Seq<Authority>, i: int)
    requires
        distinct_names(seats),
        0 <= i < seats.len(),
    ensures
        seat_in(seats, seats[i].name) == Some(i),
{
    let j = choose|j: int| 0 <= j < seats.len() && seats[j].name == seats[i].name;
    if j < i {
        assert(seats[j].name != seats[i].name);
    } else if i < j {
        assert(seats[i].name != seats[j].name);
    }
}

/// There is one way only to seat a set of authorities in the order of
/// their key shares: the seats do not depend on the order in which the
/// authorities are listed.
pub proof fn lemma_seating_is_unique(a: Seq<Authority>, b: Seq<Authority>)
    requires
        ascending_keys(a),
        ascending_keys(b),
        a.len() == b.len(),
        forall|x: Authority| a.contains(x) <==> b.contains(x),
    ensures
        a == b,
    decreases a.len(),
{
    if a.len() == 0 {
        assert(a =~= b);
    } else {
        let last = a.len() - 1;
        assert(a.contains(a[last]));
        assert(b.contains(b[last]));
        let j = choose|j: int| 0 <= j < b.len() && b[j] == a[last];
        let i = choose|i: int| 0 <= i < a.len() && a[i] == b[last];
        if j < last {
            assert(key_lt(b[j].key_share, b[last].key_share));
            if i < last {
                assert(key_lt(a[i].key_share, a[last].key_share));
                lemma_key_lt_transitive(a[last].key_share, b[last].key_share, a[last].key_share);
            }
            lemma_key_lt_irreflexive(a[last].key_share);
        }
        assert(b[last] == a[last]);
        let front_a = a.drop_last();
        let front_b = b.drop_last();
        assert forall|x: Authority| front_a.contains(x) <==> front_b.contains(x) by {
            if front_a.contains(x) {
                let p = choose|p: int| 0 <= p < front_a.len() && front_a[p] == x;
                assert(a[p] == x);
                assert(a.contains(x));
                let q = choose|q: int| 0 <= q < b.len() && b[q] == x;
                if q == last {
                    assert(key_lt(a[p].key_share, a[last].key_share));
                    lemma_key_lt_irreflexive(x.key_share);
                }
                assert(front_b[q] == x);
            }
            if front_b.contains(x) {
                let q = choose|q: int| 0 <= q < front_b.len() && front_b[q] == x;
                assert(b[q] == x);
                assert(b.contains(x));
                let p = choose|p: int| 0 <= p < a.len() && a[p] == x;
                if p == last {
                    assert(key_lt(b[q].key_share, b[last].key_share));
                    lemma_key_lt_irreflexive(x.key_share);
                }
                assert(front_a[p] == x);
            }
        }
        assert(ascending_keys(front_a)) by {
            assert forall|x: int, y: int| 0 <= x < y < front_a.len() implies key_lt(
                front_a[x].key_share,
                front_a[y].key_share,
            ) by {
                assert(front_a[x] == a[x] && front_a[y] == a[y]);
            }
        }
        assert(ascending_keys(front_b)) by {
            assert forall|x: int, y: int| 0 <= x < y < front_b.len() implies key_lt(
                front_b[x].key_share,
                front_b[y].key_share,
            ) by {
                assert(front_b[x] == b[x] && front_b[y] == b[y]);
            }
        }
        lemma_seating_is_unique(front_a, front_b);
        assert(a =~= front_a.push(a[last]));
        assert(b =~= front_b.push(b[last]));
    }
}

/// Whether the key share `a` comes before `b`.
pub fn precedes(a: &KeyShare, b: &KeyShare) -> (r: bool)
    ensures
        r == key_lt(*a, *b),
{
    let mut i: usize = 0;
    while i < 48
        invariant
            i <= 48,
            a.bytes@.len() == 48,
            b.bytes@.len() == 48,
            key_lt(*a, *b) == lex_lt_from(a.bytes@, b.bytes@, i as int),
        decreases 48 - i,
    {
        if a.bytes[i] != b.bytes[i] {
            return a.bytes[i] < b.bytes[i];
        }
        i += 1;
    }
    false
}

/// The authorities of one epoch, seated in the order of their key shares.
#[derive(Debug, PartialEq, Eq)]
pub struct Committee {
    authorities: Vec<Authority>,
    threshold: Stake,
}

impl Committee {
    /// The authorities by seat.
    pub closed spec fn seats(self) -> Seq<Authority> {
        self.authorities@
    }

    /// The stake that a certificate needs.
    pub closed spec fn threshold(self) -> Stake {
        self.threshold
    }

    /// What holds of every committee.
    #[verifier::type_invariant]
    pub open spec fn wf(self) -> bool {
        &&& self.seats().len() <= MAX_AUTHORITIES
        &&& distinct_names(self.seats())
        &&& ascending_keys(self.seats())
        &&& self.threshold() >= 1
    }

    /// The seat of the authority called `name`, if it is a member.
    pub open spec fn seat_of(self, name: PublicKey) -> Option<int> {
        seat_in(self.seats(), name)
    }

    /// The stake of the authority called `name`; zero for a stranger.
    pub open spec fn stake_of(self, name: PublicKey) -> nat {
        match self.seat_of(name) {
            Some(seat) => self.seats()[seat].stake as nat,
            None => 0,
        }
    }

    /// Seats a list of authorities in the order of their key shares.
    ///
    /// Fails when the threshold is zero, when there are more authorities than
    /// a signer bitmap has bits, or when a name or a key share occurs twice;
    /// the first of these that holds, in this order, is the error.
    pub fn new(authorities: Vec<Authority>, validity_threshold: Stake) -> (r: Result<
        Committee,
        CommitteeError,
    >)
        ensures
            r == Err::<Committee, CommitteeError>(CommitteeError::ZeroThreshold)
                <==> validity_threshold == 0,
            r == Err::<Committee, CommitteeError>(CommitteeError::TooManyAuthorities) <==> (
            validity_threshold != 0 && authorities.len() > MAX_AUTHORITIES),
            r == Err::<Committee, CommitteeError>(CommitteeError::DuplicateName) <==> (
            validity_threshold != 0 && authorities.len() <= MAX_AUTHORITIES && !distinct_names(
                authorities@,
            )),
            r == Err::<Committee, CommitteeError>(CommitteeError::DuplicateKey) <==> (
            validity_threshold != 0 && authorities.len() <= MAX_AUTHORITIES && distinct_names(
                authorities@,
            ) && !distinct_keys(authorities@)),
            r is Ok <==> (validity_threshold != 0 && authorities.len() <= MAX_AUTHORITIES
                && distinct_names(authorities@) && distinct_keys(authorities@)),
            r matches Ok(committee) ==> {
                &&& committee.wf()
                &&& committee.threshold() == validity_threshold
                &&& committee.seats().len() == authorities.len()
                &&& forall|a: Authority|
                    authorities@.contains(a) <==> #[trigger] committee.seats().contains(a)
            },
    {
        if validity_threshold == 0 {
            return Err(CommitteeError::ZeroThreshold);
        }
        let n = authorities.len();
        if n > MAX_AUTHORITIES {
            return Err(CommitteeError::TooManyAuthorities);
        }
        let mut i: usize = 0;
        while i < n
            invariant
                i <= n,
                n == authorities.len(),
                n <= MAX_AUTHORITIES,
                validity_threshold != 0,
                forall|x: int, y: int| 0 <= x < y < i ==> authorities[x].name != authorities[y].name,
            decreases n - i,
        {
            let mut j: usize = 0;
            while j < i
                invariant
                    j <= i,
                    i < n,
                    n == authorities.len(),
                    n <= MAX_AUTHORITIES,
                    validity_threshold != 0,
                    forall|x: int| 0 <= x < j ==> authorities[x].name != authorities[i as int].name,
                decreases i - j,
            {
                if authorities[j].name == authorities[i].name {
                    return Err(CommitteeError::DuplicateName);
                }
                j += 1;
            }
            i += 1;
        }
        assert(distinct_names(authorities@));
        let mut sorted: Vec<Authority> = Vec::new();
        let mut i: usize = 0;
        while i < n
            invariant
                i <= n,
                n == authorities.len(),
                n <= MAX_AUTHORITIES,
                validity_threshold != 0,
                distinct_names(authorities@),
                sorted.len() == i,
                ascending_keys(sorted@),
                forall|k: int| 0 <= k < i ==> sorted@.contains(#[trigger] authorities[k]),
                forall|p: int|
                    0 <= p < sorted.len() ==> among_first(
                        authorities@,
                        i as int,
                        #[trigger] sorted[p],
                    ),
            decreases n - i,
        {
            let a = authorities[i];
            let mut p: usize = 0;
            while p < sorted.len() && precedes(&sorted[p].key_share, &a.key_share)
                invariant
                    p <= sorted.len(),
                    forall|q: int| 0 <= q < p ==> key_lt(#[trigger] sorted[q].key_share, a.key_share),
                decreases sorted.len() - p,
            {
                p += 1;
            }
            if p < sorted.len() && sorted[p].key_share == a.key_share {
                proof {
                    assert(among_first(authorities@, i as int, sorted[p as int]));
                    let k = choose|k: int| 0 <= k < i && authorities[k] == sorted[p as int];
                    assert(authorities[k].key_share == authorities[i as int].key_share);
                }
                return Err(CommitteeError::DuplicateKey);
            }
            proof {
                let before = sorted@;
                let after = before.insert(p as int, a);
                before.insert_ensures(p as int, a);
                assert forall|x: int, y: int| 0 <= x < y < after.len() implies key_lt(
                    after[x].key_share,
                    after[y].key_share,
                ) by {
                    if y < p {
                        assert(after[x] == before[x] && after[y] == before[y]);
                    } else if y == p {
                        assert(after[x] == before[x]);
                    } else if x == p {
                        assert(after[y] == before[y - 1]);
                        if !key_lt(a.key_share, before[p as int].key_share) {
                            lemma_key_lt_total(a.key_share, before[p as int].key_share);
                        }
                        if y - 1 > p {
                            lemma_key_lt_transitive(
                                a.key_share,
                                before[p as int].key_share,
                                before[y - 1].key_share,
                            );
                        }
                    } else if x < p {
                        assert(after[x] == before[x]);
                        assert(after[y] == before[y - 1]);
                    } else {
                        assert(after[x] == before[x - 1]);
                        assert(after[y] == before[y - 1]);
                    }
                }
                assert forall|k: int| 0 <= k < i + 1 implies after.contains(
                    #[trigger] authorities[k],
                ) by {
                    if k < i {
                        let q = choose|q: int| 0 <= q < before.len() && before[q] == authorities[k];
                        if q < p {
                            assert(after[q] == authorities[k]);
                        } else {
                            assert(after[q + 1] == authorities[k]);
                        }
                    } else {
                        assert(after[p as int] == authorities[k]);
                    }
                }
                assert forall|q: int| 0 <= q < after.len() implies among_first(
                    authorities@,
                    i + 1,
                    #[trigger] after[q],
                ) by {
                    if q < p {
                        assert(after[q] == before[q]);
                        assert(among_first(authorities@, i as int, before[q]));
                    } else if q == p {
                        assert(authorities[i as int] == after[q]);
                    } else {
                        assert(after[q] == before[q - 1]);
                        assert(among_first(authorities@, i as int, before[q - 1]));
                    }
                }
            }
            sorted.insert(p, a);
            i += 1;
        }
        proof {
            lemma_sorted_copy_is_distinct(authorities@, sorted@);
            assert forall|a: Authority| authorities@.contains(a) <==> #[trigger] sorted@.contains(
                a,
            ) by {
                if authorities@.contains(a) {
                    let k = choose|k: int| 0 <= k < authorities@.len() && authorities@[k] == a;
                    assert(sorted@.contains(authorities[k]));
                }
                if sorted@.contains(a) {
                    let p = choose|p: int| 0 <= p < sorted@.len() && sorted@[p] == a;
                    assert(among_first(authorities@, n as int, sorted[p]));
                }
            }
        }
        Ok(Committee { authorities: sorted, threshold: validity_threshold })
    }

    /// Number of authorities.
    pub fn size(&self) -> (r: usize)
        ensures
            r == self.seats().len(),
            r <= MAX_AUTHORITIES,
    {
        proof {
            use_type_invariant(self);
        }
        self.authorities.len()
    }

    /// The least stake that makes a certificate.
    pub fn validity_threshold(&self) -> (r: Stake)
        ensures
            r == self.threshold(),
            r >= 1,
    {
        proof {
            use_type_invariant(self);
        }
        self.threshold
    }

    /// The seat of the authority called `name`: its place in the order of the
    /// key shares, which is also its bit in a signer bitmap.
    pub fn seat(&self, name: &PublicKey) -> (r: Option<usize>)
        ensures
            match r {
                Some(seat) => self.seat_of(*name) == Some(seat as int),
                None => self.seat_of(*name) is None,
            },
    {
        proof {
            use_type_invariant(self);
        }
        let mut i: usize = 0;
        while i < self.authorities.len()
            invariant
                i <= self.authorities.len(),
                distinct_names(self.authorities@),
                forall|k: int| 0 <= k < i ==> self.authorities[k].name != *name,
            decreases self.authorities.len() - i,
        {
            if self.authorities[i].name == *name {
                proof {
                    lemma_seat_is_unique(self.authorities@, i as int);
                }
                return Some(i);
            }
            i += 1;
        }
        None
    }

    /// The authority that sits at `seat`, if the committee is that large.
    pub fn authority(&self, seat: usize) -> (r: Option<Authority>)
        ensures
            r == if seat < self.seats().len() {
                Some(self.seats()[seat as int])
            } else {
                None
            },
    {
        if seat < self.authorities.len() {
            Some(self.authorities[seat])
        } else {
            None
        }
    }

    /// The stake of the authority called `name`; zero for a stranger.
    pub fn stake(&self, name: &PublicKey) -> (r: Stake)
        ensures
            r == self.stake_of(*name),
    {
        match self.seat(name) {
            Some(seat) => {
                proof {
                    self.lemma_seat(*name);
                }
                self.authorities[seat].stake
            },
            None => 0,
        }
    }

    /// The public key share of the authority called `name`, if it is a
    /// member.
    pub fn key_share(&self, name: &PublicKey) -> (r: Option<KeyShare>)
        ensures
            r == self.key_of(*name),
    {
        match self.seat(name) {
            Some(seat) => {
                proof {
                    self.lemma_seat(*name);
                }
                Some(self.authorities[seat].key_share)
            },
            None => None,
        }
    }

    /// The names of all authorities but `name`, by seat.
    pub fn others(&self, name: &PublicKey) -> (r: Vec<PublicKey>)
        ensures
            r@ == self.others_of(*name),
    {
        let mut out: Vec<PublicKey> = Vec::new();
        let mut i: usize = 0;
        while i < self.authorities.len()
            invariant
                i <= self.authorities.len(),
                out@ == names_except(self.authorities@, *name, i as int),
            decreases self.authorities.len() - i,
        {
            if !(self.authorities[i].name == *name) {
                out.push(self.authorities[i].name);
            }
            i += 1;
        }
        out
    }

    /// The public key share of the authority called `name`, if it is a
    /// member.
    pub open spec fn key_of(self, name: PublicKey) -> Option<KeyShare> {
        match self.seat_of(name) {
            Some(seat) => Some(self.seats()[seat].key_share),
            None => None,
        }
    }

    /// The names of all authorities but `name`, by seat.
    pub open spec fn others_of(self, name: PublicKey) -> Seq<PublicKey> {
        names_except(self.seats(), name, self.seats().len() as int)
    }

    /// The seat of a member is a seat of the committee, fits a signer bitmap,
    /// and holds the authority of that name.
    pub proof fn lemma_seat(self, name: PublicKey)
        ensures
            self.seat_of(name) matches Some(seat) ==> 0 <= seat < self.seats().len()
                && self.seats()[seat].name == name,
            self.wf() ==> (self.seat_of(name) matches Some(seat) ==> seat < MAX_AUTHORITIES),
    {
    }

    /// Two members with the same seat are the same authority.
    pub proof fn lemma_seat_is_injective(self, a: PublicKey, b: PublicKey)
        requires
            self.seat_of(a) is Some,
            self.seat_of(a) == self.seat_of(b),
        ensures
            a == b,
    {
        self.lemma_seat(a);
        self.lemma_seat(b);
    }
}

impl Clone for Committee {
    fn clone(&self) -> (r: Committee)
        ensures
            r.seats() == self.seats(),
            r.threshold() == self.threshold(),
    {
        proof {
            use_type_invariant(self);
        }
        let mut copy: Vec<Authority> = Vec::new();
        let mut i: usize = 0;
        while i < self.authorities.len()
            invariant
                i <= self.authorities.len(),
                copy@ == self.authorities@.take(i as int),
            decreases self.authorities.len() - i,
        {
            copy.push(self.authorities[i]);
            assert(self.authorities@.take(i + 1) == self.authorities@.take(i as int).push(
                self.authorities[i as int],
            ));
            i += 1;
        }
        assert(self.authorities@.take(i as int) == self.authorities@);
        Committee { authorities: copy, threshold: self.threshold }
    }
}

/// A list with distinct names, copied into ascending order of the key
/// shares, has distinct key shares, and the copy has distinct names.
proof fn lemma_sorted_copy_is_distinct(input: Seq<Authority>, sorted: Seq<Authority>)
    requires
        distinct_names(input),
        ascending_keys(sorted),
        input.len() == sorted.len(),
        forall|k: int| 0 <= k < input.len() ==> sorted.contains(#[trigger] input[k]),
        forall|p: int|
            0 <= p < sorted.len() ==> among_first(input, input.len() as int, #[trigger] sorted[p]),
    ensures
        distinct_keys(input),
        distinct_names(sorted),
{
    lemma_ascending_is_distinct(sorted);
    assert forall|i: int, j: int| 0 <= i < j < input.len() implies input[i].key_share
        != input[j].key_share by {
        let p = choose|p: int| 0 <= p < sorted.len() && sorted[p] == input[i];
        let q = choose|q: int| 0 <= q < sorted.len() && sorted[q] == input[j];
        if p == q {
            assert(input[i].name == input[j].name);
        } else if p < q {
            assert(sorted[p].key_share != sorted[q].key_share);
        } else {
            assert(sorted[q].key_share != sorted[p].key_share);
        }
    }
    assert forall|p: int, q: int| 0 <= p < q < sorted.len() implies sorted[p].name
        != sorted[q].name by {
        assert(among_first(input, input.len() as int, sorted[p]));
        assert(among_first(input, input.len() as int, sorted[q]));
        let i = choose|i: int| 0 <= i < input.len() && input[i] == sorted[p];
        let j = choose|j: int| 0 <= j < input.len() && input[j] == sorted[q];
        assert(sorted[p].key_share != sorted[q].key_share);
        if i < j {
            assert(input[i].name != input[j].name);
        } else if j < i {
            assert(input[j].name != input[i].name);
        }
    }
}

} // verus!
