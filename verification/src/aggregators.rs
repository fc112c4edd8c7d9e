//! Collects the votes for one header and makes the certificate as soon as
//! the voters hold enough stake: once, and never again.
use crate::bitmap::{
    count_ones, has_bit, lemma_count_empty, lemma_count_with_bit, lemma_empty_bitmap,
    lemma_ones_below_bound, lemma_with_bit, set_bit, test_bit, with_bit,
};
use crate::committee::Committee;
use crate::crypto::{add_signatures, share_check, signature_sum, verify};
use crate::error::{DagError, DagResult};
use crate::messages::{
    ballot_digest, has_stray_bit, signers_stake, Certificate, Header, HeaderView, Vote,
};
use crate::types::{PublicKey, SignatureShare, Stake};
use vstd::prelude::*;

verus! {

/// Aggregates the votes for one header into a certificate.
#[derive(Clone, Copy, Debug, PartialEq, Eq)]
pub struct VotesAggregator {
    weight: u64,
    voted: u128,
    signers: u32,
    aggregate: SignatureShare,
    bitmap: u128,
    sent: bool,
}

/// An aggregator as a mathematical value.
pub struct AggregatorState {
    /// Stake of the voters counted since the start or since the certificate.
    pub weight: nat,
    /// The seats that voted.
    pub voted: u128,
    /// Number of votes whose share is part of the aggregate signature.
    pub signers: nat,
    /// Sum of the shares of the signers.
    pub aggregate: SignatureShare,
    /// The seats of the signers.
    pub bitmap: u128,
    /// Whether the certificate was made.
    pub sent: bool,
}

impl AggregatorState {
    /// What holds of an aggregator at all times: the bitmap has one bit for
    /// each signer, and every signer has voted.
    pub open spec fn wf(self) -> bool {
        &&& count_ones(self.bitmap) == self.signers
        &&& forall|seat: nat| has_bit(self.bitmap, seat) ==> has_bit(self.voted, seat)
    }
}

/// The aggregator before the first vote.
pub open spec fn initial() -> AggregatorState {
    AggregatorState {
        weight: 0,
        voted: 0,
        signers: 0,
        aggregate: SignatureShare::of_bytes(Seq::new(96, |i: int| 0u8)),
        bitmap: 0,
        sent: false,
    }
}

/// The sum of the aggregate signature and one more share; `None` where the
/// two cannot be added.
pub open spec fn summed(aggregate: SignatureShare, share: SignatureShare) -> Option<
    SignatureShare,
> {
    match signature_sum(aggregate.bytes@, share.bytes@) {
        Some(bytes) => Some(SignatureShare::of_bytes(bytes)),
        None => None,
    }
}

impl AggregatorState {
    /// What the vote of `author` does to an aggregator, and the answer it
    /// gets, once it is known where the author sits, what stake it has,
    /// whether the signature on the vote holds (`valid`), and what the sum of
    /// the aggregate signature and the share of the vote is (`sum`).
    ///
    /// A seat that no bitmap has and an authority that has voted are turned
    /// away, and so is, until the certificate is made, a vote whose
    /// signature does not hold or whose share cannot be added: none of them
    /// leaves a trace. A vote that is taken adds its stake, and until the
    /// certificate is made also its share and its bit; the first share is
    /// the aggregate itself. The vote that brings the weight to the
    /// threshold is answered with the certificate; the weight then starts
    /// again from zero and later votes are counted without regard to
    /// `valid` and `sum`.
    pub open spec fn record(
        self,
        author: PublicKey,
        seat: nat,
        stake: Stake,
        threshold: Stake,
        valid: bool,
        share: SignatureShare,
        sum: Option<SignatureShare>,
        header: HeaderView,
    ) -> (AggregatorState, DagResult<Option<Certificate>>) {
        let voted = with_bit(self.voted, seat);
        let weight = self.weight + stake as nat;
        let combined = if self.signers == 0 {
            Some(share)
        } else {
            sum
        };
        if seat >= 128 {
            (self, Err(DagError::UnknownAuthority(author)))
        } else if has_bit(self.voted, seat) {
            (self, Err(DagError::AuthorityReuse(author)))
        } else if self.sent {
            (AggregatorState { weight, voted, ..self }, Ok(None))
        } else if !valid || combined is None {
            (self, Err(DagError::InvalidSignature))
        } else {
            let aggregate = combined.unwrap();
            let bitmap = with_bit(self.bitmap, seat);
            let signers = self.signers + 1;
            if weight >= threshold {
                (
                    AggregatorState {
                        weight: 0,
                        voted,
                        signers,
                        aggregate,
                        bitmap,
                        sent: true,
                    },
                    Ok(
                        Some(
                            Certificate {
                                id: header.id,
                                round: header.round,
                                origin: header.author,
                                votes: (bitmap, aggregate),
                            },
                        ),
                    ),
                )
            } else {
                (
                    AggregatorState { weight, voted, signers, aggregate, bitmap, sent: false },
                    Ok(None),
                )
            }
        }
    }
}

/// What one vote does to an aggregator, and the answer it gets: a stranger
/// to the committee is turned away without a trace, and the vote of a
/// member is recorded with the seat and the stake that the committee gives
/// it, with the outcome of checking its signature against the key share of
/// its author, and with the sum of the aggregate signature and its share.
pub open spec fn next(s: AggregatorState, committee: Committee, vote: Vote, header: HeaderView) -> (
    AggregatorState,
    DagResult<Option<Certificate>>,
) {
    match committee.seat_of(vote.author) {
        None => (s, Err(DagError::UnknownAuthority(vote.author))),
        Some(seat) => {
            let member = committee.seats()[seat];
            s.record(
                vote.author,
                seat as nat,
                member.stake,
                committee.threshold(),
                share_check(
                    member.key_share.bytes@,
                    vote.signature.bytes@,
                    ballot_digest(vote.id, vote.round, vote.origin),
                ) == Some(true),
                vote.signature,
                summed(s.aggregate, vote.signature),
                header,
            )
        },
    }
}

/// The aggregator after the votes `votes`, delivered in this order.
pub open spec fn after(committee: Committee, header: HeaderView, votes: Seq<Vote>) -> AggregatorState
    decreases votes.len(),
{
    if votes.len() == 0 {
        initial()
    } else {
        next(after(committee, header, votes.drop_last()), committee, votes.last(), header).0
    }
}

/// The answer that the last of `votes` gets.
pub open spec fn answer(committee: Committee, header: HeaderView, votes: Seq<Vote>) -> DagResult<
    Option<Certificate>,
>
    recommends
        votes.len() > 0,
{
    next(after(committee, header, votes.drop_last()), committee, votes.last(), header).1
}

/// The stake of the authorities whose vote, among `votes`, was taken.
pub open spec fn accepted_stake(committee: Committee, header: HeaderView, votes: Seq<Vote>) -> nat
    decreases votes.len(),
{
    if votes.len() == 0 {
        0
    } else {
        accepted_stake(committee, header, votes.drop_last()) + if answer(committee, header, votes)
            is Ok {
            committee.stake_of(votes.last().author)
        } else {
            0
        }
    }
}

/// The number of votes, among `votes`, whose share became part of the
/// aggregate signature: those taken before the certificate was made.
pub open spec fn incorporated(committee: Committee, header: HeaderView, votes: Seq<Vote>) -> nat
    decreases votes.len(),
{
    if votes.len() == 0 {
        0
    } else {
        incorporated(committee, header, votes.drop_last()) + if answer(committee, header, votes)
            is Ok && !after(committee, header, votes.drop_last()).sent {
            1nat
        } else {
            0nat
        }
    }
}

/// The aggregator before the first vote is well formed.
pub proof fn lemma_initial_wf()
    ensures
        initial().wf(),
{
    lemma_count_empty(128);
    assert forall|seat: nat| !has_bit(0, seat) by {
        lemma_empty_bitmap(seat);
    }
}

/// Recording a vote leaves a well-formed aggregator well formed.
pub proof fn lemma_record_keeps_wf(
    s: AggregatorState,
    author: PublicKey,
    seat: nat,
    stake: Stake,
    threshold: Stake,
    valid: bool,
    share: SignatureShare,
    sum: Option<SignatureShare>,
    header: HeaderView,
)
    requires
        s.wf(),
    ensures
        s.record(author, seat, stake, threshold, valid, share, sum, header).0.wf(),
{
    let t = s.record(author, seat, stake, threshold, valid, share, sum, header).0;
    if seat < 128 && !has_bit(s.voted, seat) {
        assert forall|other: nat| has_bit(t.bitmap, other) implies has_bit(t.voted, other) by {
            lemma_with_bit(s.voted, seat, other);
            lemma_with_bit(s.bitmap, seat, other);
        }
        lemma_count_with_bit(s.bitmap, seat);
    }
}

/// A vote leaves a well-formed aggregator well formed: whatever the votes,
/// the bitmap has as many bits as there are signers.
pub proof fn lemma_next_keeps_wf(
    s: AggregatorState,
    committee: Committee,
    vote: Vote,
    header: HeaderView,
)
    requires
        s.wf(),
    ensures
        next(s, committee, vote, header).0.wf(),
{
    match committee.seat_of(vote.author) {
        None => {},
        Some(seat) => {
            let member = committee.seats()[seat];
            lemma_record_keeps_wf(
                s,
                vote.author,
                seat as nat,
                member.stake,
                committee.threshold(),
                share_check(
                    member.key_share.bytes@,
                    vote.signature.bytes@,
                    ballot_digest(vote.id, vote.round, vote.origin),
                ) == Some(true),
                vote.signature,
                summed(s.aggregate, vote.signature),
                header,
            );
        },
    }
}

/// An authority that votes a second time is answered with `AuthorityReuse`,
/// and the second vote changes nothing: neither the aggregate signature nor
/// the bitmap nor anything else.
pub proof fn lemma_second_vote_is_refused(
    s: AggregatorState,
    committee: Committee,
    first: Vote,
    second: Vote,
    header: HeaderView,
)
    requires
        committee.wf(),
        next(s, committee, first, header).1 is Ok,
        second.author == first.author,
    ensures
        next(next(s, committee, first, header).0, committee, second, header) == (
            next(s, committee, first, header).0,
            Err::<Option<Certificate>, DagError>(DagError::AuthorityReuse(second.author)),
        ),
{
    committee.lemma_seat(first.author);
    let seat = committee.seat_of(first.author).unwrap();
    lemma_with_bit(s.voted, seat as nat, seat as nat);
}

/// What holds after any sequence of votes: the aggregator is well formed,
/// the certificate has been made exactly if the stake of the votes taken
/// has reached the threshold, until then the weight is that stake, and the
/// signers are the votes taken until then.
pub proof fn lemma_after(committee: Committee, header: HeaderView, votes: Seq<Vote>)
    requires
        committee.wf(),
    ensures
        after(committee, header, votes).wf(),
        after(committee, header, votes).sent <==> accepted_stake(committee, header, votes)
            >= committee.threshold(),
        !after(committee, header, votes).sent ==> after(committee, header, votes).weight
            == accepted_stake(committee, header, votes),
        after(committee, header, votes).signers == incorporated(committee, header, votes),
        count_ones(after(committee, header, votes).bitmap) == incorporated(
            committee,
            header,
            votes,
        ),
    decreases votes.len(),
{
    if votes.len() == 0 {
        lemma_initial_wf();
    } else {
        lemma_after(committee, header, votes.drop_last());
        let before = after(committee, header, votes.drop_last());
        lemma_next_keeps_wf(before, committee, votes.last(), header);
        committee.lemma_seat(votes.last().author);
    }
}

/// A vote is answered with a certificate exactly if it is taken and is the
/// one with which the stake of the votes taken first reaches the threshold.
pub proof fn lemma_certificate_at_first_quorum(
    committee: Committee,
    header: HeaderView,
    votes: Seq<Vote>,
)
    requires
        committee.wf(),
        votes.len() > 0,
    ensures
        (answer(committee, header, votes) matches Ok(Some(_))) <==> (answer(
            committee,
            header,
            votes,
        ) is Ok && accepted_stake(committee, header, votes.drop_last()) < committee.threshold()
            <= accepted_stake(committee, header, votes)),
{
    lemma_after(committee, header, votes.drop_last());
    lemma_after(committee, header, votes);
    committee.lemma_seat(votes.last().author);
}

/// The stake of the votes taken does not shrink as more votes arrive.
pub proof fn lemma_accepted_stake_grows(
    committee: Committee,
    header: HeaderView,
    votes: Seq<Vote>,
    n: int,
)
    requires
        0 <= n <= votes.len(),
    ensures
        accepted_stake(committee, header, votes.take(n)) <= accepted_stake(
            committee,
            header,
            votes,
        ),
    decreases votes.len(),
{
    if n < votes.len() {
        assert(votes.drop_last().take(n) == votes.take(n));
        lemma_accepted_stake_grows(committee, header, votes.drop_last(), n);
    } else {
        assert(votes.take(n) == votes);
    }
}

/// No sequence of votes is answered with two certificates.
pub proof fn lemma_certificate_only_once(
    committee: Committee,
    header: HeaderView,
    votes: Seq<Vote>,
    i: int,
    j: int,
)
    requires
        committee.wf(),
        0 < i <= votes.len(),
        0 < j <= votes.len(),
        answer(committee, header, votes.take(i)) matches Ok(Some(_)),
        answer(committee, header, votes.take(j)) matches Ok(Some(_)),
    ensures
        i == j,
{
    lemma_certificate_at_first_quorum(committee, header, votes.take(i));
    lemma_certificate_at_first_quorum(committee, header, votes.take(j));
    if i < j {
        assert(votes.take(j).drop_last().take(i) == votes.take(i));
        lemma_accepted_stake_grows(committee, header, votes.take(j).drop_last(), i);
    } else if j < i {
        assert(votes.take(i).drop_last().take(j) == votes.take(j));
        lemma_accepted_stake_grows(committee, header, votes.take(i).drop_last(), j);
    }
}

/// A seat that has voted has voted for good.
pub proof fn lemma_voted_stays(
    committee: Committee,
    header: HeaderView,
    votes: Seq<Vote>,
    n: int,
    seat: nat,
)
    requires
        committee.wf(),
        0 <= n <= votes.len(),
        has_bit(after(committee, header, votes.take(n)).voted, seat),
    ensures
        has_bit(after(committee, header, votes).voted, seat),
    decreases votes.len(),
{
    if n < votes.len() {
        assert(votes.drop_last().take(n) == votes.take(n));
        lemma_voted_stays(committee, header, votes.drop_last(), n, seat);
        committee.lemma_seat(votes.last().author);
        match committee.seat_of(votes.last().author) {
            None => {},
            Some(last) => {
                lemma_with_bit(
                    after(committee, header, votes.drop_last()).voted,
                    last as nat,
                    seat,
                );
            },
        }
    } else {
        assert(votes.take(n) == votes);
    }
}

/// The votes that are taken come from distinct authorities: the stake that
/// makes the quorum is counted once for each of them.
pub proof fn lemma_voters_are_distinct(
    committee: Committee,
    header: HeaderView,
    votes: Seq<Vote>,
    i: int,
    j: int,
)
    requires
        committee.wf(),
        0 < i < j <= votes.len(),
        answer(committee, header, votes.take(i)) is Ok,
        answer(committee, header, votes.take(j)) is Ok,
    ensures
        votes[i - 1].author != votes[j - 1].author,
{
    let first = votes.take(i);
    let until = votes.take(j).drop_last();
    committee.lemma_seat(votes[i - 1].author);
    committee.lemma_seat(votes[j - 1].author);
    let seat = committee.seat_of(votes[i - 1].author).unwrap();
    lemma_with_bit(after(committee, header, first.drop_last()).voted, seat as nat, seat as nat);
    assert(until.take(i) == first);
    lemma_voted_stays(committee, header, until, i, seat as nat);
}

/// Whether a vote of `name` is among the votes of `votes` that were taken.
pub open spec fn has_voted(
    committee: Committee,
    header: HeaderView,
    votes: Seq<Vote>,
    name: PublicKey,
) -> bool {
    exists|i: int|
        0 < i <= votes.len() && votes[i - 1].author == name && (#[trigger] answer(
            committee,
            header,
            votes.take(i),
        )) is Ok
}

/// A seat has voted only if a vote of the authority that sits there was
/// taken.
pub proof fn lemma_voted_seat(committee: Committee, header: HeaderView, votes: Seq<Vote>, seat: nat)
    requires
        committee.wf(),
        has_bit(after(committee, header, votes).voted, seat),
    ensures
        seat < committee.seats().len(),
        has_voted(committee, header, votes, committee.seats()[seat as int].name),
    decreases votes.len(),
{
    if votes.len() == 0 {
        lemma_empty_bitmap(seat);
    } else {
        let rest = votes.drop_last();
        let before = after(committee, header, rest);
        committee.lemma_seat(votes.last().author);
        if has_bit(before.voted, seat) {
            lemma_voted_seat(committee, header, rest, seat);
            let name = committee.seats()[seat as int].name;
            let i = choose|i: int|
                0 < i <= rest.len() && rest[i - 1].author == name && (#[trigger] answer(
                    committee,
                    header,
                    rest.take(i),
                )) is Ok;
            assert(rest.take(i) == votes.take(i));
            assert(answer(committee, header, votes.take(i)) is Ok);
        } else {
            let last = committee.seat_of(votes.last().author).unwrap();
            lemma_with_bit(before.voted, last as nat, seat);
            assert(votes.take(votes.len() as int) == votes);
            assert(answer(committee, header, votes.take(votes.len() as int)) is Ok);
        }
    }
}

/// Only an authority whose vote was taken before is answered with
/// `AuthorityReuse`.
pub proof fn lemma_reuse_means_voted(committee: Committee, header: HeaderView, votes: Seq<Vote>)
    requires
        committee.wf(),
        votes.len() > 0,
        answer(committee, header, votes) is Err,
        answer(committee, header, votes)->Err_0 is AuthorityReuse,
    ensures
        answer(committee, header, votes) == Err::<Option<Certificate>, DagError>(
            DagError::AuthorityReuse(votes.last().author),
        ),
        has_voted(committee, header, votes.drop_last(), votes.last().author),
{
    committee.lemma_seat(votes.last().author);
    let seat = committee.seat_of(votes.last().author).unwrap();
    lemma_voted_seat(committee, header, votes.drop_last(), seat as nat);
}

/// The empty bitmap names no signer, so that its signers hold no stake.
pub proof fn lemma_signers_stake_empty(committee: Committee, n: nat)
    ensures
        signers_stake(committee, 0, n) == 0,
    decreases n,
{
    if n > 0 {
        lemma_signers_stake_empty(committee, (n - 1) as nat);
        lemma_empty_bitmap((n - 1) as nat);
    }
}

/// One more signer adds the stake of its seat to the stake of the signers.
pub proof fn lemma_signers_stake_with_bit(committee: Committee, bitmap: u128, seat: nat, n: nat)
    requires
        seat < 128,
        !has_bit(bitmap, seat),
    ensures
        signers_stake(committee, with_bit(bitmap, seat), n) == signers_stake(committee, bitmap, n)
            + if seat < n {
            committee.seats()[seat as int].stake as nat
        } else {
            0nat
        },
    decreases n,
{
    if n > 0 {
        lemma_signers_stake_with_bit(committee, bitmap, seat, (n - 1) as nat);
        lemma_with_bit(bitmap, seat, (n - 1) as nat);
    }
}

/// After any sequence of votes every signer has a seat in the committee,
/// and until the certificate is made the weight is the stake of the
/// signers.
pub proof fn lemma_weight_is_signers_stake(
    committee: Committee,
    header: HeaderView,
    votes: Seq<Vote>,
)
    requires
        committee.wf(),
    ensures
        !has_stray_bit(after(committee, header, votes).bitmap, committee.seats().len()),
        !after(committee, header, votes).sent ==> after(committee, header, votes).weight
            == signers_stake(
            committee,
            after(committee, header, votes).bitmap,
            committee.seats().len(),
        ),
    decreases votes.len(),
{
    let size = committee.seats().len();
    if votes.len() == 0 {
        lemma_signers_stake_empty(committee, size);
        assert forall|seat: nat| !has_bit(0, seat) by {
            lemma_empty_bitmap(seat);
        }
    } else {
        let before = after(committee, header, votes.drop_last());
        let now = after(committee, header, votes);
        lemma_weight_is_signers_stake(committee, header, votes.drop_last());
        lemma_after(committee, header, votes.drop_last());
        committee.lemma_seat(votes.last().author);
        match committee.seat_of(votes.last().author) {
            None => {},
            Some(seat) => {
                if !before.sent && answer(committee, header, votes) is Ok {
                    assert(now.bitmap == with_bit(before.bitmap, seat as nat));
                    assert(!has_bit(before.bitmap, seat as nat));
                    lemma_signers_stake_with_bit(committee, before.bitmap, seat as nat, size);
                    assert forall|other: nat| size <= other implies !has_bit(
                        now.bitmap,
                        other,
                    ) by {
                        lemma_with_bit(before.bitmap, seat as nat, other);
                    }
                }
            },
        }
    }
}

/// A certificate that the aggregator makes names only signers that have a
/// seat in the committee, as many as votes were taken until then, and its
/// signers hold the stake of a quorum.
pub proof fn lemma_certificate_has_quorum(
    committee: Committee,
    header: HeaderView,
    votes: Seq<Vote>,
)
    requires
        committee.wf(),
        votes.len() > 0,
        answer(committee, header, votes) matches Ok(Some(_)),
    ensures
        ({
            let certificate = answer(committee, header, votes)->Ok_0->Some_0;
            &&& certificate.id == header.id
            &&& certificate.round == header.round
            &&& certificate.origin == header.author
            &&& certificate.votes.0 == after(committee, header, votes).bitmap
            &&& certificate.votes.1 == after(committee, header, votes).aggregate
            &&& !has_stray_bit(certificate.votes.0, committee.seats().len())
            &&& count_ones(certificate.votes.0) == incorporated(committee, header, votes)
            &&& signers_stake(committee, certificate.votes.0, committee.seats().len())
                >= committee.threshold()
        }),
{
    let size = committee.seats().len();
    let before = after(committee, header, votes.drop_last());
    lemma_weight_is_signers_stake(committee, header, votes.drop_last());
    lemma_weight_is_signers_stake(committee, header, votes);
    lemma_after(committee, header, votes);
    lemma_after(committee, header, votes.drop_last());
    committee.lemma_seat(votes.last().author);
    let seat = committee.seat_of(votes.last().author).unwrap();
    lemma_signers_stake_with_bit(committee, before.bitmap, seat as nat, size);
}

impl View for VotesAggregator {
    type V = AggregatorState;

    closed spec fn view(&self) -> AggregatorState {
        AggregatorState {
            weight: self.weight as nat,
            voted: self.voted,
            signers: self.signers as nat,
            aggregate: self.aggregate,
            bitmap: self.bitmap,
            sent: self.sent,
        }
    }
}

impl VotesAggregator {
    #[verifier::type_invariant]
    spec fn bounded(self) -> bool {
        &&& self@.wf()
        &&& self.weight <= count_ones(self.voted) * 0xffff_ffff
    }

    /// An aggregator that has seen no vote.
    pub fn new() -> (r: VotesAggregator)
        ensures
            r@ == initial(),
            r@.wf(),
    {
        let aggregate = SignatureShare::default();
        proof {
            lemma_initial_wf();
            aggregate.lemma_of_bytes();
        }
        VotesAggregator { weight: 0, voted: 0, signers: 0, aggregate, bitmap: 0, sent: false }
    }

    /// Stake of the voters counted since the start or since the certificate.
    pub fn weight(&self) -> (r: u64)
        ensures
            r == self@.weight,
    {
        self.weight
    }

    /// The seats of the signers.
    pub fn bitmap(&self) -> (r: u128)
        ensures
            r == self@.bitmap,
    {
        self.bitmap
    }

    /// Sum of the shares of the signers.
    pub fn aggregate(&self) -> (r: SignatureShare)
        ensures
            r == self@.aggregate,
    {
        self.aggregate
    }

    /// Number of votes whose share is part of the aggregate signature.
    pub fn signers(&self) -> (r: u32)
        ensures
            r == self@.signers,
            r == count_ones(self@.bitmap),
    {
        proof {
            use_type_invariant(self);
        }
        self.signers
    }

    /// Whether the certificate was made.
    pub fn is_certified(&self) -> (r: bool)
        ensures
            r == self@.sent,
    {
        self.sent
    }

    /// Whether a vote from `seat` has yet to be checked before it is
    /// recorded: not once the certificate is made, and not where the seat has
    /// voted.
    pub fn wants_check(&self, seat: usize) -> (r: bool)
        ensures
            r == (!self@.sent && !has_bit(self@.voted, seat as nat)),
    {
        !self.sent && !test_bit(self.voted, seat)
    }

    /// Records the vote of `author`, who sits at `seat` with the stake
    /// `stake`: `valid` tells whether the signature on the vote holds, and
    /// `sum` is the sum of the aggregate signature and the share `share` of
    /// the vote, if the two can be added. Answers with the certificate if
    /// this vote brings the weight to `threshold`.
    pub fn record(
        &mut self,
        author: PublicKey,
        seat: usize,
        stake: Stake,
        threshold: Stake,
        valid: bool,
        share: SignatureShare,
        sum: Option<SignatureShare>,
        header: &Header,
    ) -> (r: DagResult<Option<Certificate>>)
        ensures
            (final(self)@, r) == old(self)@.record(
                author,
                seat as nat,
                stake,
                threshold,
                valid,
                share,
                sum,
                header@,
            ),
            final(self)@.wf(),
    {
        proof {
            use_type_invariant(&*self);
        }
        if seat >= 128 {
            return Err(DagError::UnknownAuthority(author));
        }
        if test_bit(self.voted, seat) {
            return Err(DagError::AuthorityReuse(author));
        }
        let voted = set_bit(self.voted, seat);
        proof {
            lemma_count_with_bit(self.voted, seat as nat);
            lemma_ones_below_bound(voted, 128);
            lemma_record_keeps_wf(
                self@,
                author,
                seat as nat,
                stake,
                threshold,
                valid,
                share,
                sum,
                header@,
            );
            assert(self.weight + stake <= count_ones(voted) * 0xffff_ffff) by (nonlinear_arith)
                requires
                    self.weight <= count_ones(self.voted) * 0xffff_ffff,
                    stake <= 0xffff_ffff,
                    count_ones(voted) == count_ones(self.voted) + 1,
            ;
            assert(count_ones(voted) * 0xffff_ffff <= 128 * 0xffff_ffff) by (nonlinear_arith)
                requires
                    count_ones(voted) <= 128,
            ;
        }
        let weight: u64 = self.weight + stake as u64;
        if self.sent {
            *self = VotesAggregator {
                weight,
                voted,
                signers: self.signers,
                aggregate: self.aggregate,
                bitmap: self.bitmap,
                sent: true,
            };
            return Ok(None);
        }
        if !valid {
            return Err(DagError::InvalidSignature);
        }
        let aggregate = if self.signers == 0 {
            share
        } else {
            match sum {
                Some(sum) => sum,
                None => {
                    return Err(DagError::InvalidSignature);
                },
            }
        };
        let bitmap = set_bit(self.bitmap, seat);
        proof {
            lemma_ones_below_bound(bitmap, 128);
        }
        let signers: u32 = self.signers + 1;
        if weight >= threshold as u64 {
            *self = VotesAggregator { weight: 0, voted, signers, aggregate, bitmap, sent: true };
            return Ok(
                Some(
                    Certificate {
                        id: header.id,
                        round: header.round,
                        origin: header.author,
                        votes: (bitmap, aggregate),
                    },
                ),
            );
        }
        *self = VotesAggregator { weight, voted, signers, aggregate, bitmap, sent: false };
        Ok(None)
    }

    /// Takes the vote `vote` for `header`, and answers with the certificate
    /// if this vote completes the quorum. The signature is checked, and the
    /// share added to the aggregate, only where the vote has yet to be
    /// checked: there is no such work once the certificate is made.
    pub fn append(&mut self, vote: Vote, committee: &Committee, header: &Header) -> (r: DagResult<
        Option<Certificate>,
    >)
        ensures
            (final(self)@, r) == next(old(self)@, *committee, vote, header@),
            final(self)@.wf(),
    {
        proof {
            use_type_invariant(&*self);
            use_type_invariant(committee);
            committee.lemma_seat(vote.author);
        }
        let seat = match committee.seat(&vote.author) {
            Some(seat) => seat,
            None => {
                return Err(DagError::UnknownAuthority(vote.author));
            },
        };
        let member = match committee.authority(seat) {
            Some(member) => member,
            None => {
                return Err(DagError::UnknownAuthority(vote.author));
            },
        };
        let mut valid = false;
        let mut sum: Option<SignatureShare> = None;
        if self.wants_check(seat) {
            let signed = vote.digest().to_vec();
            valid = verify(&member.key_share, &vote.signature, &signed);
            if valid && self.signers > 0 {
                sum = add_signatures(&self.aggregate, &vote.signature);
                proof {
                    if sum is Some {
                        sum.unwrap().lemma_of_bytes();
                    }
                }
            }
        }
        self.record(
            vote.author,
            seat,
            member.stake,
            committee.validity_threshold(),
            valid,
            vote.signature,
            sum,
            header,
        )
    }
}

} // verus!
