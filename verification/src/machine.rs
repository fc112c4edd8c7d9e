//! The state machine of a primary: what it does with each header, vote and
//! certificate that reaches it, and what it forgets as the rounds go by.
//!
//! The machine itself touches neither network nor disk. Each event is
//! answered with the list of things to do, in order, and whoever drives the
//! machine does them.
use crate::aggregators::{next, AggregatorState, VotesAggregator};
use crate::committee::Committee;
use crate::crypto::SecretShare;
use crate::error::{DagError, DagResult};
use crate::messages::{
    ballot_digest, Certificate, Header, HeaderView, MessageView, PrimaryMessage, Vote,
};
use crate::types::{Digest, PublicKey, Round};
use vstd::prelude::*;

verus! {

/// What reaches the state machine.
#[derive(Debug, PartialEq, Eq)]
pub enum CoreEvent {
    /// A message of another primary, or a certificate that the verification
    /// pool hands back.
    Message(PrimaryMessage),
    /// A header whose payload has arrived in the meantime.
    HeaderLoopback(Header),
    /// A certificate whose ancestors have arrived in the meantime.
    CertificateLoopback(Certificate),
    /// A header that the proposer of this primary has made.
    OwnHeader(Header),
}

/// An event as a mathematical value.
pub enum EventView {
    Message(MessageView),
    HeaderLoopback(HeaderView),
    CertificateLoopback(Certificate),
    OwnHeader(HeaderView),
}

impl View for CoreEvent {
    type V = EventView;

    open spec fn view(&self) -> EventView {
        match self {
            CoreEvent::Message(message) => EventView::Message(message@),
            CoreEvent::HeaderLoopback(header) => EventView::HeaderLoopback(header@),
            CoreEvent::CertificateLoopback(certificate) => EventView::CertificateLoopback(
                *certificate,
            ),
            CoreEvent::OwnHeader(header) => EventView::OwnHeader(header@),
        }
    }
}

/// What the state machine asks its driver to do.
#[derive(Debug, PartialEq, Eq)]
pub enum CoreAction {
    /// Write the header to the store, under its identifier.
    StoreHeader(Header),
    /// Write the certificate to the store, under its digest.
    StoreCertificate(Certificate),
    /// Send the message to each of `to`, who are all the other primaries, and
    /// keep the handles of the sends under `round`.
    Broadcast { to: Vec<PublicKey>, round: Round, message: PrimaryMessage },
    /// Send the message to one primary, and keep the handle of the send under
    /// `round`.
    Send { to: PublicKey, round: Round, message: PrimaryMessage },
    /// Check the certificate away from the dispatch loop, and hand it back
    /// as verified if it holds.
    Verify(Certificate),
    /// Hand the certificate to the consensus layer.
    Deliver(Certificate),
}

/// An action as a mathematical value.
pub enum ActionView {
    StoreHeader(HeaderView),
    StoreCertificate(Certificate),
    Broadcast { to: Seq<PublicKey>, round: Round, message: MessageView },
    Send { to: PublicKey, round: Round, message: MessageView },
    Verify(Certificate),
    Deliver(Certificate),
}

impl View for CoreAction {
    type V = ActionView;

    open spec fn view(&self) -> ActionView {
        match self {
            CoreAction::StoreHeader(header) => ActionView::StoreHeader(header@),
            CoreAction::StoreCertificate(certificate) => ActionView::StoreCertificate(*certificate),
            CoreAction::Broadcast { to, round, message } => ActionView::Broadcast {
                to: to@,
                round: *round,
                message: message@,
            },
            CoreAction::Send { to, round, message } => ActionView::Send {
                to: *to,
                round: *round,
                message: message@,
            },
            CoreAction::Verify(certificate) => ActionView::Verify(*certificate),
            CoreAction::Deliver(certificate) => ActionView::Deliver(*certificate),
        }
    }
}

/// The actions of a list as mathematical values.
pub open spec fn action_views(actions: Seq<CoreAction>) -> Seq<ActionView> {
    actions.map_values(|action: CoreAction| action@)
}

/// What handling an event has led to.
#[derive(Debug, PartialEq, Eq)]
pub struct Outcome {
    /// What is to be done, in this order.
    pub actions: Vec<CoreAction>,
    /// Whether the event was processed, or why not.
    pub result: DagResult<()>,
}

/// A header that waits for its votes.
#[verifier::ext_equal]
pub struct Pending {
    pub header: HeaderView,
    pub aggregator: AggregatorState,
}

/// The state machine as a mathematical value.
#[verifier::ext_equal]
pub struct CoreState {
    /// This primary.
    pub name: PublicKey,
    /// The committee.
    pub committee: Committee,
    /// The secret share with which this primary signs its votes.
    pub secret: Seq<u8>,
    /// How many rounds behind the consensus round are kept.
    pub gc_depth: Round,
    /// The oldest round that is still processed.
    pub gc_round: Round,
    /// Round and author of the headers voted for.
    pub last_voted: Seq<(Round, PublicKey)>,
    /// The headers of this primary that wait for their votes, each with its
    /// aggregator.
    pub pending: Seq<Pending>,
}

/// A state, what is to be done, and the result.
#[verifier::ext_equal]
pub struct Step {
    pub state: CoreState,
    pub actions: Seq<ActionView>,
    pub result: DagResult<()>,
}

/// The place of the pending header `id`, from `from` on.
pub open spec fn position_from(pending: Seq<Pending>, id: Digest, from: int) -> Option<int>
    decreases pending.len() - from,
{
    if from < 0 || from >= pending.len() {
        None
    } else if pending[from].header.id == id {
        Some(from)
    } else {
        position_from(pending, id, from + 1)
    }
}

/// The place of the pending header `id`.
pub open spec fn position(pending: Seq<Pending>, id: Digest) -> Option<int> {
    position_from(pending, id, 0)
}

/// The entries of `log` whose round is `floor` or later.
pub open spec fn since(log: Seq<(Round, PublicKey)>, floor: Round) -> Seq<(Round, PublicKey)> {
    log.filter(|entry: (Round, PublicKey)| entry.0 >= floor)
}

impl CoreState {
    /// A certificate is written to the store and handed to the consensus
    /// layer, whether it was seen before or not.
    pub open spec fn process_certificate(self, certificate: Certificate) -> Step {
        Step {
            state: self,
            actions: seq![
                ActionView::StoreCertificate(certificate),
                ActionView::Deliver(certificate),
            ],
            result: Ok(()),
        }
    }

    /// A vote is admitted if its round has not been garbage collected and,
    /// where the header it names is pending, it gives the author and the
    /// round of that header.
    pub open spec fn sanitize_vote(self, vote: Vote) -> DagResult<()> {
        if vote.round < self.gc_round {
            Err(DagError::VoteTooOld(vote.id, vote.round))
        } else {
            match position(self.pending, vote.id) {
                None => Ok(()),
                Some(at) => if vote.origin == self.pending[at].header.author && vote.round
                    == self.pending[at].header.round {
                    Ok(())
                } else {
                    Err(DagError::UnexpectedVote(vote.id))
                },
            }
        }
    }

    /// What follows the answer `answer` of the aggregator of the pending
    /// header at `at`, which the vote has left as `aggregator`. After an
    /// error nothing changes. Without a certificate the aggregator takes its
    /// new state. With the certificate, the certificate is broadcast, the
    /// header is no longer pending, and the certificate is processed.
    pub open spec fn settle_vote(
        self,
        at: int,
        aggregator: AggregatorState,
        answer: DagResult<Option<Certificate>>,
    ) -> Step {
        let known = 0 <= at < self.pending.len();
        match answer {
            Err(e) => Step { state: self, actions: seq![], result: Err(e) },
            Ok(None) => Step {
                state: if known {
                    CoreState {
                        pending: self.pending.update(
                            at,
                            Pending { header: self.pending[at].header, aggregator },
                        ),
                        ..self
                    }
                } else {
                    self
                },
                actions: seq![],
                result: Ok(()),
            },
            Ok(Some(certificate)) => {
                let rest = if known {
                    CoreState { pending: self.pending.remove(at), ..self }
                } else {
                    self
                };
                let then = rest.process_certificate(certificate);
                Step {
                    state: then.state,
                    actions: seq![
                        ActionView::Broadcast {
                            to: self.committee.others_of(self.name),
                            round: certificate.round,
                            message: MessageView::Certificate(certificate),
                        },
                    ] + then.actions,
                    result: then.result,
                }
            },
        }
    }

    /// What becomes of a vote that is admitted. One for a header that is not
    /// pending is dropped. One for a pending header goes to the aggregator of
    /// that header, and the answer of the aggregator is settled.
    pub open spec fn route_vote(self, vote: Vote) -> Step {
        match position(self.pending, vote.id) {
            None => Step { state: self, actions: seq![], result: Ok(()) },
            Some(at) => {
                let entry = self.pending[at];
                let (aggregator, answer) = next(entry.aggregator, self.committee, vote, entry.header);
                self.settle_vote(at, aggregator, answer)
            },
        }
    }

    /// A vote that is not admitted changes nothing and asks for nothing; one
    /// that is admitted is routed.
    pub open spec fn process_vote(self, vote: Vote) -> Step {
        match self.sanitize_vote(vote) {
            Err(e) => Step { state: self, actions: seq![], result: Err(e) },
            Ok(()) => self.route_vote(vote),
        }
    }

    /// A header is admitted if its round has not been garbage collected and
    /// the header is genuine.
    pub open spec fn sanitize_header(self, header: HeaderView) -> DagResult<()> {
        if header.round < self.gc_round {
            Err(DagError::HeaderTooOld(header.id, header.round))
        } else {
            header.verdict(self.committee)
        }
    }

    /// What becomes of a header that is admitted, given the vote `vote` of
    /// this primary for it: the header is written to the store and the vote
    /// is noted. The vote for a header of this primary is processed at once;
    /// any other vote is sent to the author of the header.
    pub open spec fn accept_header(self, header: HeaderView, vote: Vote) -> Step {
        let voted = CoreState {
            last_voted: self.last_voted.push((header.round, header.author)),
            ..self
        };
        if vote.origin == self.name {
            let then = voted.process_vote(vote);
            Step {
                state: then.state,
                actions: seq![ActionView::StoreHeader(header)] + then.actions,
                result: then.result,
            }
        } else {
            Step {
                state: voted,
                actions: seq![
                    ActionView::StoreHeader(header),
                    ActionView::Send {
                        to: header.author,
                        round: header.round,
                        message: MessageView::Vote(vote),
                    },
                ],
                result: Ok(()),
            }
        }
    }

    /// A header that is not admitted changes nothing and asks for nothing:
    /// the store is not written. One that is admitted is accepted, with the
    /// vote that this primary signs for it.
    pub open spec fn process_header(self, header: HeaderView) -> Step {
        match self.sanitize_header(header) {
            Err(e) => Step { state: self, actions: seq![], result: Err(e) },
            Ok(()) => self.accept_header(header, Vote::signed(header, self.name, self.secret)),
        }
    }

    /// The state in which the header `header` of this primary is pending:
    /// the state itself where a header of that identifier is pending
    /// already.
    pub open spec fn registered(self, header: HeaderView) -> CoreState {
        if position(self.pending, header.id) is Some {
            self
        } else {
            CoreState {
                pending: self.pending.push(
                    Pending { header, aggregator: crate::aggregators::initial() },
                ),
                ..self
            }
        }
    }

    /// A header of this primary becomes pending, is broadcast, and is then
    /// processed like any header.
    pub open spec fn process_own_header(self, header: HeaderView) -> Step {
        let then = self.registered(header).process_header(header);
        Step {
            state: then.state,
            actions: seq![
                ActionView::Broadcast {
                    to: self.committee.others_of(self.name),
                    round: header.round,
                    message: MessageView::Header(header),
                },
            ] + then.actions,
            result: then.result,
        }
    }

    /// A certificate is admitted if its round has not been garbage
    /// collected.
    pub open spec fn sanitize_certificate(self, certificate: Certificate) -> DagResult<()> {
        if certificate.round < self.gc_round {
            Err(
                DagError::CertificateTooOld(
                    Digest::of_bytes(
                        ballot_digest(certificate.id, certificate.round, certificate.origin),
                    ),
                    certificate.round,
                ),
            )
        } else {
            Ok(())
        }
    }

    /// A certificate that a peer asserts changes nothing. If it is admitted
    /// it goes to the verification pool, and comes back as a verified
    /// certificate if it holds.
    pub open spec fn receive_certificate(self, certificate: Certificate) -> Step {
        match self.sanitize_certificate(certificate) {
            Err(e) => Step { state: self, actions: seq![], result: Err(e) },
            Ok(()) => Step {
                state: self,
                actions: seq![ActionView::Verify(certificate)],
                result: Ok(()),
            },
        }
    }

    /// The state after garbage collection at the consensus round
    /// `consensus_round`: once that round is past the depth, the floor moves
    /// to the round that lies the depth behind it, and what was noted of
    /// earlier rounds is dropped.
    pub open spec fn cleanup(self, consensus_round: Round) -> CoreState {
        if consensus_round > self.gc_depth {
            let floor = (consensus_round - self.gc_depth) as Round;
            CoreState { gc_round: floor, last_voted: since(self.last_voted, floor), ..self }
        } else {
            self
        }
    }
}

/// What an event leads to.
pub open spec fn step(s: CoreState, event: EventView) -> Step {
    match event {
        EventView::Message(MessageView::Header(header)) => s.process_header(header),
        EventView::Message(MessageView::Vote(vote)) => s.process_vote(vote),
        EventView::Message(MessageView::Certificate(certificate)) => s.receive_certificate(
            certificate,
        ),
        EventView::Message(MessageView::VerifiedCertificate(certificate)) => {
            s.process_certificate(certificate)
        },
        EventView::HeaderLoopback(header) => s.process_header(header),
        EventView::CertificateLoopback(certificate) => s.process_certificate(certificate),
        EventView::OwnHeader(header) => s.process_own_header(header),
    }
}

/// No two pending headers have the same identifier.
pub open spec fn distinct_pending(pending: Seq<Pending>) -> bool {
    forall|i: int, j: int|
        0 <= i < j < pending.len() ==> pending[i].header.id != pending[j].header.id
}

/// A place that `position_from` gives holds a header of that identifier,
/// and where it gives none, no header from `from` on has the identifier.
pub proof fn lemma_position_from(pending: Seq<Pending>, id: Digest, from: int)
    requires
        0 <= from,
    ensures
        match position_from(pending, id, from) {
            Some(at) => from <= at < pending.len() && pending[at].header.id == id,
            None => forall|i: int| from <= i < pending.len() ==> pending[i].header.id != id,
        },
    decreases pending.len() - from,
{
    if from < pending.len() && pending[from].header.id != id {
        lemma_position_from(pending, id, from + 1);
    }
}

/// A header of a round that was garbage collected, whether a peer sends it
/// or the waiter hands it back, is answered with `HeaderTooOld`, changes
/// nothing and asks for nothing: the store is not written.
pub proof fn lemma_stale_header_is_dropped(s: CoreState, header: HeaderView)
    requires
        header.round < s.gc_round,
    ensures
        s.process_header(header) == (Step {
            state: s,
            actions: seq![],
            result: Err(DagError::HeaderTooOld(header.id, header.round)),
        }),
        step(s, EventView::Message(MessageView::Header(header))) == s.process_header(header),
        step(s, EventView::HeaderLoopback(header)) == s.process_header(header),
{
}

/// A header of this primary of a round that was garbage collected is
/// answered with `HeaderTooOld` too and is not written to the store; by
/// then it has been broadcast, and it is pending.
pub proof fn lemma_stale_own_header_is_not_stored(s: CoreState, header: HeaderView)
    requires
        header.round < s.gc_round,
    ensures
        step(s, EventView::OwnHeader(header)) == (Step {
            state: s.registered(header),
            actions: seq![
                ActionView::Broadcast {
                    to: s.committee.others_of(s.name),
                    round: header.round,
                    message: MessageView::Header(header),
                },
            ],
            result: Err(DagError::HeaderTooOld(header.id, header.round)),
        }),
{
    assert(step(s, EventView::OwnHeader(header)).actions =~= seq![
        ActionView::Broadcast {
            to: s.committee.others_of(s.name),
            round: header.round,
            message: MessageView::Header(header),
        },
    ]);
}

/// A vote of a round that was garbage collected is answered with
/// `VoteTooOld`, changes nothing and asks for nothing.
pub proof fn lemma_stale_vote_is_dropped(s: CoreState, vote: Vote)
    requires
        vote.round < s.gc_round,
    ensures
        step(s, EventView::Message(MessageView::Vote(vote))) == (Step {
            state: s,
            actions: seq![],
            result: Err(DagError::VoteTooOld(vote.id, vote.round)),
        }),
{
}

/// A certificate of a round that was garbage collected, asserted by a peer,
/// is answered with `CertificateTooOld`, changes nothing and asks for
/// nothing.
pub proof fn lemma_stale_certificate_is_dropped(s: CoreState, certificate: Certificate)
    requires
        certificate.round < s.gc_round,
    ensures
        step(s, EventView::Message(MessageView::Certificate(certificate))) == (Step {
            state: s,
            actions: seq![],
            result: Err(
                DagError::CertificateTooOld(
                    Digest::of_bytes(
                        ballot_digest(certificate.id, certificate.round, certificate.origin),
                    ),
                    certificate.round,
                ),
            ),
        }),
{
}

/// A certificate that comes a second time is stored and delivered a second
/// time, just as the first time, and leaves the state as it was.
pub proof fn lemma_certificate_again(s: CoreState, certificate: Certificate)
    ensures
        s.process_certificate(certificate).state == s,
        s.process_certificate(certificate).result is Ok,
        s.process_certificate(certificate).state.process_certificate(certificate)
            == s.process_certificate(certificate),
{
}

/// Processing a vote keeps the pending headers distinct, and the header
/// whose certificate is made is pending no longer.
pub proof fn lemma_vote_keeps_pending_distinct(s: CoreState, vote: Vote)
    requires
        distinct_pending(s.pending),
    ensures
        distinct_pending(s.process_vote(vote).state.pending),
        s.process_vote(vote).actions.len() > 0 ==> position(
            s.process_vote(vote).state.pending,
            vote.id,
        ) is None,
{
    lemma_position_from(s.pending, vote.id, 0);
    match position(s.pending, vote.id) {
        None => {},
        Some(at) => {
            let after = s.process_vote(vote).state.pending;
            if s.process_vote(vote).actions.len() > 0 {
                assert(after == s.pending.remove(at));
                assert forall|i: int| 0 <= i < after.len() implies after[i].header.id
                    != vote.id by {
                    if i < at {
                        assert(after[i] == s.pending[i]);
                    } else {
                        assert(after[i] == s.pending[i + 1]);
                    }
                }
                lemma_position_from(after, vote.id, 0);
            }
        },
    }
}

/// Processing a header keeps the pending headers distinct.
pub proof fn lemma_header_keeps_pending_distinct(s: CoreState, header: HeaderView)
    requires
        distinct_pending(s.pending),
    ensures
        distinct_pending(s.process_header(header).state.pending),
{
    let voted = CoreState { last_voted: s.last_voted.push((header.round, header.author)), ..s };
    lemma_vote_keeps_pending_distinct(voted, Vote::signed(header, s.name, s.secret));
}

/// No event makes two pending headers of one identifier.
pub proof fn lemma_step_keeps_pending_distinct(s: CoreState, event: EventView)
    requires
        distinct_pending(s.pending),
    ensures
        distinct_pending(step(s, event).state.pending),
{
    match event {
        EventView::Message(MessageView::Header(header)) => {
            lemma_header_keeps_pending_distinct(s, header);
        },
        EventView::Message(MessageView::Vote(vote)) => {
            lemma_vote_keeps_pending_distinct(s, vote);
        },
        EventView::Message(MessageView::Certificate(_)) => {},
        EventView::Message(MessageView::VerifiedCertificate(_)) => {},
        EventView::HeaderLoopback(header) => {
            lemma_header_keeps_pending_distinct(s, header);
        },
        EventView::CertificateLoopback(_) => {},
        EventView::OwnHeader(header) => {
            lemma_position_from(s.pending, header.id, 0);
            assert(distinct_pending(s.registered(header).pending));
            lemma_header_keeps_pending_distinct(s.registered(header), header);
        },
    }
}

/// The pending headers of a list as mathematical values.
pub open spec fn pending_views(entries: Seq<(Header, VotesAggregator)>) -> Seq<Pending> {
    entries.map_values(
        |entry: (Header, VotesAggregator)| Pending { header: entry.0@, aggregator: entry.1@ },
    )
}

/// Adds `action` to what is to be done.
fn emit(actions: &mut Vec<CoreAction>, action: CoreAction)
    ensures
        action_views(final(actions)@) == action_views(old(actions)@).push(action@),
{
    actions.push(action);
    assert(action_views(actions@) =~= action_views(old(actions)@).push(action@));
}

/// Takes the entry at `at` out of the list.
fn take_entry(entries: &mut Vec<(Header, VotesAggregator)>, at: usize) -> (r: (
    Header,
    VotesAggregator,
))
    requires
        at < old(entries).len(),
    ensures
        final(entries).len() == old(entries).len() - 1,
        pending_views(final(entries)@) == pending_views(old(entries)@).remove(at as int),
        pending_views(old(entries)@)[at as int] == (Pending { header: r.0@, aggregator: r.1@ }),
{
    let entry = entries.remove(at);
    assert(pending_views(entries@) =~= pending_views(old(entries)@).remove(at as int));
    entry
}

/// Puts an entry into the list at `at`.
fn put_entry(
    entries: &mut Vec<(Header, VotesAggregator)>,
    at: usize,
    header: Header,
    aggregator: VotesAggregator,
)
    requires
        at <= old(entries).len(),
    ensures
        pending_views(final(entries)@) == pending_views(old(entries)@).insert(
            at as int,
            Pending { header: header@, aggregator: aggregator@ },
        ),
{
    entries.insert(at, (header, aggregator));
    assert(pending_views(entries@) =~= pending_views(old(entries)@).insert(
        at as int,
        Pending { header: header@, aggregator: aggregator@ },
    ));
}

/// The state machine of one primary.
pub struct Core {
    name: PublicKey,
    committee: Committee,
    secret: SecretShare,
    gc_depth: Round,
    gc_round: Round,
    last_voted: Vec<(Round, PublicKey)>,
    pending: Vec<(Header, VotesAggregator)>,
}

impl View for Core {
    type V = CoreState;

    closed spec fn view(&self) -> CoreState {
        CoreState {
            name: self.name,
            committee: self.committee,
            secret: self.secret@,
            gc_depth: self.gc_depth,
            gc_round: self.gc_round,
            last_voted: self.last_voted@,
            pending: pending_views(self.pending@),
        }
    }
}

impl Core {
    /// The state machine of the primary `name` at its start: nothing is
    /// pending and no round has been garbage collected.
    pub fn new(name: PublicKey, committee: Committee, secret: SecretShare, gc_depth: Round) -> (r:
        Core)
        ensures
            r@ == (CoreState {
                name,
                committee,
                secret: secret@,
                gc_depth,
                gc_round: 0,
                last_voted: Seq::empty(),
                pending: Seq::empty(),
            }),
    {
        let core = Core {
            name,
            committee,
            secret,
            gc_depth,
            gc_round: 0,
            last_voted: Vec::new(),
            pending: Vec::new(),
        };
        assert(core@.pending =~= Seq::empty());
        core
    }

    /// The oldest round that is still processed.
    pub fn gc_round(&self) -> (r: Round)
        ensures
            r == self@.gc_round,
    {
        self.gc_round
    }

    /// Number of headers that wait for their votes.
    pub fn pending_headers(&self) -> (r: usize)
        ensures
            r == self@.pending.len(),
    {
        self.pending.len()
    }

    /// Number of votes that are on record.
    pub fn recorded_votes(&self) -> (r: usize)
        ensures
            r == self@.last_voted.len(),
    {
        self.last_voted.len()
    }

    /// The place of the pending header `id`.
    fn find(&self, id: &Digest) -> (r: Option<usize>)
        ensures
            match r {
                Some(at) => position(self@.pending, *id) == Some(at as int) && at
                    < self.pending.len(),
                None => position(self@.pending, *id) is None,
            },
    {
        let mut i: usize = 0;
        while i < self.pending.len()
            invariant
                i <= self.pending.len(),
                position(self@.pending, *id) == position_from(self@.pending, *id, i as int),
            decreases self.pending.len() - i,
        {
            if self.pending[i].0.id == *id {
                return Some(i);
            }
            i += 1;
        }
        None
    }

    /// Writes a certificate to the store and hands it to the consensus
    /// layer.
    pub fn process_certificate(
        &mut self,
        certificate: Certificate,
        actions: &mut Vec<CoreAction>,
    ) -> (r: DagResult<()>)
        ensures
            final(self)@ == old(self)@.process_certificate(certificate).state,
            action_views(final(actions)@) == action_views(old(actions)@) + old(
                self,
            )@.process_certificate(certificate).actions,
            r == old(self)@.process_certificate(certificate).result,
    {
        emit(actions, CoreAction::StoreCertificate(certificate));
        emit(actions, CoreAction::Deliver(certificate));
        Ok(())
    }

    /// Settles the answer `answer` that the aggregator of the pending header
    /// at `at` has given to a vote, which has left the aggregator as
    /// `aggregator`.
    pub fn settle_vote(
        &mut self,
        at: usize,
        aggregator: VotesAggregator,
        answer: DagResult<Option<Certificate>>,
        actions: &mut Vec<CoreAction>,
    ) -> (r: DagResult<()>)
        ensures
            final(self)@ == old(self)@.settle_vote(at as int, aggregator@, answer).state,
            action_views(final(actions)@) == action_views(old(actions)@) + old(self)@.settle_vote(
                at as int,
                aggregator@,
                answer,
            ).actions,
            r == old(self)@.settle_vote(at as int, aggregator@, answer).result,
    {
        let ghost before = self@.pending;
        match answer {
            Err(e) => Err(e),
            Ok(None) => {
                if at < self.pending.len() {
                    let (header, _) = take_entry(&mut self.pending, at);
                    put_entry(&mut self.pending, at, header, aggregator);
                    assert(before.remove(at as int).insert(
                        at as int,
                        Pending { header: header@, aggregator: aggregator@ },
                    ) =~= before.update(
                        at as int,
                        Pending { header: header@, aggregator: aggregator@ },
                    ));
                }
                Ok(())
            },
            Ok(Some(certificate)) => {
                if at < self.pending.len() {
                    let _ = take_entry(&mut self.pending, at);
                }
                emit(
                    actions,
                    CoreAction::Broadcast {
                        to: self.committee.others(&self.name),
                        round: certificate.round,
                        message: PrimaryMessage::Certificate(certificate),
                    },
                );
                self.process_certificate(certificate, actions)
            },
        }
    }

    /// Checks a vote, hands it to the aggregator of the header it names, and
    /// settles the answer. A vote that is refused changes nothing.
    pub fn process_vote(&mut self, vote: Vote, actions: &mut Vec<CoreAction>) -> (r: DagResult<()>)
        ensures
            final(self)@ == old(self)@.process_vote(vote).state,
            action_views(final(actions)@) == action_views(old(actions)@) + old(self)@.process_vote(
                vote,
            ).actions,
            r == old(self)@.process_vote(vote).result,
    {
        match self.sanitize_vote(&vote) {
            Ok(()) => {},
            Err(e) => {
                return Err(e);
            },
        }
        let at = match self.find(&vote.id) {
            Some(at) => at,
            None => {
                return Ok(());
            },
        };
        let mut aggregator = self.pending[at].1;
        let answer = aggregator.append(vote, &self.committee, &self.pending[at].0);
        self.settle_vote(at, aggregator, answer, actions)
    }

    /// Stores a header that is admitted and notes the vote `vote` of this
    /// primary for it; processes the vote if the header is its own, and
    /// sends it to the author of the header if not.
    pub fn accept_header(&mut self, header: &Header, vote: Vote, actions: &mut Vec<CoreAction>) -> (r:
        DagResult<()>)
        ensures
            final(self)@ == old(self)@.accept_header(header@, vote).state,
            action_views(final(actions)@) == action_views(old(actions)@) + old(
                self,
            )@.accept_header(header@, vote).actions,
            r == old(self)@.accept_header(header@, vote).result,
    {
        emit(actions, CoreAction::StoreHeader(header.clone()));
        self.last_voted.push((header.round, header.author));
        if vote.origin == self.name {
            self.process_vote(vote, actions)
        } else {
            emit(
                actions,
                CoreAction::Send {
                    to: header.author,
                    round: header.round,
                    message: PrimaryMessage::Vote(vote),
                },
            );
            Ok(())
        }
    }

    /// Checks a header, stores it and votes for it. A header that is refused
    /// changes nothing and is not stored.
    pub fn process_header(&mut self, header: &Header, actions: &mut Vec<CoreAction>) -> (r:
        DagResult<()>)
        ensures
            final(self)@ == old(self)@.process_header(header@).state,
            action_views(final(actions)@) == action_views(old(actions)@) + old(
                self,
            )@.process_header(header@).actions,
            r == old(self)@.process_header(header@).result,
    {
        match self.sanitize_header(header) {
            Ok(()) => {},
            Err(e) => {
                return Err(e);
            },
        }
        let vote = Vote::new(header, &self.name, &self.secret);
        self.accept_header(header, vote, actions)
    }

    /// Registers a header of this primary, broadcasts it and processes it.
    pub fn process_own_header(&mut self, header: Header, actions: &mut Vec<CoreAction>) -> (r:
        DagResult<()>)
        ensures
            final(self)@ == old(self)@.process_own_header(header@).state,
            action_views(final(actions)@) == action_views(old(actions)@) + old(
                self,
            )@.process_own_header(header@).actions,
            r == old(self)@.process_own_header(header@).result,
    {
        if self.find(&header.id).is_none() {
            let ghost before = self.pending@;
            self.pending.push((header.clone(), VotesAggregator::new()));
            assert(pending_views(self.pending@) =~= pending_views(before).push(
                Pending { header: header@, aggregator: crate::aggregators::initial() },
            ));
        }
        emit(
            actions,
            CoreAction::Broadcast {
                to: self.committee.others(&self.name),
                round: header.round,
                message: PrimaryMessage::Header(header.clone()),
            },
        );
        self.process_header(&header, actions)
    }

    /// Tells whether a header is admitted.
    pub fn sanitize_header(&self, header: &Header) -> (r: DagResult<()>)
        ensures
            r == self@.sanitize_header(header@),
    {
        if header.round < self.gc_round {
            return Err(DagError::HeaderTooOld(header.id, header.round));
        }
        header.verify(&self.committee)
    }

    /// Tells whether a vote is admitted.
    pub fn sanitize_vote(&self, vote: &Vote) -> (r: DagResult<()>)
        ensures
            r == self@.sanitize_vote(*vote),
    {
        if vote.round < self.gc_round {
            return Err(DagError::VoteTooOld(vote.id, vote.round));
        }
        match self.find(&vote.id) {
            None => Ok(()),
            Some(at) => {
                if vote.origin == self.pending[at].0.author && vote.round
                    == self.pending[at].0.round {
                    Ok(())
                } else {
                    Err(DagError::UnexpectedVote(vote.id))
                }
            },
        }
    }

    /// Tells whether a certificate is admitted.
    pub fn sanitize_certificate(&self, certificate: &Certificate) -> (r: DagResult<()>)
        ensures
            r == self@.sanitize_certificate(*certificate),
    {
        if certificate.round < self.gc_round {
            let digest = certificate.digest();
            proof {
                digest.lemma_of_bytes();
            }
            return Err(DagError::CertificateTooOld(digest, certificate.round));
        }
        Ok(())
    }

    /// Handles one event: tells what is to be done, in order, and whether
    /// the event was processed.
    pub fn handle(&mut self, event: CoreEvent) -> (r: Outcome)
        ensures
            final(self)@ == step(old(self)@, event@).state,
            action_views(r.actions@) == step(old(self)@, event@).actions,
            r.result == step(old(self)@, event@).result,
    {
        let mut actions: Vec<CoreAction> = Vec::new();
        assert(action_views(actions@) =~= Seq::empty());
        let result = match event {
            CoreEvent::Message(PrimaryMessage::Header(header)) => {
                self.process_header(&header, &mut actions)
            },
            CoreEvent::Message(PrimaryMessage::Vote(vote)) => {
                self.process_vote(vote, &mut actions)
            },
            CoreEvent::Message(PrimaryMessage::Certificate(certificate)) => {
                match self.sanitize_certificate(&certificate) {
                    Ok(()) => {
                        emit(&mut actions, CoreAction::Verify(certificate));
                        Ok(())
                    },
                    Err(e) => Err(e),
                }
            },
            CoreEvent::Message(PrimaryMessage::VerifiedCertificate(certificate)) => {
                self.process_certificate(certificate, &mut actions)
            },
            CoreEvent::HeaderLoopback(header) => self.process_header(&header, &mut actions),
            CoreEvent::CertificateLoopback(certificate) => {
                self.process_certificate(certificate, &mut actions)
            },
            CoreEvent::OwnHeader(header) => self.process_own_header(header, &mut actions),
        };
        Outcome { actions, result }
    }

    /// One turn of the dispatch loop: handles the event, then collects
    /// garbage at the consensus round `consensus_round`.
    pub fn run(&mut self, event: CoreEvent, consensus_round: Round) -> (r: Outcome)
        ensures
            final(self)@ == step(old(self)@, event@).state.cleanup(consensus_round),
            action_views(r.actions@) == step(old(self)@, event@).actions,
            r.result == step(old(self)@, event@).result,
    {
        let outcome = self.handle(event);
        self.cleanup(consensus_round);
        outcome
    }

    /// Collects garbage: with the consensus round past the depth, the floor
    /// moves to the round that lies the depth behind it, and what was noted
    /// of earlier rounds is dropped.
    pub fn cleanup(&mut self, consensus_round: Round)
        ensures
            final(self)@ == old(self)@.cleanup(consensus_round),
    {
        if consensus_round > self.gc_depth {
            let floor: Round = consensus_round - self.gc_depth;
            let ghost keep = |entry: (Round, PublicKey)| entry.0 >= floor;
            let mut kept: Vec<(Round, PublicKey)> = Vec::new();
            let mut i: usize = 0;
            assert(self.last_voted@.take(0) =~= Seq::empty());
            assert(Seq::<(Round, PublicKey)>::empty().filter(keep) =~= Seq::empty()) by {
                reveal(Seq::filter);
            }
            while i < self.last_voted.len()
                invariant
                    i <= self.last_voted.len(),
                    keep == |entry: (Round, PublicKey)| entry.0 >= floor,
                    kept@ == self.last_voted@.take(i as int).filter(keep),
                decreases self.last_voted.len() - i,
            {
                let entry = self.last_voted[i];
                proof {
                    self.last_voted@.take(i as int).lemma_filter_push(entry, keep);
                    assert(self.last_voted@.take(i + 1) =~= self.last_voted@.take(i as int).push(
                        entry,
                    ));
                }
                if entry.0 >= floor {
                    kept.push(entry);
                }
                i += 1;
            }
            assert(self.last_voted@.take(i as int) =~= self.last_voted@);
            self.last_voted = kept;
            self.gc_round = floor;
        }
    }
}

} // verus!
