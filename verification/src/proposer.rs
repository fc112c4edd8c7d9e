//! Decides when this primary makes its next header: as soon as enough
//! batches have come in, or when the timer runs out on a payload that is not
//! empty.
use crate::crypto::SecretShare;
use crate::messages::{Header, HeaderView};
use crate::types::{Digest, PublicKey, Round, WorkerId};
use vstd::prelude::*;

verus! {

/// Number of bytes that one payload entry takes when serialized: the digest
/// and the worker.
pub const ENTRY_SIZE: usize = 36;

/// Calls `bcs::serialized_size` on a payload entry, written as the array of
/// the digest's bytes and the worker. The format writes an array of fixed
/// length byte by byte and a `u32` in four bytes, so that the size is 36 for
/// every entry, and serializing such a value cannot fail.
#[verifier::external_body]
fn serialized_len(entry: &(Digest, WorkerId)) -> (r: Option<usize>)
    ensures
        r == Some(ENTRY_SIZE),
{
    bcs::serialized_size(&(entry.0.bytes, entry.1)).ok()
}

/// Makes the headers of one primary.
pub struct Proposer {
    name: PublicKey,
    secret: SecretShare,
    header_size: usize,
    max_header_delay: u64,
    round: Round,
    digests: Vec<(Digest, WorkerId)>,
    payload_size: usize,
}

/// A proposer as a mathematical value.
#[verifier::ext_equal]
pub struct ProposerState {
    /// This primary.
    pub name: PublicKey,
    /// The secret share with which it signs its headers.
    pub secret: Seq<u8>,
    /// The payload size, in bytes, from which a header is made at once.
    pub header_size: usize,
    /// The longest time, in milliseconds, between two headers.
    pub max_header_delay: u64,
    /// The current round.
    pub round: Round,
    /// The payload entries that wait for the next header.
    pub digests: Seq<(Digest, WorkerId)>,
    /// Serialized size, in bytes, of what came in since the last header.
    pub payload_size: nat,
}

impl ProposerState {
    /// Whether a header is due: the payload has reached the size of a
    /// header, or the timer has run out and there is any payload at all.
    pub open spec fn due(self, timer_expired: bool) -> bool {
        (timer_expired && self.payload_size > 0) || self.payload_size >= self.header_size
    }

    /// The header that is made of what waits.
    pub open spec fn header(self) -> HeaderView {
        Header::made(self.name, self.round, self.digests, Seq::empty(), self.secret)
    }

    /// The proposer after a header was made: nothing waits.
    pub open spec fn emptied(self) -> ProposerState {
        ProposerState { digests: Seq::empty(), payload_size: 0, ..self }
    }
}

impl View for Proposer {
    type V = ProposerState;

    closed spec fn view(&self) -> ProposerState {
        ProposerState {
            name: self.name,
            secret: self.secret@,
            header_size: self.header_size,
            max_header_delay: self.max_header_delay,
            round: self.round,
            digests: self.digests@,
            payload_size: self.payload_size as nat,
        }
    }
}

impl Proposer {
    /// The proposer of the primary `name` at its start: round one, nothing
    /// waits.
    pub fn new(name: PublicKey, secret: SecretShare, header_size: usize, max_header_delay: u64) -> (r:
        Proposer)
        ensures
            r@ == (ProposerState {
                name,
                secret: secret@,
                header_size,
                max_header_delay,
                round: 1,
                digests: Seq::empty(),
                payload_size: 0,
            }),
    {
        Proposer {
            name,
            secret,
            header_size,
            max_header_delay,
            round: 1,
            digests: Vec::new(),
            payload_size: 0,
        }
    }

    /// The current round.
    pub fn round(&self) -> (r: Round)
        ensures
            r == self@.round,
    {
        self.round
    }

    /// The longest time, in milliseconds, between two headers: the delay to
    /// which the timer is set again after each header.
    pub fn max_header_delay(&self) -> (r: u64)
        ensures
            r == self@.max_header_delay,
    {
        self.max_header_delay
    }

    /// Serialized size, in bytes, of what came in since the last header.
    pub fn payload_size(&self) -> (r: usize)
        ensures
            r == self@.payload_size,
    {
        self.payload_size
    }

    /// Moves on to `round`, unless the proposer is there or further already.
    pub fn advance(&mut self, round: Round)
        ensures
            final(self)@ == (ProposerState {
                round: if round > old(self)@.round {
                    round
                } else {
                    old(self)@.round
                },
                ..old(self)@
            }),
    {
        if round > self.round {
            self.round = round;
        }
    }

    /// Whether all of `digests` can be taken: whether the payload size stays
    /// a number that the machine can hold.
    pub fn has_room(&self, digests: &Vec<(Digest, WorkerId)>) -> (r: bool)
        ensures
            r == (self@.payload_size + ENTRY_SIZE * digests.len() <= usize::MAX),
    {
        let room: usize = usize::MAX - self.payload_size;
        digests.len() <= room / ENTRY_SIZE
    }

    /// Takes the payload entries that the workers send: they wait for the
    /// next header, and their serialized size counts towards it.
    pub fn receive(&mut self, digests: Vec<(Digest, WorkerId)>)
        requires
            old(self)@.payload_size + ENTRY_SIZE * digests.len() <= usize::MAX,
        ensures
            final(self)@ == (ProposerState {
                digests: old(self)@.digests + digests@,
                payload_size: (old(self)@.payload_size + ENTRY_SIZE * digests.len()) as nat,
                ..old(self)@
            }),
    {
        let mut i: usize = 0;
        while i < digests.len()
            invariant
                i <= digests.len(),
                old(self)@.payload_size + ENTRY_SIZE * digests.len() <= usize::MAX,
                self@ == (ProposerState {
                    digests: old(self)@.digests + digests@.take(i as int),
                    payload_size: (old(self)@.payload_size + ENTRY_SIZE * i) as nat,
                    ..old(self)@
                }),
            decreases digests.len() - i,
        {
            let entry = digests[i];
            let size: usize = match serialized_len(&entry) {
                Some(size) => size,
                None => 0,
            };
            self.payload_size = self.payload_size + size;
            self.digests.push(entry);
            assert(digests@.take(i + 1) =~= digests@.take(i as int).push(entry));
            i += 1;
        }
        assert(digests@.take(digests.len() as int) =~= digests@);
    }

    /// Takes the payload entries if there is room for all of them, and tells
    /// whether it took them.
    pub fn try_receive(&mut self, digests: Vec<(Digest, WorkerId)>) -> (r: bool)
        ensures
            r == (old(self)@.payload_size + ENTRY_SIZE * digests.len() <= usize::MAX),
            r ==> final(self)@ == (ProposerState {
                digests: old(self)@.digests + digests@,
                payload_size: (old(self)@.payload_size + ENTRY_SIZE * digests.len()) as nat,
                ..old(self)@
            }),
            !r ==> final(self)@ == old(self)@,
    {
        if self.has_room(&digests) {
            self.receive(digests);
            true
        } else {
            false
        }
    }

    /// Makes the header of the current round out of everything that waits.
    pub fn make_header(&mut self) -> (r: Header)
        ensures
            r@ == old(self)@.header(),
            final(self)@ == (ProposerState { digests: Seq::empty(), ..old(self)@ }),
    {
        let mut payload: Vec<(Digest, WorkerId)> = Vec::new();
        std::mem::swap(&mut payload, &mut self.digests);
        Header::new(self.name, self.round, payload, Vec::new(), &self.secret)
    }

    /// Makes a header if one is due: always once the payload has reached the
    /// size of a header, and on an expired timer if there is any payload.
    /// After a header the payload size starts again from zero.
    pub fn poll(&mut self, timer_expired: bool) -> (r: Option<Header>)
        ensures
            r is Some <==> old(self)@.due(timer_expired),
            r matches Some(header) ==> header@ == old(self)@.header() && final(self)@ == old(
                self,
            )@.emptied(),
            r is None ==> final(self)@ == old(self)@,
    {
        let enough_digests = self.payload_size >= self.header_size;
        if (timer_expired && self.payload_size > 0) || enough_digests {
            let header = self.make_header();
            self.payload_size = 0;
            Some(header)
        } else {
            None
        }
    }
}

} // verus!
