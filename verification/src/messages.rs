//! Headers, votes and certificates: what they hold, how they are hashed and
//! signed, and when a received one is genuine.
use crate::bitmap::{has_bit, test_bit};
use crate::committee::{Committee, MAX_AUTHORITIES};
use crate::crypto::{
    add_keys, digest, digest_of, key_sum, share_check, share_signature, verify, SecretShare,
};
use crate::error::DagError;
use crate::types::{Digest, KeyShare, PublicKey, Round, SignatureShare, Stake, WorkerId};
use vstd::bytes::{spec_u32_to_le_bytes, spec_u64_to_le_bytes, u32_to_le_bytes, u64_to_le_bytes};
use vstd::prelude::*;

verus! {

/// A proposal of one authority for one round: a payload of batches and the
/// certificates of the round before that it builds on.
#[derive(Debug, PartialEq, Eq)]
pub struct Header {
    /// The authority that proposes.
    pub author: PublicKey,
    /// The round of the proposal.
    pub round: Round,
    /// The batches, each with the worker that holds it.
    pub payload: Vec<(Digest, WorkerId)>,
    /// Digests of certificates of the round before.
    pub parents: Vec<Digest>,
    /// Hash of the fields above.
    pub id: Digest,
    /// Signature of the author on `id`.
    pub signature: SignatureShare,
}

/// A header as a mathematical value.
#[verifier::ext_equal]
pub struct HeaderView {
    pub author: PublicKey,
    pub round: Round,
    pub payload: Seq<(Digest, WorkerId)>,
    pub parents: Seq<Digest>,
    pub id: Digest,
    pub signature: SignatureShare,
}

/// The verdict on what `author` has signed, once it is known whether the
/// author is a member of the committee (`known`) and whether the signature
/// holds under its key share (`valid`).
pub open spec fn signature_verdict(author: PublicKey, known: bool, valid: bool) -> Result<
    (),
    DagError,
> {
    if !known {
        Err(DagError::UnknownAuthority(author))
    } else if valid {
        Ok(())
    } else {
        Err(DagError::InvalidSignature)
    }
}

/// The verdict on a header, once it is known whether its identifier is the
/// hash of its content (`genuine`), whether its author is a member of the
/// committee, and whether the signature on the identifier holds.
pub open spec fn header_verdict(author: PublicKey, genuine: bool, known: bool, valid: bool) -> Result<
    (),
    DagError,
> {
    if !genuine {
        Err(DagError::InvalidHeaderId)
    } else {
        signature_verdict(author, known, valid)
    }
}

/// Whether the signature `signature` on `signed` holds under the key share
/// of `author`; it does not for a stranger to the committee.
pub open spec fn signed_by(
    committee: Committee,
    author: PublicKey,
    signature: SignatureShare,
    signed: Seq<u8>,
) -> bool {
    match committee.key_of(author) {
        None => false,
        Some(key) => share_check(key.bytes@, signature.bytes@, signed) == Some(true),
    }
}

impl HeaderView {
    /// Whether a header is genuine: its identifier is the hash of its
    /// content, its author is a member of the committee, and the author
    /// signed the identifier.
    pub open spec fn verdict(self, committee: Committee) -> Result<(), DagError> {
        header_verdict(
            self.author,
            self.id.bytes@ == header_id(self.author, self.round, self.payload, self.parents),
            committee.key_of(self.author) is Some,
            signed_by(committee, self.author, self.signature, self.id.bytes@),
        )
    }
}

/// Gives the verdict on what `author` has signed: a stranger to the
/// committee is unknown, and a signature that does not hold is invalid.
pub fn judge_signature(author: PublicKey, known: bool, valid: bool) -> (r: Result<(), DagError>)
    ensures
        r == signature_verdict(author, known, valid),
{
    if !known {
        Err(DagError::UnknownAuthority(author))
    } else if valid {
        Ok(())
    } else {
        Err(DagError::InvalidSignature)
    }
}

/// Gives the verdict on a header: an identifier that is not the hash of
/// the content comes before everything else.
pub fn judge_header(author: PublicKey, genuine: bool, known: bool, valid: bool) -> (r: Result<
    (),
    DagError,
>)
    ensures
        r == header_verdict(author, genuine, known, valid),
{
    if !genuine {
        Err(DagError::InvalidHeaderId)
    } else {
        judge_signature(author, known, valid)
    }
}

/// Checks the signature `signature` on `signed` against the key share that
/// `author` has in the committee, and tells whether the author has one.
fn check_signer(
    committee: &Committee,
    author: &PublicKey,
    signature: &SignatureShare,
    signed: &Vec<u8>,
) -> (r: (bool, bool))
    ensures
        r.0 == (committee.key_of(*author) is Some),
        r.1 == signed_by(*committee, *author, *signature, signed@),
{
    match committee.key_share(author) {
        None => (false, false),
        Some(key) => (true, verify(&key, signature, signed)),
    }
}

impl View for Header {
    type V = HeaderView;

    open spec fn view(&self) -> HeaderView {
        HeaderView {
            author: self.author,
            round: self.round,
            payload: self.payload@,
            parents: self.parents@,
            id: self.id,
            signature: self.signature,
        }
    }
}

/// The promise of `author` to certify the header `id` of `origin`.
#[derive(Clone, Copy, Debug, PartialEq, Eq)]
pub struct Vote {
    /// The header voted for.
    pub id: Digest,
    /// The round of that header.
    pub round: Round,
    /// The author of that header.
    pub origin: PublicKey,
    /// The authority that votes.
    pub author: PublicKey,
    /// Signature share of the voter.
    pub signature: SignatureShare,
}

/// Proof that a quorum voted for a header: the bitmap of the signers' seats
/// and the sum of their signature shares.
#[derive(Clone, Copy, Debug, PartialEq, Eq)]
pub struct Certificate {
    /// The certified header.
    pub id: Digest,
    /// The round of that header.
    pub round: Round,
    /// The author of that header.
    pub origin: PublicKey,
    /// Signer bitmap and aggregate signature.
    pub votes: (u128, SignatureShare),
}

/// What primaries send each other, and what the verification pool hands
/// back.
#[derive(Debug, PartialEq, Eq)]
pub enum PrimaryMessage {
    Header(Header),
    Vote(Vote),
    Certificate(Certificate),
    VerifiedCertificate(Certificate),
}

/// A message as a mathematical value.
pub enum MessageView {
    Header(HeaderView),
    Vote(Vote),
    Certificate(Certificate),
    VerifiedCertificate(Certificate),
}

impl View for PrimaryMessage {
    type V = MessageView;

    open spec fn view(&self) -> MessageView {
        match self {
            PrimaryMessage::Header(header) => MessageView::Header(header@),
            PrimaryMessage::Vote(vote) => MessageView::Vote(*vote),
            PrimaryMessage::Certificate(certificate) => MessageView::Certificate(*certificate),
            PrimaryMessage::VerifiedCertificate(certificate) => MessageView::VerifiedCertificate(
                *certificate,
            ),
        }
    }
}

/// The bytes of the first `n` payload entries: each digest followed by its
/// worker in little endian.
pub open spec fn payload_bytes(payload: Seq<(Digest, WorkerId)>, n: int) -> Seq<u8>
    decreases n,
{
    if n <= 0 {
        Seq::empty()
    } else {
        payload_bytes(payload, n - 1) + payload[n - 1].0.bytes@ + spec_u32_to_le_bytes(
            payload[n - 1].1,
        )
    }
}

/// The bytes of the first `n` parents, one digest after the other.
pub open spec fn parents_bytes(parents: Seq<Digest>, n: int) -> Seq<u8>
    decreases n,
{
    if n <= 0 {
        Seq::empty()
    } else {
        parents_bytes(parents, n - 1) + parents[n - 1].bytes@
    }
}

/// What is hashed to identify a header: author, round, the number of
/// payload entries and the entries, the number of parents and the parents.
pub open spec fn header_bytes(
    author: PublicKey,
    round: Round,
    payload: Seq<(Digest, WorkerId)>,
    parents: Seq<Digest>,
) -> Seq<u8> {
    author.bytes@ + spec_u64_to_le_bytes(round) + spec_u64_to_le_bytes(payload.len() as u64)
        + payload_bytes(payload, payload.len() as int) + spec_u64_to_le_bytes(
        parents.len() as u64,
    ) + parents_bytes(parents, parents.len() as int)
}

/// The identifier that a header of this content has.
pub open spec fn header_id(
    author: PublicKey,
    round: Round,
    payload: Seq<(Digest, WorkerId)>,
    parents: Seq<Digest>,
) -> Seq<u8> {
    digest_of(header_bytes(author, round, payload, parents))
}

/// What is hashed for a vote and for a certificate: the header's identifier,
/// its round and its author.
pub open spec fn ballot_bytes(id: Digest, round: Round, origin: PublicKey) -> Seq<u8> {
    id.bytes@ + spec_u64_to_le_bytes(round) + origin.bytes@
}

/// The digest that every vote for one header signs, and that identifies the
/// certificate made of them.
pub open spec fn ballot_digest(id: Digest, round: Round, origin: PublicKey) -> Seq<u8> {
    digest_of(ballot_bytes(id, round, origin))
}

/// Appends the bytes of `bytes` to `out`.
fn append_array<const N: usize>(out: &mut Vec<u8>, bytes: &[u8; N])
    ensures
        final(out)@ == old(out)@ + bytes@,
{
    let mut i: usize = 0;
    while i < N
        invariant
            i <= N,
            bytes@.len() == N,
            out@ == old(out)@ + bytes@.take(i as int),
        decreases N - i,
    {
        out.push(bytes[i]);
        assert(bytes@.take(i + 1) == bytes@.take(i as int).push(bytes@[i as int]));
        i += 1;
    }
    assert(bytes@.take(N as int) == bytes@);
}

/// Appends the bytes of `bytes` to `out`.
fn append_vec(out: &mut Vec<u8>, bytes: &Vec<u8>)
    ensures
        final(out)@ == old(out)@ + bytes@,
{
    let mut i: usize = 0;
    while i < bytes.len()
        invariant
            i <= bytes.len(),
            out@ == old(out)@ + bytes@.take(i as int),
        decreases bytes.len() - i,
    {
        out.push(bytes[i]);
        assert(bytes@.take(i + 1) == bytes@.take(i as int).push(bytes@[i as int]));
        i += 1;
    }
    assert(bytes@.take(bytes.len() as int) == bytes@);
}

/// A copy of `items`.
pub fn copy_of<T: Copy>(items: &Vec<T>) -> (r: Vec<T>)
    ensures
        r@ == items@,
{
    let mut out: Vec<T> = Vec::new();
    let mut i: usize = 0;
    while i < items.len()
        invariant
            i <= items.len(),
            out@ == items@.take(i as int),
        decreases items.len() - i,
    {
        out.push(items[i]);
        assert(items@.take(i + 1) == items@.take(i as int).push(items@[i as int]));
        i += 1;
    }
    assert(items@.take(items.len() as int) == items@);
    out
}

/// The bytes that are hashed for a vote or a certificate.
fn encode_ballot(id: &Digest, round: Round, origin: &PublicKey) -> (r: Vec<u8>)
    ensures
        r@ == ballot_bytes(*id, round, *origin),
{
    let mut out: Vec<u8> = Vec::new();
    append_array(&mut out, &id.bytes);
    let round_bytes = u64_to_le_bytes(round);
    append_vec(&mut out, &round_bytes);
    append_array(&mut out, &origin.bytes);
    out
}

/// The bytes that are hashed for a header.
fn encode_header(
    author: &PublicKey,
    round: Round,
    payload: &Vec<(Digest, WorkerId)>,
    parents: &Vec<Digest>,
) -> (r: Vec<u8>)
    ensures
        r@ == header_bytes(*author, round, payload@, parents@),
{
    let mut out: Vec<u8> = Vec::new();
    append_array(&mut out, &author.bytes);
    let round_bytes = u64_to_le_bytes(round);
    append_vec(&mut out, &round_bytes);
    let count = u64_to_le_bytes(payload.len() as u64);
    append_vec(&mut out, &count);
    let ghost head = out@;
    let mut i: usize = 0;
    while i < payload.len()
        invariant
            i <= payload.len(),
            out@ == head + payload_bytes(payload@, i as int),
        decreases payload.len() - i,
    {
        append_array(&mut out, &payload[i].0.bytes);
        let worker = u32_to_le_bytes(payload[i].1);
        append_vec(&mut out, &worker);
        i += 1;
    }
    let count = u64_to_le_bytes(parents.len() as u64);
    append_vec(&mut out, &count);
    let ghost head = out@;
    let mut i: usize = 0;
    while i < parents.len()
        invariant
            i <= parents.len(),
            out@ == head + parents_bytes(parents@, i as int),
        decreases parents.len() - i,
    {
        append_array(&mut out, &parents[i].bytes);
        i += 1;
    }
    out
}

impl Header {
    /// The header of `author` for `round` with this content, signed with the
    /// secret share `secret`: the identifier is the hash of the content, the
    /// signature is the share on the identifier.
    pub open spec fn made(
        author: PublicKey,
        round: Round,
        payload: Seq<(Digest, WorkerId)>,
        parents: Seq<Digest>,
        secret: Seq<u8>,
    ) -> HeaderView {
        let id = header_id(author, round, payload, parents);
        HeaderView {
            author,
            round,
            payload,
            parents,
            id: Digest::of_bytes(id),
            signature: SignatureShare::of_bytes(share_signature(secret, id)),
        }
    }

    /// Builds the header of `author` for `round`: hashes the content into the
    /// identifier and signs the identifier.
    pub fn new(
        author: PublicKey,
        round: Round,
        payload: Vec<(Digest, WorkerId)>,
        parents: Vec<Digest>,
        secret: &SecretShare,
    ) -> (r: Header)
        ensures
            r@ == Header::made(author, round, payload@, parents@, secret@),
    {
        let bytes = encode_header(&author, round, &payload, &parents);
        let id = digest(&bytes);
        let signed = id.to_vec();
        let signature = secret.sign(&signed);
        proof {
            id.lemma_of_bytes();
            signature.lemma_of_bytes();
        }
        Header { author, round, payload, parents, id, signature }
    }

    /// The hash of the content of the header.
    pub fn digest(&self) -> (r: Digest)
        ensures
            r.bytes@ == header_id(self.author, self.round, self.payload@, self.parents@),
    {
        let bytes = encode_header(&self.author, self.round, &self.payload, &self.parents);
        digest(&bytes)
    }

    /// Checks that the identifier is the hash of the content, that the author
    /// is a member of the committee, and that the author signed the
    /// identifier.
    pub fn verify(&self, committee: &Committee) -> (r: Result<(), DagError>)
        ensures
            r == self@.verdict(*committee),
    {
        let id = self.digest();
        let genuine = id == self.id;
        assert(genuine == (id.bytes@ == self.id.bytes@)) by {
            if id.bytes@ == self.id.bytes@ {
                assert(id.bytes =~= self.id.bytes);
            }
        }
        let signed = self.id.to_vec();
        let (known, valid) = check_signer(committee, &self.author, &self.signature, &signed);
        judge_header(self.author, genuine, known, valid)
    }
}

impl Clone for Header {
    fn clone(&self) -> (r: Header)
        ensures
            r@ == self@,
    {
        Header {
            author: self.author,
            round: self.round,
            payload: copy_of(&self.payload),
            parents: copy_of(&self.parents),
            id: self.id,
            signature: self.signature,
        }
    }
}

impl Vote {
    /// The vote of `author` for `header`, signed with the secret share
    /// `secret`: the signature is the share on the digest of the ballot.
    pub open spec fn signed(header: HeaderView, author: PublicKey, secret: Seq<u8>) -> Vote {
        Vote {
            id: header.id,
            round: header.round,
            origin: header.author,
            author,
            signature: SignatureShare::of_bytes(
                share_signature(secret, ballot_digest(header.id, header.round, header.author)),
            ),
        }
    }

    /// The vote of `author` for `header`, signed with `secret`.
    pub fn new(header: &Header, author: &PublicKey, secret: &SecretShare) -> (r: Vote)
        ensures
            r == Vote::signed(header@, *author, secret@),
    {
        let bytes = encode_ballot(&header.id, header.round, &header.author);
        let signed = digest(&bytes).to_vec();
        let signature = secret.sign(&signed);
        proof {
            signature.lemma_of_bytes();
        }
        Vote {
            id: header.id,
            round: header.round,
            origin: header.author,
            author: *author,
            signature,
        }
    }

    /// The digest that the voter signs.
    pub fn digest(&self) -> (r: Digest)
        ensures
            r.bytes@ == ballot_digest(self.id, self.round, self.origin),
    {
        let bytes = encode_ballot(&self.id, self.round, &self.origin);
        digest(&bytes)
    }

    /// Whether a vote is genuine: the voter is a member of the committee
    /// and signed the digest of the ballot.
    pub open spec fn verdict(self, committee: Committee) -> Result<(), DagError> {
        signature_verdict(
            self.author,
            committee.key_of(self.author) is Some,
            signed_by(
                committee,
                self.author,
                self.signature,
                ballot_digest(self.id, self.round, self.origin),
            ),
        )
    }

    /// Checks that the voter is a member of the committee and signed the
    /// vote.
    pub fn verify(&self, committee: &Committee) -> (r: Result<(), DagError>)
        ensures
            r == self.verdict(*committee),
    {
        let signed = self.digest().to_vec();
        let (known, valid) = check_signer(committee, &self.author, &self.signature, &signed);
        judge_signature(self.author, known, valid)
    }
}

/// Whether `bitmap` has a bit for a seat that a committee of `size`
/// authorities does not have.
pub open spec fn has_stray_bit(bitmap: u128, size: nat) -> bool {
    exists|seat: nat| size <= seat && #[trigger] has_bit(bitmap, seat)
}

/// The stake of the signers among the first `n` seats.
pub open spec fn signers_stake(committee: Committee, bitmap: u128, n: nat) -> nat
    decreases n,
{
    if n == 0 {
        0
    } else {
        signers_stake(committee, bitmap, (n - 1) as nat) + if has_bit(bitmap, (n - 1) as nat) {
            committee.seats()[n - 1].stake as nat
        } else {
            0nat
        }
    }
}

/// The sum of the key shares of some signers.
#[derive(Clone, Copy, Debug, PartialEq, Eq)]
pub enum KeySum {
    /// There was no signer.
    Empty,
    /// The sum.
    Key(KeyShare),
    /// The key shares could not be added.
    Failed,
}

/// The sum of the key shares of the signers among the first `n` seats, added
/// in the order of the seats.
pub open spec fn signers_key(committee: Committee, bitmap: u128, n: nat) -> KeySum
    decreases n,
{
    if n == 0 {
        KeySum::Empty
    } else {
        let before = signers_key(committee, bitmap, (n - 1) as nat);
        let key = committee.seats()[n - 1].key_share;
        if !has_bit(bitmap, (n - 1) as nat) {
            before
        } else {
            match before {
                KeySum::Empty => KeySum::Key(key),
                KeySum::Failed => KeySum::Failed,
                KeySum::Key(sum) => match key_sum(sum.bytes@, key.bytes@) {
                    Some(bytes) => KeySum::Key(KeyShare::of_bytes(bytes)),
                    None => KeySum::Failed,
                },
            }
        }
    }
}

/// The verdict on a certificate, once it is known whether its bitmap names
/// a seat that the committee does not have (`stray`), what stake its
/// signers hold, whether their key shares add up to a key (`keyed`), and
/// whether the aggregate signature holds under that key (`valid`).
pub open spec fn certificate_verdict(
    stray: bool,
    stake: nat,
    threshold: Stake,
    keyed: bool,
    valid: bool,
) -> Result<(), DagError> {
    if stray {
        Err(DagError::InvalidSignature)
    } else if stake < threshold {
        Err(DagError::CertificateRequiresQuorum)
    } else if keyed && valid {
        Ok(())
    } else {
        Err(DagError::InvalidSignature)
    }
}

/// Gives the verdict on a certificate: a signer without a seat makes it
/// invalid, then too little stake makes it lack the quorum, then a
/// signature that does not hold under the sum of the signers' key shares
/// makes it invalid.
pub fn judge_certificate(stray: bool, stake: u64, threshold: Stake, keyed: bool, valid: bool) -> (r:
    Result<(), DagError>)
    ensures
        r == certificate_verdict(stray, stake as nat, threshold, keyed, valid),
{
    if stray {
        Err(DagError::InvalidSignature)
    } else if stake < threshold as u64 {
        Err(DagError::CertificateRequiresQuorum)
    } else if keyed && valid {
        Ok(())
    } else {
        Err(DagError::InvalidSignature)
    }
}

/// Tells whether `bitmap` has a bit for a seat from `size` on.
pub fn stray_bit(bitmap: u128, size: usize) -> (r: bool)
    ensures
        r == has_stray_bit(bitmap, size as nat),
{
    let mut seat: usize = size;
    while seat < MAX_AUTHORITIES
        invariant
            size <= seat,
            forall|s: nat| size <= s < seat ==> !has_bit(bitmap, s),
        decreases MAX_AUTHORITIES - seat,
    {
        if test_bit(bitmap, seat) {
            return true;
        }
        seat += 1;
    }
    false
}

/// The stake of the signers that `bitmap` names and the sum of their key
/// shares, adding in the order of the seats.
pub fn signers_of(committee: &Committee, bitmap: u128) -> (r: (u64, KeySum))
    ensures
        r.0 == signers_stake(*committee, bitmap, committee.seats().len()),
        r.1 == signers_key(*committee, bitmap, committee.seats().len()),
{
    let size = committee.size();
    let mut weight: u64 = 0;
    let mut sum = KeySum::Empty;
    let mut seat: usize = 0;
    while seat < size
        invariant
            seat <= size <= MAX_AUTHORITIES,
            size == committee.seats().len(),
            weight == signers_stake(*committee, bitmap, seat as nat),
            weight <= seat * 0xffff_ffff,
            sum == signers_key(*committee, bitmap, seat as nat),
        decreases size - seat,
    {
        if test_bit(bitmap, seat) {
            match committee.authority(seat) {
                None => {},
                Some(member) => {
                    weight = weight + member.stake as u64;
                    sum = match sum {
                        KeySum::Empty => KeySum::Key(member.key_share),
                        KeySum::Failed => KeySum::Failed,
                        KeySum::Key(key) => match add_keys(&key, &member.key_share) {
                            Some(added) => {
                                proof {
                                    added.lemma_of_bytes();
                                }
                                KeySum::Key(added)
                            },
                            None => KeySum::Failed,
                        },
                    };
                },
            }
        }
        seat += 1;
    }
    (weight, sum)
}

impl Certificate {
    /// The digest of the certificate: the key under which it is stored.
    pub fn digest(&self) -> (r: Digest)
        ensures
            r.bytes@ == ballot_digest(self.id, self.round, self.origin),
    {
        let bytes = encode_ballot(&self.id, self.round, &self.origin);
        digest(&bytes)
    }

    /// Whether a certificate is genuine: every signer has a seat in the
    /// committee, the signers hold the stake of a quorum, and the aggregate
    /// signature is a signature of the certificate's digest under the sum
    /// of the signers' key shares.
    pub open spec fn verdict(self, committee: Committee) -> Result<(), DagError> {
        let size = committee.seats().len();
        let key = signers_key(committee, self.votes.0, size);
        certificate_verdict(
            has_stray_bit(self.votes.0, size),
            signers_stake(committee, self.votes.0, size),
            committee.threshold(),
            key is Key,
            key is Key && share_check(
                key->Key_0.bytes@,
                self.votes.1.bytes@,
                ballot_digest(self.id, self.round, self.origin),
            ) == Some(true),
        )
    }

    /// Checks a certificate. The signature is checked only where the
    /// signers have seats and hold the stake of a quorum.
    pub fn verify(&self, committee: &Committee) -> (r: Result<(), DagError>)
        ensures
            r == self.verdict(*committee),
    {
        let threshold = committee.validity_threshold();
        if stray_bit(self.votes.0, committee.size()) {
            return judge_certificate(true, 0, threshold, false, false);
        }
        let (stake, sum) = signers_of(committee, self.votes.0);
        if stake < threshold as u64 {
            return judge_certificate(false, stake, threshold, false, false);
        }
        match sum {
            KeySum::Key(key) => {
                let signed = self.digest().to_vec();
                let valid = verify(&key, &self.votes.1, &signed);
                judge_certificate(false, stake, threshold, true, valid)
            },
            _ => judge_certificate(false, stake, threshold, false, false),
        }
    }
}

} // verus!
