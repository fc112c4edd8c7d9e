//! Identifiers shared by every component: rounds, stake, digests and
//! authority names, with the byte-level comparisons the rest is built on.
use vstd::prelude::*;

verus! {

/// A layer of the graph of headers.
pub type Round = u64;

/// Voting power of an authority.
pub type Stake = u32;

/// Index of a worker of an authority.
pub type WorkerId = u32;

/// Content hash that identifies a header, a certificate or a batch.
#[derive(Clone, Copy, Debug, Hash)]
pub struct Digest {
    pub bytes: [u8; 32],
}

/// Identity of an authority.
#[derive(Clone, Copy, Debug, Hash)]
pub struct PublicKey {
    pub bytes: [u8; 32],
}

/// Whether two byte strings of the same width hold the same bytes.
pub fn bytes_equal<const N: usize>(a: &[u8; N], b: &[u8; N]) -> (r: bool)
    ensures
        r == (*a == *b),
{
    let mut i: usize = 0;
    while i < N
        invariant
            i <= N,
            forall|j: int| 0 <= j < i ==> a[j] == b[j],
        decreases N - i,
    {
        if a[i] != b[i] {
            return false;
        }
        i += 1;
    }
    assert(*a =~= *b);
    true
}

impl Digest {
    /// The digest that has the bytes `bytes`.
    pub open spec fn of_bytes(bytes: Seq<u8>) -> Digest {
        choose|digest: Digest| digest.bytes@ == bytes
    }

    /// A digest is determined by its bytes.
    pub proof fn lemma_of_bytes(self)
        ensures
            Digest::of_bytes(self.bytes@) == self,
    {
        let other = Digest::of_bytes(self.bytes@);
        assert(other.bytes@ == self.bytes@);
        assert(other.bytes =~= self.bytes);
    }

    /// The bytes of the digest: the key under which what it identifies is
    /// stored.
    pub fn to_vec(&self) -> (r: Vec<u8>)
        ensures
            r@ == self.bytes@,
    {
        let mut out: Vec<u8> = Vec::new();
        let mut i: usize = 0;
        while i < 32
            invariant
                i <= 32,
                self.bytes@.len() == 32,
                out@ == self.bytes@.take(i as int),
            decreases 32 - i,
        {
            out.push(self.bytes[i]);
            assert(self.bytes@.take(i + 1) == self.bytes@.take(i as int).push(self.bytes@[i as int]));
            i += 1;
        }
        assert(self.bytes@.take(32) == self.bytes@);
        out
    }
}

impl PartialEq for Digest {
    fn eq(&self, other: &Digest) -> (r: bool) {
        bytes_equal(&self.bytes, &other.bytes)
    }
}

impl Eq for Digest {

}

impl vstd::std_specs::cmp::PartialEqSpecImpl for Digest {
    open spec fn obeys_eq_spec() -> bool {
        true
    }

    open spec fn eq_spec(&self, other: &Digest) -> bool {
        *self == *other
    }
}

impl PartialEq for PublicKey {
    fn eq(&self, other: &PublicKey) -> (r: bool) {
        bytes_equal(&self.bytes, &other.bytes)
    }
}

impl Eq for PublicKey {

}

impl vstd::std_specs::cmp::PartialEqSpecImpl for PublicKey {
    open spec fn obeys_eq_spec() -> bool {
        true
    }

    open spec fn eq_spec(&self, other: &PublicKey) -> bool {
        *self == *other
    }
}

/// Public key share of an authority, as a compressed curve point.
#[derive(Clone, Copy, Debug, Hash)]
pub struct KeyShare {
    pub bytes: [u8; 48],
}

/// Signature share, or a sum of shares, as a compressed curve point.
#[derive(Clone, Copy, Debug, Hash)]
pub struct SignatureShare {
    pub bytes: [u8; 96],
}

impl KeyShare {
    /// The key share that has the bytes `bytes`.
    pub open spec fn of_bytes(bytes: Seq<u8>) -> KeyShare {
        choose|share: KeyShare| share.bytes@ == bytes
    }

    /// A key share is determined by its bytes.
    pub proof fn lemma_of_bytes(self)
        ensures
            KeyShare::of_bytes(self.bytes@) == self,
    {
        let other = KeyShare::of_bytes(self.bytes@);
        assert(other.bytes@ == self.bytes@);
        assert(other.bytes =~= self.bytes);
    }
}

impl PartialEq for KeyShare {
    fn eq(&self, other: &KeyShare) -> (r: bool) {
        bytes_equal(&self.bytes, &other.bytes)
    }
}

impl Eq for KeyShare {

}

impl vstd::std_specs::cmp::PartialEqSpecImpl for KeyShare {
    open spec fn obeys_eq_spec() -> bool {
        true
    }

    open spec fn eq_spec(&self, other: &KeyShare) -> bool {
        *self == *other
    }
}

impl SignatureShare {
    /// The share that has the bytes `bytes`.
    pub open spec fn of_bytes(bytes: Seq<u8>) -> SignatureShare {
        choose|share: SignatureShare| share.bytes@ == bytes
    }

    /// A share is determined by its bytes.
    pub proof fn lemma_of_bytes(self)
        ensures
            SignatureShare::of_bytes(self.bytes@) == self,
    {
        let other = SignatureShare::of_bytes(self.bytes@);
        assert(other.bytes@ == self.bytes@);
        assert(other.bytes =~= self.bytes);
    }
}

impl PartialEq for SignatureShare {
    fn eq(&self, other: &SignatureShare) -> (r: bool) {
        bytes_equal(&self.bytes, &other.bytes)
    }
}

impl Eq for SignatureShare {

}

impl vstd::std_specs::cmp::PartialEqSpecImpl for SignatureShare {
    open spec fn obeys_eq_spec() -> bool {
        true
    }

    open spec fn eq_spec(&self, other: &SignatureShare) -> bool {
        *self == *other
    }
}

impl Default for SignatureShare {
    /// The share that an aggregator holds before the first vote: all zero.
    fn default() -> (r: SignatureShare)
        ensures
            r.bytes@ == Seq::new(96, |i: int| 0u8),
    {
        SignatureShare { bytes: [0u8; 96] }
    }
}

} // verus!
