//! Hashing and threshold signatures, over plain byte strings. Everything in
//! this file that touches a curve or a hash is taken on trust from the crates
//! that compute it; each result is named so that contracts can speak of it.
use crate::types::{Digest, KeyShare, SignatureShare};
use sha2::Digest as _;
use vstd::prelude::*;

verus! {

/// The SHA-256 hash of `data`.
pub uninterp spec fn digest_of(data: Seq<u8>) -> Seq<u8>;

/// Whether `secret` encodes a scalar of the signature scheme.
pub uninterp spec fn valid_secret(secret: Seq<u8>) -> bool;

/// The signature share that the secret share `secret` gives on `msg`.
pub uninterp spec fn share_signature(secret: Seq<u8>, msg: Seq<u8>) -> Seq<u8>;

/// Outcome of checking the signature `sig` on `msg` against the public key
/// `key`; `None` when `key` or `sig` does not encode a curve point.
pub uninterp spec fn share_check(key: Seq<u8>, sig: Seq<u8>, msg: Seq<u8>) -> Option<bool>;

/// Sum of two signatures as curve points; `None` when one of them does not
/// encode a point.
pub uninterp spec fn signature_sum(a: Seq<u8>, b: Seq<u8>) -> Option<Seq<u8>>;

/// Sum of two public keys as curve points; `None` when one of them does not
/// encode a point.
pub uninterp spec fn key_sum(a: Seq<u8>, b: Seq<u8>) -> Option<Seq<u8>>;

/// Calls `sha2::Sha256::digest`. The hash is a function of the input bytes
/// alone.
#[verifier::external_body]
pub(crate) fn sha256(data: &Vec<u8>) -> (r: Digest)
    ensures
        r.bytes@ == digest_of(data@),
{
    Digest { bytes: sha2::Sha256::digest(data).into() }
}

/// Calls `blsttc::SecretKeyShare::from_bytes` and tells whether it accepted
/// the bytes, which depends on the bytes alone.
#[verifier::external_body]
pub(crate) fn secret_is_valid(secret: &[u8; 32]) -> (r: bool)
    ensures
        r == valid_secret(secret@),
{
    blsttc::SecretKeyShare::from_bytes(*secret).is_ok()
}

/// Decodes the secret with `blsttc::SecretKeyShare::from_bytes` and calls
/// `blsttc::SecretKeyShare::sign`, which is deterministic: the share is a
/// function of the secret and the message alone. Decoding cannot fail on a
/// secret that `from_bytes` accepted before.
#[verifier::external_body]
pub(crate) fn sign_with(secret: &[u8; 32], msg: &Vec<u8>) -> (r: SignatureShare)
    requires
        valid_secret(secret@),
    ensures
        r.bytes@ == share_signature(secret@, msg@),
{
    let key = blsttc::SecretKeyShare::from_bytes(*secret).expect("valid secret share");
    SignatureShare { bytes: key.sign(msg).to_bytes() }
}

/// Decodes both byte strings with `blsttc::PublicKeyShare::from_bytes` and
/// `blsttc::SignatureShare::from_bytes` and calls
/// `blsttc::PublicKeyShare::verify`. The outcome is a function of the three
/// byte strings alone.
#[verifier::external_body]
pub(crate) fn check_share(key: &KeyShare, sig: &SignatureShare, msg: &Vec<u8>) -> (r: Option<bool>)
    ensures
        r == share_check(key.bytes@, sig.bytes@, msg@),
{
    let key = blsttc::PublicKeyShare::from_bytes(key.bytes).ok()?;
    let sig = blsttc::SignatureShare::from_bytes(sig.bytes).ok()?;
    Some(key.verify(&sig, msg))
}

/// Decodes both signatures with `blsttc::G2Projective::from_compressed`, adds
/// the points and encodes the sum with `to_compressed`. The answer is a
/// function of the two byte strings alone; there is none where one of them
/// does not decode.
#[verifier::external_body]
pub(crate) fn add_signatures(a: &SignatureShare, b: &SignatureShare) -> (r: Option<SignatureShare>)
    ensures
        match r {
            Some(sum) => signature_sum(a.bytes@, b.bytes@) == Some(sum.bytes@),
            None => signature_sum(a.bytes@, b.bytes@) is None,
        },
{
    let a = Option::<blsttc::G2Projective>::from(blsttc::G2Projective::from_compressed(&a.bytes))?;
    let b = Option::<blsttc::G2Projective>::from(blsttc::G2Projective::from_compressed(&b.bytes))?;
    Some(SignatureShare { bytes: (a + b).to_compressed() })
}

/// Decodes both keys with `blsttc::G1Projective::from_compressed`, adds the
/// points and encodes the sum with `to_compressed`. The answer is a function
/// of the two byte strings alone; there is none where one of them does not
/// decode.
#[verifier::external_body]
pub(crate) fn add_keys(a: &KeyShare, b: &KeyShare) -> (r: Option<KeyShare>)
    ensures
        match r {
            Some(sum) => key_sum(a.bytes@, b.bytes@) == Some(sum.bytes@),
            None => key_sum(a.bytes@, b.bytes@) is None,
        },
{
    let a = Option::<blsttc::G1Projective>::from(blsttc::G1Projective::from_compressed(&a.bytes))?;
    let b = Option::<blsttc::G1Projective>::from(blsttc::G1Projective::from_compressed(&b.bytes))?;
    Some(KeyShare { bytes: (a + b).to_compressed() })
}

/// A secret key share that the signature scheme accepts.
pub struct SecretShare {
    bytes: [u8; 32],
}

impl Clone for SecretShare {
    fn clone(&self) -> (r: SecretShare)
        ensures
            r@ == self@,
    {
        proof {
            use_type_invariant(self);
        }
        SecretShare { bytes: self.bytes }
    }
}

impl SecretShare {
    #[verifier::type_invariant]
    spec fn accepted(self) -> bool {
        valid_secret(self.bytes@)
    }

    /// The bytes of the share.
    pub closed spec fn view(self) -> Seq<u8> {
        self.bytes@
    }

    /// Takes a secret share from its big-endian bytes, if they encode a
    /// scalar of the scheme.
    pub fn from_bytes(bytes: [u8; 32]) -> (r: Option<SecretShare>)
        ensures
            r is Some <==> valid_secret(bytes@),
            r matches Some(s) ==> s@ == bytes@,
    {
        if secret_is_valid(&bytes) {
            Some(SecretShare { bytes })
        } else {
            None
        }
    }

    /// Signs `msg`.
    pub fn sign(&self, msg: &Vec<u8>) -> (r: SignatureShare)
        ensures
            r.bytes@ == share_signature(self@, msg@),
    {
        proof {
            use_type_invariant(self);
        }
        sign_with(&self.bytes, msg)
    }
}

/// Hashes `data`.
pub fn digest(data: &Vec<u8>) -> (r: Digest)
    ensures
        r.bytes@ == digest_of(data@),
{
    sha256(data)
}

/// Whether `sig` is a valid signature of `msg` under `key`.
pub fn verify(key: &KeyShare, sig: &SignatureShare, msg: &Vec<u8>) -> (r: bool)
    ensures
        r == (share_check(key.bytes@, sig.bytes@, msg@) == Some(true)),
{
    match check_share(key, sig, msg) {
        Some(valid) => valid,
        None => false,
    }
}

} // verus!
