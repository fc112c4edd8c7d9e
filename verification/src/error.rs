//! What can go wrong while a message is handled, and how grave it is.
use crate::types::{Digest, PublicKey, Round};
use vstd::prelude::*;

verus! {

/// Why a message was not processed.
#[derive(Debug, PartialEq, Eq)]
pub enum DagError {
    /// A signature does not match the signed content.
    InvalidSignature,
    /// The identifier of a header is not the hash of its content.
    InvalidHeaderId,
    /// The persistent store failed.
    StoreError(String),
    /// A header of a round that was garbage collected.
    HeaderTooOld(Digest, Round),
    /// A vote of a round that was garbage collected.
    VoteTooOld(Digest, Round),
    /// A certificate of a round that was garbage collected.
    CertificateTooOld(Digest, Round),
    /// An authority that votes twice for one header.
    AuthorityReuse(PublicKey),
    /// A vote that does not match the header it names.
    UnexpectedVote(Digest),
    /// A message of an authority that is no member of the committee.
    UnknownAuthority(PublicKey),
    /// A certificate whose signers hold too little stake.
    CertificateRequiresQuorum,
}

/// Result of handling a message.
pub type DagResult<T> = Result<T, DagError>;

/// How the dispatch loop treats an error.
#[derive(Clone, Copy, Debug, PartialEq, Eq)]
pub enum Severity {
    /// The node cannot go on.
    Fatal,
    /// A stale message: worth a note at the lowest level.
    Stale,
    /// The message is dropped with a warning.
    Warning,
}

impl Clone for DagError {
    fn clone(&self) -> (r: DagError)
        ensures
            r.severity_of() == self.severity_of(),
            !(self is StoreError) ==> r == *self,
    {
        match self {
            DagError::InvalidSignature => DagError::InvalidSignature,
            DagError::InvalidHeaderId => DagError::InvalidHeaderId,
            DagError::StoreError(message) => DagError::StoreError(message.clone()),
            DagError::HeaderTooOld(id, round) => DagError::HeaderTooOld(*id, *round),
            DagError::VoteTooOld(id, round) => DagError::VoteTooOld(*id, *round),
            DagError::CertificateTooOld(id, round) => DagError::CertificateTooOld(*id, *round),
            DagError::AuthorityReuse(name) => DagError::AuthorityReuse(*name),
            DagError::UnexpectedVote(id) => DagError::UnexpectedVote(*id),
            DagError::UnknownAuthority(name) => DagError::UnknownAuthority(*name),
            DagError::CertificateRequiresQuorum => DagError::CertificateRequiresQuorum,
        }
    }
}

impl DagError {
    /// How grave the error is.
    pub open spec fn severity_of(self) -> Severity {
        match self {
            DagError::StoreError(_) => Severity::Fatal,
            DagError::HeaderTooOld(_, _) => Severity::Stale,
            DagError::VoteTooOld(_, _) => Severity::Stale,
            DagError::CertificateTooOld(_, _) => Severity::Stale,
            _ => Severity::Warning,
        }
    }

    /// How grave the error is: a failure of the store ends the node, a stale
    /// message is noted, everything else is dropped with a warning.
    pub fn severity(&self) -> (r: Severity)
        ensures
            r == self.severity_of(),
    {
        match self {
            DagError::StoreError(_) => Severity::Fatal,
            DagError::HeaderTooOld(_, _) => Severity::Stale,
            DagError::VoteTooOld(_, _) => Severity::Stale,
            DagError::CertificateTooOld(_, _) => Severity::Stale,
            _ => Severity::Warning,
        }
    }
}

} // verus!
