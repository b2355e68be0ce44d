//! The proposal record, its mathematical view, and the store's error type.

use vstd::prelude::*;

verus! {

/// A proposal record: the sole entity of the store. Returned values are
/// copies; callers cannot mutate stored state through them.
#[derive(Clone, Debug)]
pub struct Proposal {
    pub id: u64,
    pub title: String,
    pub description: String,
    pub votes_for: u64,
    pub votes_against: u64,
    pub creator: String,
    pub created_at: u64,
    pub updated_at: Option<u64>,
}

/// Mathematical abstraction of a proposal record: strings are sequences of
/// characters, everything else is carried as is.
pub ghost struct ProposalView {
    pub id: u64,
    pub title: Seq<char>,
    pub description: Seq<char>,
    pub votes_for: u64,
    pub votes_against: u64,
    pub creator: Seq<char>,
    pub created_at: u64,
    pub updated_at: Option<u64>,
}

impl View for Proposal {
    type V = ProposalView;

    open spec fn view(&self) -> ProposalView {
        ProposalView {
            id: self.id,
            title: self.title@,
            description: self.description@,
            votes_for: self.votes_for,
            votes_against: self.votes_against,
            creator: self.creator@,
            created_at: self.created_at,
            updated_at: self.updated_at,
        }
    }
}

impl Proposal {
    /// Field-by-field equality; the derived implementation is opaque to the
    /// verifier, so equality is offered as an explicit method.
    pub fn equal_record(&self, other: &Proposal) -> (r: bool)
        ensures
            r == (self@ == other@),
    {
        let updated_same: bool = match (&self.updated_at, &other.updated_at) {
            (Option::None, Option::None) => true,
            (Option::Some(a), Option::Some(b)) => *a == *b,
            _ => false,
        };
        self.id == other.id && self.title.eq(&other.title)
            && self.description.eq(&other.description) && self.votes_for == other.votes_for
            && self.votes_against == other.votes_against && self.creator.eq(&other.creator)
            && self.created_at == other.created_at && updated_same
    }
}

/// Input payload of the create operation: the caller-supplied free text.
pub struct ProposalPayload {
    pub title: String,
    pub description: String,
}

/// Errors returned by the store's operations.
#[derive(Clone, Debug, PartialEq, Eq, Structural)]
pub enum Error {
    /// The requested identifier has no live record.
    NotFound { id: u64 },
    /// The record would exceed the fixed encoded-size bound.
    RecordTooLarge,
}

} // verus!
