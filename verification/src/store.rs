//! The proposal store: a durable counter that hands out monotonically
//! increasing identifiers, composed with a durable map that holds each
//! record under its identifier as a bounded, canonically encoded byte
//! sequence.

use vstd::prelude::*;
use vstd::map::*;
use crate::proposal::{Proposal, ProposalPayload, ProposalView, Error};
use crate::backend::{
    DurableCounter, DurableMap, counter_value, map_contents, backend_new, backend_open,
    counter_get, counter_set, map_get, map_insert, map_remove, empty_contents,
};
use crate::codec::{
    spec_decode, texts_fit, texts_fit_check, encode_proposal, decode_proposal,
    lemma_decode_encode, lemma_encode_decode, lemma_spec_encode_len, MAX_RECORD_BYTES,
};

verus! {

/// The store: the durable counter and the durable record map. It exclusively
/// owns all records; operations return copies.
pub struct Store {
    counter: DurableCounter,
    map: DurableMap,
}

/// Mathematical abstraction of a store: the counter value and the map of
/// live records by identifier.
pub ghost struct StoreView {
    pub counter: u64,
    pub records: Map<u64, ProposalView>,
}

/// The records of a store that holds nothing.
pub open spec fn empty_records() -> Map<u64, ProposalView> {
    Map::empty()
}

/// Every live identifier is positive and no larger than the counter — so a
/// fresh identifier, one above the counter, can never collide with a live
/// one.
pub open spec fn ids_bounded(v: StoreView) -> bool {
    forall|k: u64| #[trigger] v.records.dom().contains(k) ==> 1 <= k && k <= v.counter
}

/// Every live record carries the identifier it is stored under.
pub open spec fn records_keyed_by_id(v: StoreView) -> bool {
    forall|k: u64| #[trigger] v.records.dom().contains(k) ==> v.records[k].id == k
}

impl Store {
    /// The raw bytes the durable map holds, by identifier.
    pub closed spec fn contents(self) -> Map<u64, Seq<u8>> {
        map_contents(self.map)
    }

    /// Well-formedness: every stored byte sequence is the canonical encoding
    /// of a record within the size bound, stored under that record's own
    /// identifier, and no stored identifier exceeds the counter or is zero.
    pub closed spec fn wf(self) -> bool {
        &&& self.contents().dom().finite()
        &&& forall|k: u64|
            #[trigger] self.contents().dom().contains(k) ==> {
                &&& spec_decode(self.contents()[k]) is Some
                &&& spec_decode(self.contents()[k])->0.id == k
                &&& self.contents()[k].len() <= MAX_RECORD_BYTES
                &&& 1 <= k && k <= counter_value(self.counter)
            }
    }
}

impl View for Store {
    type V = StoreView;

    closed spec fn view(&self) -> StoreView {
        StoreView {
            counter: counter_value(self.counter),
            records: Map::new(
                |k: u64| map_contents(self.map).dom().contains(k),
                |k: u64| spec_decode(map_contents(self.map)[k])->0,
            ),
        }
    }
}

/// The record as a vote leaves it: the chosen tally one higher, the other
/// unchanged, the update stamp set to the given time, all else as it was.
pub open spec fn vote_applied(p: ProposalView, vote_for: bool, now: u64) -> ProposalView {
    ProposalView {
        votes_for: if vote_for {
            (p.votes_for + 1) as u64
        } else {
            p.votes_for
        },
        votes_against: if vote_for {
            p.votes_against
        } else {
            (p.votes_against + 1) as u64
        },
        updated_at: Option::Some(now),
        ..p
    }
}

impl Store {
    /// Creates a fresh, empty store whose counter starts at zero,
    /// overwriting anything the backing memory held.
    pub fn new() -> (s: Store)
        ensures
            s.wf(),
            ids_bounded(s@),
            records_keyed_by_id(s@),
            s@.counter == 0,
            s@.records == empty_records(),
    {
        let (counter, map) = backend_new();
        let s = Store { counter, map };
        proof {
            assert(s.contents() == empty_contents());
            assert(s@.records =~= empty_records());
        }
        s
    }

    /// Opens the store over the persisted backing memory: the counter and
    /// the records an earlier run of this store left there are loaded, so
    /// identifiers keep increasing past every one ever issued; where the
    /// memory holds nothing, the store starts fresh.
    pub fn open() -> (s: Store)
        ensures
            s.wf(),
            ids_bounded(s@),
            records_keyed_by_id(s@),
    {
        let (counter, map) = backend_open();
        let s = Store { counter, map };
        proof {
            assert(s.wf());
        }
        s
    }

    /// The current counter value: the number of identifiers issued so far.
    pub fn counter(&self) -> (c: u64)
        ensures
            c == self@.counter,
    {
        counter_get(&self.counter)
    }

    /// Creates a record from the payload, under a fresh identifier one above
    /// the counter, stamped with the given creation time and creator
    /// identity, with both tallies zero and no update stamp. Rejects the
    /// payload only when the record would exceed the encoded size bound.
    pub fn add_proposal(&mut self, payload: ProposalPayload, creator: String, now: u64) -> (r:
        Result<Proposal, Error>)
        requires
            old(self).wf(),
            old(self)@.counter < u64::MAX,
        ensures
            final(self).wf(),
            ids_bounded(final(self)@),
            records_keyed_by_id(final(self)@),
            match r {
                Result::Ok(p) => {
                    &&& texts_fit(payload.title@, payload.description@, creator@)
                    &&& p@ == (ProposalView {
                        id: (old(self)@.counter + 1) as u64,
                        title: payload.title@,
                        description: payload.description@,
                        votes_for: 0,
                        votes_against: 0,
                        creator: creator@,
                        created_at: now,
                        updated_at: Option::None,
                    })
                    &&& final(self)@.counter == old(self)@.counter + 1
                    &&& final(self)@.records == old(self)@.records.insert(p@.id, p@)
                    &&& !old(self)@.records.dom().contains(p@.id)
                    &&& forall|k: u64| old(self)@.records.dom().contains(k) ==> p@.id > k
                },
                Result::Err(e) => {
                    &&& e == Error::RecordTooLarge
                    &&& !texts_fit(payload.title@, payload.description@, creator@)
                    &&& final(self)@ == old(self)@
                },
            },
    {
        if !texts_fit_check(&payload.title, &payload.description, &creator) {
            return Result::Err(Error::RecordTooLarge);
        }
        let id = counter_get(&self.counter) + 1;
        counter_set(&mut self.counter, id);
        let p = Proposal {
            id,
            title: payload.title,
            description: payload.description,
            votes_for: 0,
            votes_against: 0,
            creator,
            created_at: now,
            updated_at: Option::None,
        };
        let bytes = encode_proposal(&p);
        proof {
            lemma_decode_encode(p@);
        }
        let _prev = map_insert(&mut self.map, id, bytes);
        proof {
            assert(self.wf());
            assert(self@.records =~= old(self)@.records.insert(id, p@));
        }
        Result::Ok(p)
    }

    /// Returns a copy of the record stored under the identifier, or a
    /// not-found failure when there is none.
    pub fn get_proposal(&self, id: u64) -> (r: Result<Proposal, Error>)
        requires
            self.wf(),
        ensures
            ids_bounded(self@),
            records_keyed_by_id(self@),
            match r {
                Result::Ok(p) => self@.records.dom().contains(id) && p@ == self@.records[id],
                Result::Err(e) => !self@.records.dom().contains(id) && e == (Error::NotFound {
                    id,
                }),
            },
    {
        match map_get(&self.map, id) {
            Option::Some(bytes) => {
                let dec = decode_proposal(bytes.as_slice());
                proof {
                    assert(dec is Some);
                }
                Result::Ok(dec.unwrap())
            },
            Option::None => Result::Err(Error::NotFound { id }),
        }
    }

    /// Counts a vote on the record stored under the identifier: raises the
    /// chosen tally by exactly one, leaves the other unchanged, stamps the
    /// record with the given time, persists it, and returns the updated
    /// record; fails with not-found when there is no such record.
    pub fn vote(&mut self, id: u64, vote_for: bool, now: u64) -> (r: Result<Proposal, Error>)
        requires
            old(self).wf(),
            old(self)@.records.dom().contains(id) ==> (if vote_for {
                old(self)@.records[id].votes_for < u64::MAX
            } else {
                old(self)@.records[id].votes_against < u64::MAX
            }),
        ensures
            final(self).wf(),
            ids_bounded(final(self)@),
            records_keyed_by_id(final(self)@),
            final(self)@.counter == old(self)@.counter,
            match r {
                Result::Ok(p) => {
                    &&& old(self)@.records.dom().contains(id)
                    &&& p@ == vote_applied(old(self)@.records[id], vote_for, now)
                    &&& final(self)@.records == old(self)@.records.insert(id, p@)
                },
                Result::Err(e) => {
                    &&& !old(self)@.records.dom().contains(id)
                    &&& e == (Error::NotFound { id })
                    &&& final(self)@ == old(self)@
                },
            },
    {
        match map_get(&self.map, id) {
            Option::None => Result::Err(Error::NotFound { id }),
            Option::Some(bytes) => {
                let dec = decode_proposal(bytes.as_slice());
                proof {
                    assert(dec is Some);
                    lemma_encode_decode(bytes@);
                    lemma_spec_encode_len(spec_decode(bytes@)->0);
                }
                let mut p = dec.unwrap();
                if vote_for {
                    p.votes_for = p.votes_for + 1;
                } else {
                    p.votes_against = p.votes_against + 1;
                }
                p.updated_at = Option::Some(now);
                let bytes2 = encode_proposal(&p);
                proof {
                    lemma_decode_encode(p@);
                }
                let _prev = map_insert(&mut self.map, id, bytes2);
                proof {
                    assert(self.wf());
                    assert(self@.records =~= old(self)@.records.insert(id, p@));
                }
                Result::Ok(p)
            },
        }
    }

    /// Removes the record stored under the identifier and returns it, or
    /// fails with not-found when there is none. A deleted identifier is
    /// never reused, because the counter is never rewound.
    pub fn delete_proposal(&mut self, id: u64) -> (r: Result<Proposal, Error>)
        requires
            old(self).wf(),
        ensures
            final(self).wf(),
            ids_bounded(final(self)@),
            records_keyed_by_id(final(self)@),
            final(self)@.counter == old(self)@.counter,
            match r {
                Result::Ok(p) => {
                    &&& old(self)@.records.dom().contains(id)
                    &&& p@ == old(self)@.records[id]
                    &&& final(self)@.records == old(self)@.records.remove(id)
                },
                Result::Err(e) => {
                    &&& !old(self)@.records.dom().contains(id)
                    &&& e == (Error::NotFound { id })
                    &&& final(self)@ == old(self)@
                },
            },
    {
        match map_remove(&mut self.map, id) {
            Option::None => {
                proof {
                    assert(self@.records =~= old(self)@.records);
                }
                Result::Err(Error::NotFound { id })
            },
            Option::Some(bytes) => {
                let dec = decode_proposal(bytes.as_slice());
                proof {
                    assert(dec is Some);
                    assert(self.wf());
                    assert(self@.records =~= old(self)@.records.remove(id));
                }
                Result::Ok(dec.unwrap())
            },
        }
    }
}

/// The time a record was last touched: its update stamp if it has one, else
/// its creation time.
pub open spec fn last_touched(p: ProposalView) -> u64 {
    match p.updated_at {
        Option::Some(u) => u,
        Option::None => p.created_at,
    }
}

/// Law: a lookup immediately after a creation returns exactly the record the
/// creation returned. A creation leaves the record map with the new record
/// under its own identifier, and a lookup returns what the map holds under
/// the identifier asked for.
pub proof fn lemma_get_after_create(records: Map<u64, ProposalView>, p: ProposalView)
    ensures
        records.insert(p.id, p).dom().contains(p.id),
        records.insert(p.id, p)[p.id] == p,
{
}

/// Law: identifiers are distinct and strictly increasing across creations,
/// interleaved deletions included. If every identifier issued so far is at
/// most the counter — vacuously true of a fresh store, and preserved by
/// every operation, since none lowers the counter and a creation raises it
/// to the identifier it issues — then a creation issues an identifier
/// strictly above every earlier one, and the bound holds again afterwards.
pub proof fn lemma_create_issues_fresh_id(issued: Set<u64>, counter: u64, id: u64)
    requires
        forall|i: u64| issued.contains(i) ==> i <= counter,
        counter < u64::MAX,
        id == counter + 1,
    ensures
        forall|i: u64| issued.contains(i) ==> id > i,
        forall|i: u64| issued.insert(id).contains(i) ==> i <= id,
{
}

/// Law: a vote sets the update stamp to the given time, which is not earlier
/// than the record's previous stamp as long as the clock the environment
/// supplies has not gone backwards since the record was last touched.
pub proof fn lemma_vote_stamp_monotonic(p: ProposalView, vote_for: bool, now: u64)
    requires
        now >= last_touched(p),
    ensures
        vote_applied(p, vote_for, now).updated_at == Option::Some(now),
        last_touched(vote_applied(p, vote_for, now)) >= last_touched(p),
{
}

} // verus!
