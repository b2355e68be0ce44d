use crowd_voice::proposal::{Error, ProposalPayload};
use crowd_voice::store::Store;

fn payload(title: &str, description: &str) -> ProposalPayload {
    ProposalPayload { title: title.to_string(), description: description.to_string() }
}

#[test]
fn create_sets_fresh_fields() {
    let mut s = Store::new();
    let p = s
        .add_proposal(payload("Road repairs", "Fix the main street"), "alice".to_string(), 1000)
        .unwrap();
    assert_eq!(p.id, 1);
    assert_eq!(p.title, "Road repairs");
    assert_eq!(p.description, "Fix the main street");
    assert_eq!(p.votes_for, 0);
    assert_eq!(p.votes_against, 0);
    assert_eq!(p.creator, "alice");
    assert_eq!(p.created_at, 1000);
    assert_eq!(p.updated_at, None);
}

#[test]
fn get_after_create_returns_equal_record() {
    let mut s = Store::new();
    let p = s.add_proposal(payload("T", "D"), "bob".to_string(), 5).unwrap();
    let q = s.get_proposal(p.id).unwrap();
    assert!(p.equal_record(&q));
}

#[test]
fn two_creates_yield_ids_one_and_two() {
    let mut s = Store::new();
    let a = s.add_proposal(payload("First", "one"), "a".to_string(), 1).unwrap();
    let b = s.add_proposal(payload("Second", "two"), "a".to_string(), 2).unwrap();
    assert_eq!(a.id, 1);
    assert_eq!(b.id, 2);
}

#[test]
fn ids_strictly_increase_across_deletes() {
    let mut s = Store::new();
    let mut last = 0u64;
    for i in 0..5u64 {
        let p = s.add_proposal(payload("t", "d"), "c".to_string(), i).unwrap();
        assert!(p.id > last);
        last = p.id;
        if i % 2 == 0 {
            s.delete_proposal(p.id).unwrap();
        }
    }
    assert_eq!(last, 5);
}

#[test]
fn absent_ids_fail_with_not_found() {
    let mut s = Store::new();
    assert_eq!(s.get_proposal(9).unwrap_err(), Error::NotFound { id: 9 });
    assert_eq!(s.vote(9, true, 1).unwrap_err(), Error::NotFound { id: 9 });
    assert_eq!(s.delete_proposal(9).unwrap_err(), Error::NotFound { id: 9 });
    let p = s.add_proposal(payload("T", "D"), "a".to_string(), 1).unwrap();
    s.delete_proposal(p.id).unwrap();
    assert_eq!(s.get_proposal(p.id).unwrap_err(), Error::NotFound { id: p.id });
    assert_eq!(s.vote(p.id, false, 2).unwrap_err(), Error::NotFound { id: p.id });
    assert_eq!(s.delete_proposal(p.id).unwrap_err(), Error::NotFound { id: p.id });
}

#[test]
fn scenario_votes_then_delete() {
    let mut s = Store::new();
    let p = s.add_proposal(payload("T", "D"), "alice".to_string(), 100).unwrap();
    assert_eq!(p.id, 1);
    let p1 = s.vote(1, true, 101).unwrap();
    assert_eq!(p1.votes_for, 1);
    assert_eq!(p1.votes_against, 0);
    assert_eq!(p1.updated_at, Some(101));
    let p2 = s.vote(1, true, 102).unwrap();
    assert_eq!(p2.votes_for, 2);
    assert_eq!(p2.votes_against, 0);
    let p3 = s.vote(1, false, 103).unwrap();
    assert_eq!(p3.votes_for, 2);
    assert_eq!(p3.votes_against, 1);
    assert_eq!(p3.updated_at, Some(103));
    let d = s.delete_proposal(1).unwrap();
    assert_eq!(d.votes_for, 2);
    assert_eq!(d.votes_against, 1);
    assert_eq!(s.get_proposal(1).unwrap_err(), Error::NotFound { id: 1 });
}

#[test]
fn vote_keeps_immutable_fields() {
    let mut s = Store::new();
    let p = s.add_proposal(payload("Keep", "me"), "carol".to_string(), 7).unwrap();
    let q = s.vote(p.id, true, 8).unwrap();
    assert_eq!(q.id, p.id);
    assert_eq!(q.title, p.title);
    assert_eq!(q.description, p.description);
    assert_eq!(q.creator, p.creator);
    assert_eq!(q.created_at, p.created_at);
}

#[test]
fn vote_stamp_follows_clock() {
    let mut s = Store::new();
    s.add_proposal(payload("T", "D"), "a".to_string(), 10).unwrap();
    let p1 = s.vote(1, true, 10).unwrap();
    assert_eq!(p1.updated_at, Some(10));
    let p2 = s.vote(1, false, 25).unwrap();
    assert_eq!(p2.updated_at, Some(25));
    assert!(p2.updated_at.unwrap() >= p1.updated_at.unwrap());
}

#[test]
fn oversized_record_is_rejected() {
    let mut s = Store::new();
    let long = "x".repeat(496);
    let r = s.add_proposal(payload(&long, ""), "".to_string(), 1);
    assert_eq!(r.unwrap_err(), Error::RecordTooLarge);
    // The counter is untouched: the next record still gets identifier 1.
    let p = s.add_proposal(payload("small", ""), "".to_string(), 2).unwrap();
    assert_eq!(p.id, 1);
}

#[test]
fn largest_fitting_record_is_accepted() {
    let mut s = Store::new();
    let title = "y".repeat(495);
    let p = s.add_proposal(payload(&title, ""), "".to_string(), 1).unwrap();
    assert_eq!(p.title.chars().count(), 495);
    let q = s.get_proposal(p.id).unwrap();
    assert!(p.equal_record(&q));
}

#[test]
fn unicode_text_survives_storage() {
    let mut s = Store::new();
    let p = s
        .add_proposal(payload("caf\u{e9} \u{2615}", "sn\u{f6}\u{1f385}"), "\u{4f60}\u{597d}".to_string(), 3)
        .unwrap();
    let q = s.get_proposal(p.id).unwrap();
    assert_eq!(q.title, "caf\u{e9} \u{2615}");
    assert_eq!(q.description, "sn\u{f6}\u{1f385}");
    assert_eq!(q.creator, "\u{4f60}\u{597d}");
}

#[test]
fn empty_texts_are_valid() {
    let mut s = Store::new();
    let p = s.add_proposal(payload("", ""), "".to_string(), 0).unwrap();
    let q = s.get_proposal(p.id).unwrap();
    assert!(p.equal_record(&q));
    assert_eq!(q.title, "");
}

#[test]
fn opened_store_supports_the_full_flow() {
    // In this process the backing memory starts empty, so an opened store
    // behaves as a fresh one; the operations run against the same durable
    // structures a reopened store would load from.
    let mut s = Store::open();
    assert_eq!(s.counter(), 0);
    let p = s.add_proposal(payload("T", "D"), "a".to_string(), 1).unwrap();
    assert_eq!(p.id, 1);
    let q = s.get_proposal(1).unwrap();
    assert!(p.equal_record(&q));
    s.delete_proposal(1).unwrap();
    assert_eq!(s.get_proposal(1).unwrap_err(), Error::NotFound { id: 1 });
}
