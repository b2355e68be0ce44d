use crowd_voice::codec::{decode_proposal, encode_proposal, texts_fit_check};
use crowd_voice::proposal::Proposal;

fn sample() -> Proposal {
    Proposal {
        id: 7,
        title: "h\u{e9}llo \u{2603}".to_string(),
        description: "a longer description".to_string(),
        votes_for: 3,
        votes_against: 1,
        creator: "principal-abc".to_string(),
        created_at: 123456789,
        updated_at: Some(987654321),
    }
}

#[test]
fn decode_inverts_encode() {
    let p = sample();
    let bytes = encode_proposal(&p);
    let q = decode_proposal(bytes.as_slice()).unwrap();
    assert!(p.equal_record(&q));
}

#[test]
fn encode_inverts_decode() {
    let bytes = encode_proposal(&sample());
    let q = decode_proposal(bytes.as_slice()).unwrap();
    let bytes2 = encode_proposal(&q);
    assert_eq!(bytes, bytes2);
}

#[test]
fn encoding_is_deterministic() {
    assert_eq!(encode_proposal(&sample()), encode_proposal(&sample()));
}

#[test]
fn encoded_length_is_fixed_part_plus_chars() {
    let p = sample();
    let chars = p.title.chars().count() + p.description.chars().count() + p.creator.chars().count();
    assert_eq!(encode_proposal(&p).len(), 65 + 4 * chars);
}

#[test]
fn roundtrip_without_update_stamp() {
    let mut p = sample();
    p.updated_at = None;
    let bytes = encode_proposal(&p);
    let q = decode_proposal(bytes.as_slice()).unwrap();
    assert!(p.equal_record(&q));
    assert_eq!(q.updated_at, None);
}

#[test]
fn minimal_record_has_exact_bytes() {
    let p = Proposal {
        id: 1,
        title: String::new(),
        description: String::new(),
        votes_for: 0,
        votes_against: 0,
        creator: String::new(),
        created_at: 0,
        updated_at: None,
    };
    let mut expected = vec![0u8; 65];
    expected[0] = 1; // id, little endian
    assert_eq!(encode_proposal(&p), expected);
    let q = decode_proposal(expected.as_slice()).unwrap();
    assert!(p.equal_record(&q));
}

#[test]
fn decode_rejects_short_input() {
    assert!(decode_proposal(&[]).is_none());
    assert!(decode_proposal(&[0u8; 48]).is_none());
}

#[test]
fn decode_rejects_bad_tag() {
    let mut bytes = encode_proposal(&sample());
    bytes[32] = 2;
    assert!(decode_proposal(bytes.as_slice()).is_none());
}

#[test]
fn decode_rejects_noncanonical_absent_stamp() {
    let mut p = sample();
    p.updated_at = None;
    let mut bytes = encode_proposal(&p);
    // Tag says "no stamp", but a stamp byte is nonzero.
    bytes[35] = 9;
    assert!(decode_proposal(bytes.as_slice()).is_none());
}

#[test]
fn decode_rejects_surrogate_code() {
    let mut p = sample();
    p.title = "A".to_string();
    let mut bytes = encode_proposal(&p);
    // Overwrite the single title character with a surrogate code.
    bytes[49] = 0x00;
    bytes[50] = 0xD8;
    bytes[51] = 0x00;
    bytes[52] = 0x00;
    assert!(decode_proposal(bytes.as_slice()).is_none());
}

#[test]
fn decode_rejects_truncation_and_trailing_bytes() {
    let bytes = encode_proposal(&sample());
    let truncated = &bytes[..bytes.len() - 1];
    assert!(decode_proposal(truncated).is_none());
    let mut extended = bytes.clone();
    extended.push(0);
    assert!(decode_proposal(extended.as_slice()).is_none());
}

#[test]
fn fit_check_counts_all_three_texts() {
    let a = "a".repeat(200);
    let b = "b".repeat(200);
    let ok = "c".repeat(95);
    let too_much = "c".repeat(96);
    assert!(texts_fit_check(&a, &b, &ok));
    assert!(!texts_fit_check(&a, &b, &too_much));
}
