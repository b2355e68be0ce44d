//! Deterministic byte encoding of proposal records.
//!
//! A record is laid out as a fixed-size head (the four numeric fields and the
//! optional update stamp) followed by the three texts, each as a character
//! count and one little-endian 32-bit code per character. The encoding is
//! canonical: an absent update stamp is written as a zero tag followed by
//! eight zero bytes, and decoding rejects anything else, so encoding and
//! decoding invert each other exactly.

use vstd::prelude::*;
use vstd::bytes::{
    spec_u64_to_le_bytes, spec_u64_from_le_bytes, spec_u32_to_le_bytes, spec_u32_from_le_bytes,
    u64_to_le_bytes, u64_from_le_bytes, u32_to_le_bytes, u32_from_le_bytes,
    lemma_auto_spec_u64_to_from_le_bytes, lemma_auto_spec_u32_to_from_le_bytes,
};
use vstd::slice::slice_subrange;
use vstd::string::StrSliceExecFns;
use vstd::assert_seqs_equal;
use crate::proposal::{Proposal, ProposalView};

verus! {

/// Fixed upper bound, in bytes, on the encoded size of any stored record.
pub const MAX_RECORD_BYTES: u64 = 2048;

/// The Unicode code of a character.
pub open spec fn char_code(c: char) -> u32 {
    c as u32
}

/// True when some character has the given value as its code.
pub open spec fn u32_is_char(v: u32) -> bool {
    exists|c: char| char_code(c) == v
}

/// The character whose code is the given value.
pub open spec fn char_of(v: u32) -> char
    recommends
        u32_is_char(v),
{
    choose|c: char| char_code(c) == v
}

/// Two characters with the same code are the same character.
proof fn lemma_char_code_injective(c: char, d: char)
    requires
        c as u32 == d as u32,
    ensures
        c == d,
{
}

/// Relies on char::from_u32: it returns `Some` exactly on Unicode scalar
/// values (everything below the surrogate range or between the surrogate
/// range and char::MAX), and the character it returns has the given code.
#[verifier::external_body]
fn char_from_u32(v: u32) -> (r: Option<char>)
    ensures
        r matches Some(c) ==> char_code(c) == v,
        r is Some <==> (v < 0xD800 || (0xE000 <= v && v <= 0x10FFFF)),
{
    char::from_u32(v)
}

/// Relies on String::push: it appends exactly the given character.
#[verifier::external_body]
fn push_char(s: &mut String, c: char)
    ensures
        final(s)@ == old(s)@.push(c),
{
    s.push(c);
}

/// Each character of the text in order, as four little-endian bytes of its code.
pub open spec fn enc_chars(s: Seq<char>) -> Seq<u8>
    decreases s.len(),
{
    if s.len() == 0 {
        Seq::empty()
    } else {
        enc_chars(s.drop_last()) + spec_u32_to_le_bytes(char_code(s.last()))
    }
}

/// The text decoded from four-byte groups, or nothing if the length is not a
/// multiple of four or some group is not the code of a character.
pub open spec fn dec_chars(b: Seq<u8>) -> Option<Seq<char>>
    decreases b.len(),
{
    if b.len() == 0 {
        Some(Seq::empty())
    } else if b.len() < 4 {
        None
    } else {
        let rest = dec_chars(b.subrange(0, b.len() - 4));
        let v = spec_u32_from_le_bytes(b.subrange(b.len() - 4, b.len() as int));
        if rest is Some && u32_is_char(v) {
            Some(rest->0.push(char_of(v)))
        } else {
            None
        }
    }
}

pub proof fn lemma_enc_chars_len(s: Seq<char>)
    ensures
        enc_chars(s).len() == 4 * s.len(),
    decreases s.len(),
{
    lemma_auto_spec_u32_to_from_le_bytes();
    if s.len() > 0 {
        lemma_enc_chars_len(s.drop_last());
    }
}

/// Decoding inverts encoding on every text.
pub proof fn lemma_dec_enc_chars(s: Seq<char>)
    ensures
        dec_chars(enc_chars(s)) == Some(s),
    decreases s.len(),
{
    lemma_auto_spec_u32_to_from_le_bytes();
    lemma_enc_chars_len(s);
    if s.len() == 0 {
        assert(s =~= Seq::<char>::empty());
    } else {
        lemma_dec_enc_chars(s.drop_last());
        lemma_enc_chars_len(s.drop_last());
        let b = enc_chars(s);
        let tail = spec_u32_to_le_bytes(char_code(s.last()));
        assert(b.subrange(0, b.len() - 4) =~= enc_chars(s.drop_last()));
        assert(b.subrange(b.len() - 4, b.len() as int) =~= tail);
        let v = spec_u32_from_le_bytes(tail);
        assert(char_code(s.last()) == v);
        assert(u32_is_char(v));
        assert(char_code(char_of(v)) == v);
        lemma_char_code_injective(char_of(v), s.last());
        assert(s.drop_last().push(s.last()) =~= s);
    }
}

/// Encoding inverts decoding on every byte sequence a text decodes from.
pub proof fn lemma_enc_dec_chars(b: Seq<u8>)
    requires
        dec_chars(b) is Some,
    ensures
        enc_chars(dec_chars(b)->0) == b,
        4 * dec_chars(b)->0.len() == b.len(),
    decreases b.len(),
{
    lemma_auto_spec_u32_to_from_le_bytes();
    if b.len() == 0 {
        assert(enc_chars(dec_chars(b)->0) =~= b);
    } else {
        let rest = b.subrange(0, b.len() - 4);
        let last4 = b.subrange(b.len() - 4, b.len() as int);
        lemma_enc_dec_chars(rest);
        let v = spec_u32_from_le_bytes(last4);
        let s = dec_chars(b)->0;
        assert(s == dec_chars(rest)->0.push(char_of(v)));
        assert(s.drop_last() =~= dec_chars(rest)->0);
        assert(s.last() == char_of(v));
        assert(char_code(char_of(v)) == v);
        assert(spec_u32_to_le_bytes(v) == last4);
        assert(enc_chars(s) =~= b);
    }
}

/// If some strict prefix of the byte sequence already fails to decode as a
/// text, the whole sequence fails too.
proof fn lemma_dec_chars_none_extends(b: Seq<u8>, k: int)
    requires
        0 <= k <= b.len(),
        k % 4 == 0,
        b.len() % 4 == 0,
        dec_chars(b.subrange(0, k)) is None,
    ensures
        dec_chars(b) is None,
    decreases b.len() - k,
{
    if k == b.len() {
        assert(b.subrange(0, k) =~= b);
    } else {
        let rest = b.subrange(0, b.len() - 4);
        assert(rest.subrange(0, k) =~= b.subrange(0, k));
        lemma_dec_chars_none_extends(rest, k);
    }
}

/// The update stamp: a tag byte, then the stamp itself, or eight zero bytes
/// when there has been no update yet.
pub open spec fn enc_updated(o: Option<u64>) -> Seq<u8> {
    match o {
        Option::None => seq![0u8] + spec_u64_to_le_bytes(0),
        Option::Some(t) => seq![1u8] + spec_u64_to_le_bytes(t),
    }
}

/// The canonical encoding of a record.
pub open spec fn spec_encode(p: ProposalView) -> Seq<u8> {
    spec_u64_to_le_bytes(p.id) + spec_u64_to_le_bytes(p.votes_for) + spec_u64_to_le_bytes(
        p.votes_against,
    ) + spec_u64_to_le_bytes(p.created_at) + enc_updated(p.updated_at) + spec_u64_to_le_bytes(
        p.title.len() as u64,
    ) + enc_chars(p.title) + spec_u64_to_le_bytes(p.description.len() as u64) + enc_chars(
        p.description,
    ) + spec_u64_to_le_bytes(p.creator.len() as u64) + enc_chars(p.creator)
}

/// A record abstraction whose texts are short enough for their lengths to be
/// written as 64-bit counts; every record held in memory satisfies this.
pub open spec fn view_wf(p: ProposalView) -> bool {
    p.title.len() <= u64::MAX && p.description.len() <= u64::MAX && p.creator.len() <= u64::MAX
}

/// The length of a record's encoding: a 65-byte fixed part and four bytes per
/// character of text.
pub open spec fn spec_encoded_len(p: ProposalView) -> int {
    65 + 4 * (p.title.len() + p.description.len() + p.creator.len()) as int
}

pub proof fn lemma_spec_encode_len(p: ProposalView)
    ensures
        spec_encode(p).len() == spec_encoded_len(p),
{
    lemma_auto_spec_u64_to_from_le_bytes();
    lemma_enc_chars_len(p.title);
    lemma_enc_chars_len(p.description);
    lemma_enc_chars_len(p.creator);
}

/// The 64-bit value stored at the given offset.
pub open spec fn dec_u64_at(b: Seq<u8>, i: int) -> u64
    recommends
        0 <= i,
        i + 8 <= b.len(),
{
    spec_u64_from_le_bytes(b.subrange(i, i + 8))
}

/// The record decoded from a byte sequence, or nothing if the sequence is not
/// a canonical encoding.
pub open spec fn spec_decode(b: Seq<u8>) -> Option<ProposalView> {
    if b.len() < 49 {
        None
    } else {
        let tag = b[32];
        let upd = dec_u64_at(b, 33);
        let tlen = dec_u64_at(b, 41) as int;
        if !(tag == 0 || tag == 1) {
            None
        } else if tag == 0 && upd != 0 {
            None
        } else if b.len() < 57 + 4 * tlen {
            None
        } else {
            let dlen = dec_u64_at(b, 49 + 4 * tlen) as int;
            let dstart = 57 + 4 * tlen;
            if b.len() < dstart + 4 * dlen + 8 {
                None
            } else {
                let clen = dec_u64_at(b, dstart + 4 * dlen) as int;
                let cstart = dstart + 4 * dlen + 8;
                if b.len() != cstart + 4 * clen {
                    None
                } else {
                    let title = dec_chars(b.subrange(49, 49 + 4 * tlen));
                    let description = dec_chars(b.subrange(dstart, dstart + 4 * dlen));
                    let creator = dec_chars(b.subrange(cstart, cstart + 4 * clen));
                    if title is Some && description is Some && creator is Some {
                        Some(
                            ProposalView {
                                id: dec_u64_at(b, 0),
                                title: title->0,
                                description: description->0,
                                votes_for: dec_u64_at(b, 8),
                                votes_against: dec_u64_at(b, 16),
                                creator: creator->0,
                                created_at: dec_u64_at(b, 24),
                                updated_at: if tag == 0 {
                                    None
                                } else {
                                    Some(upd)
                                },
                            },
                        )
                    } else {
                        None
                    }
                }
            }
        }
    }
}

/// Law: decoding inverts encoding. Every record whose text lengths fit the
/// format decodes back from its own encoding unchanged.
#[verifier::rlimit(60)]
pub proof fn lemma_decode_encode(p: ProposalView)
    requires
        view_wf(p),
    ensures
        spec_decode(spec_encode(p)) == Some(p),
{
    lemma_auto_spec_u64_to_from_le_bytes();
    lemma_enc_chars_len(p.title);
    lemma_enc_chars_len(p.description);
    lemma_enc_chars_len(p.creator);
    lemma_spec_encode_len(p);
    let b = spec_encode(p);
    let tl = p.title.len() as int;
    let dl = p.description.len() as int;
    let cl = p.creator.len() as int;
    assert_seqs_equal!(b.subrange(0, 8) == spec_u64_to_le_bytes(p.id));
    assert_seqs_equal!(b.subrange(8, 16) == spec_u64_to_le_bytes(p.votes_for));
    assert_seqs_equal!(b.subrange(16, 24) == spec_u64_to_le_bytes(p.votes_against));
    assert_seqs_equal!(b.subrange(24, 32) == spec_u64_to_le_bytes(p.created_at));
    match p.updated_at {
        Option::None => {
            assert(b[32] == 0);
            assert_seqs_equal!(b.subrange(33, 41) == spec_u64_to_le_bytes(0));
        },
        Option::Some(t) => {
            assert(b[32] == 1);
            assert_seqs_equal!(b.subrange(33, 41) == spec_u64_to_le_bytes(t));
        },
    }
    assert_seqs_equal!(b.subrange(41, 49) == spec_u64_to_le_bytes(p.title.len() as u64));
    assert_seqs_equal!(b.subrange(49, 49 + 4 * tl) == enc_chars(p.title));
    assert_seqs_equal!(b.subrange(49 + 4 * tl, 57 + 4 * tl)
        == spec_u64_to_le_bytes(p.description.len() as u64));
    assert_seqs_equal!(b.subrange(57 + 4 * tl, 57 + 4 * tl + 4 * dl) == enc_chars(p.description));
    assert_seqs_equal!(b.subrange(57 + 4 * tl + 4 * dl, 65 + 4 * tl + 4 * dl)
        == spec_u64_to_le_bytes(p.creator.len() as u64));
    assert_seqs_equal!(b.subrange(65 + 4 * tl + 4 * dl, 65 + 4 * tl + 4 * dl + 4 * cl)
        == enc_chars(p.creator));
    lemma_dec_enc_chars(p.title);
    lemma_dec_enc_chars(p.description);
    lemma_dec_enc_chars(p.creator);
    assert(dec_u64_at(b, 41) as int == tl);
    assert(dec_u64_at(b, 49 + 4 * tl) as int == dl);
    assert(dec_u64_at(b, 57 + 4 * tl + 4 * dl) as int == cl);
    assert(spec_decode(b) == Some(p));
}

/// Law: encoding inverts decoding. Every byte sequence that decodes to a
/// record is exactly that record's encoding, so no two distinct stored byte
/// sequences stand for the same record.
#[verifier::rlimit(60)]
pub proof fn lemma_encode_decode(b: Seq<u8>)
    requires
        spec_decode(b) is Some,
    ensures
        view_wf(spec_decode(b)->0),
        spec_encode(spec_decode(b)->0) == b,
{
    lemma_auto_spec_u64_to_from_le_bytes();
    let p = spec_decode(b)->0;
    let tag = b[32];
    let upd = dec_u64_at(b, 33);
    let tlen = dec_u64_at(b, 41) as int;
    let dlen = dec_u64_at(b, 49 + 4 * tlen) as int;
    let dstart = 57 + 4 * tlen;
    let clen = dec_u64_at(b, dstart + 4 * dlen) as int;
    let cstart = dstart + 4 * dlen + 8;
    let tseg = b.subrange(49, 49 + 4 * tlen);
    let dseg = b.subrange(dstart, dstart + 4 * dlen);
    let cseg = b.subrange(cstart, cstart + 4 * clen);
    lemma_enc_dec_chars(tseg);
    lemma_enc_dec_chars(dseg);
    lemma_enc_dec_chars(cseg);
    assert(p.title.len() == tlen);
    assert(p.description.len() == dlen);
    assert(p.creator.len() == clen);
    lemma_enc_chars_len(p.title);
    lemma_enc_chars_len(p.description);
    lemma_enc_chars_len(p.creator);
    assert(spec_u64_to_le_bytes(dec_u64_at(b, 0)) =~= b.subrange(0, 8));
    assert(spec_u64_to_le_bytes(dec_u64_at(b, 8)) =~= b.subrange(8, 16));
    assert(spec_u64_to_le_bytes(dec_u64_at(b, 16)) =~= b.subrange(16, 24));
    assert(spec_u64_to_le_bytes(dec_u64_at(b, 24)) =~= b.subrange(24, 32));
    assert(spec_u64_to_le_bytes(upd) =~= b.subrange(33, 41));
    assert(spec_u64_to_le_bytes(p.title.len() as u64) =~= b.subrange(41, 49));
    assert(spec_u64_to_le_bytes(p.description.len() as u64) =~= b.subrange(
        49 + 4 * tlen,
        57 + 4 * tlen,
    ));
    assert(spec_u64_to_le_bytes(p.creator.len() as u64) =~= b.subrange(
        dstart + 4 * dlen,
        cstart,
    ));
    if tag == 0 {
        assert(upd == 0);
        assert(enc_updated(p.updated_at) =~= seq![0u8] + spec_u64_to_le_bytes(0));
    } else {
        assert(enc_updated(p.updated_at) =~= seq![1u8] + spec_u64_to_le_bytes(upd));
    }
    assert_seqs_equal!(spec_encode(p) == b);
}

/// True when the three texts together keep a record's encoding within the
/// fixed size bound.
pub open spec fn texts_fit(title: Seq<char>, description: Seq<char>, creator: Seq<char>) -> bool {
    65 + 4 * (title.len() + description.len() + creator.len()) as int <= MAX_RECORD_BYTES
}

/// Decides whether a record built from these texts would stay within the
/// encoded size bound.
pub fn texts_fit_check(title: &String, description: &String, creator: &String) -> (r: bool)
    ensures
        r == texts_fit(title@, description@, creator@),
{
    let t = title.as_str().unicode_len();
    if t > 495 {
        return false;
    }
    let d = description.as_str().unicode_len();
    if d > 495 {
        return false;
    }
    let c = creator.as_str().unicode_len();
    if c > 495 {
        return false;
    }
    t + d + c <= 495
}

fn encode_u64_into(out: &mut Vec<u8>, x: u64)
    ensures
        final(out)@ == old(out)@ + spec_u64_to_le_bytes(x),
{
    let mut bs = u64_to_le_bytes(x);
    out.append(&mut bs);
}

fn encode_text_into(out: &mut Vec<u8>, s: &String)
    ensures
        final(out)@ == old(out)@ + spec_u64_to_le_bytes(s@.len() as u64) + enc_chars(s@),
        s@.len() <= u64::MAX,
{
    let n = s.as_str().unicode_len();
    encode_u64_into(out, n as u64);
    let mut i: usize = 0;
    while i < n
        invariant
            i <= n,
            n == s@.len(),
            out@ == old(out)@ + spec_u64_to_le_bytes(n as u64) + enc_chars(s@.take(i as int)),
        decreases n - i,
    {
        let c = s.as_str().get_char(i);
        let mut bs = u32_to_le_bytes(c as u32);
        out.append(&mut bs);
        proof {
            let t = s@.take(i as int + 1);
            assert(t.drop_last() =~= s@.take(i as int));
            assert(t.last() == s@[i as int]);
        }
        i = i + 1;
    }
    proof {
        assert(s@.take(n as int) =~= s@);
    }
}

/// Serializes a record into its canonical byte encoding.
pub fn encode_proposal(p: &Proposal) -> (r: Vec<u8>)
    ensures
        r@ == spec_encode(p@),
        r@.len() == spec_encoded_len(p@),
        view_wf(p@),
{
    let mut out: Vec<u8> = Vec::new();
    encode_u64_into(&mut out, p.id);
    encode_u64_into(&mut out, p.votes_for);
    encode_u64_into(&mut out, p.votes_against);
    encode_u64_into(&mut out, p.created_at);
    match &p.updated_at {
        Option::None => {
            out.push(0u8);
            encode_u64_into(&mut out, 0);
        },
        Option::Some(t) => {
            out.push(1u8);
            encode_u64_into(&mut out, *t);
        },
    }
    encode_text_into(&mut out, &p.title);
    encode_text_into(&mut out, &p.description);
    encode_text_into(&mut out, &p.creator);
    proof {
        lemma_spec_encode_len(p@);
        assert(out@ =~= spec_encode(p@));
    }
    out
}

fn decode_text(b: &[u8]) -> (r: Option<String>)
    requires
        b@.len() % 4 == 0,
    ensures
        match r {
            Option::Some(s) => dec_chars(b@) == Some(s@),
            Option::None => dec_chars(b@) is None,
        },
{
    let n = b.len();
    let m = n / 4;
    let mut s = String::new();
    let mut i: usize = 0;
    while i < m
        invariant
            i <= m,
            m == n / 4,
            n == b@.len(),
            n % 4 == 0,
            dec_chars(b@.subrange(0, 4 * i as int)) == Some(s@),
        decreases m - i,
    {
        let v = u32_from_le_bytes(slice_subrange(b, 4 * i, 4 * i + 4));
        match char_from_u32(v) {
            Option::Some(c) => {
                push_char(&mut s, c);
                proof {
                    let t = b@.subrange(0, 4 * (i as int + 1));
                    assert(t.subrange(0, t.len() - 4) =~= b@.subrange(0, 4 * i as int));
                    assert(t.subrange(t.len() - 4, t.len() as int) =~= b@.subrange(
                        4 * i as int,
                        4 * i as int + 4,
                    ));
                    assert(u32_is_char(v));
                    lemma_char_code_injective(char_of(v), c);
                }
            },
            Option::None => {
                proof {
                    assert forall|ch: char| char_code(ch) != v by {
                        lemma_char_code_in_scalar_range(ch);
                    }
                    assert(!u32_is_char(v));
                    let t = b@.subrange(0, 4 * (i as int + 1));
                    assert(t.subrange(0, t.len() - 4) =~= b@.subrange(0, 4 * i as int));
                    assert(t.subrange(t.len() - 4, t.len() as int) =~= b@.subrange(
                        4 * i as int,
                        4 * i as int + 4,
                    ));
                    assert(dec_chars(t) is None);
                    lemma_dec_chars_none_extends(b@, 4 * (i as int + 1));
                }
                return Option::None;
            },
        }
        i = i + 1;
    }
    proof {
        assert(b@.subrange(0, n as int) =~= b@);
    }
    Option::Some(s)
}

/// A character's code is a Unicode scalar value.
proof fn lemma_char_code_in_scalar_range(c: char)
    ensures
        char_code(c) < 0xD800 || (0xE000 <= char_code(c) && char_code(c) <= 0x10FFFF),
{
}

/// Deserializes a record from its canonical byte encoding; returns nothing on
/// any byte sequence that no record encodes to.
pub fn decode_proposal(b: &[u8]) -> (r: Option<Proposal>)
    ensures
        match r {
            Option::Some(p) => spec_decode(b@) == Some(p@) && view_wf(p@),
            Option::None => spec_decode(b@) is None,
        },
{
    let n = b.len();
    if n < 49 {
        return Option::None;
    }
    let id = u64_from_le_bytes(slice_subrange(b, 0, 8));
    let votes_for = u64_from_le_bytes(slice_subrange(b, 8, 16));
    let votes_against = u64_from_le_bytes(slice_subrange(b, 16, 24));
    let created_at = u64_from_le_bytes(slice_subrange(b, 24, 32));
    let tag = *vstd::slice::slice_index_get(b, 32);
    let upd = u64_from_le_bytes(slice_subrange(b, 33, 41));
    let tlen64 = u64_from_le_bytes(slice_subrange(b, 41, 49));
    if tag > 1 {
        return Option::None;
    }
    if tag == 0 && upd != 0 {
        return Option::None;
    }
    if (n as u128) < 57 + 4 * (tlen64 as u128) {
        return Option::None;
    }
    let tl: usize = 4 * (tlen64 as usize);
    let dlen64 = u64_from_le_bytes(slice_subrange(b, 49 + tl, 57 + tl));
    if (n as u128) < 65 + 4 * (tlen64 as u128) + 4 * (dlen64 as u128) {
        return Option::None;
    }
    let dl: usize = 4 * (dlen64 as usize);
    let clen64 = u64_from_le_bytes(slice_subrange(b, 57 + tl + dl, 65 + tl + dl));
    if (n as u128) != 65 + 4 * (tlen64 as u128) + 4 * (dlen64 as u128) + 4 * (clen64 as u128) {
        return Option::None;
    }
    let cl: usize = 4 * (clen64 as usize);
    let title = match decode_text(slice_subrange(b, 49, 49 + tl)) {
        Option::Some(s) => s,
        Option::None => {
            return Option::None;
        },
    };
    let description = match decode_text(slice_subrange(b, 57 + tl, 57 + tl + dl)) {
        Option::Some(s) => s,
        Option::None => {
            return Option::None;
        },
    };
    let creator = match decode_text(slice_subrange(b, 65 + tl + dl, 65 + tl + dl + cl)) {
        Option::Some(s) => s,
        Option::None => {
            return Option::None;
        },
    };
    let p = Proposal {
        id,
        title,
        description,
        votes_for,
        votes_against,
        creator,
        created_at,
        updated_at: if tag == 0 {
            Option::None
        } else {
            Option::Some(upd)
        },
    };
    proof {
        lemma_enc_dec_chars(b@.subrange(49, 49 + tl as int));
        lemma_enc_dec_chars(b@.subrange(57 + tl as int, 57 + tl as int + dl as int));
        lemma_enc_dec_chars(
            b@.subrange(65 + tl as int + dl as int, 65 + tl as int + dl as int + cl as int),
        );
        assert(view_wf(p@));
        assert(spec_decode(b@) == Some(p@));
    }
    Option::Some(p)
}

} // verus!
