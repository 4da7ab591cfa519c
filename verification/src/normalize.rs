//! The timestamp normalizer. When a record's `raw` field is a string whose
//! leading comma-segment parses as a representable epoch-seconds value, the
//! record's `timestamp` field is set to the epoch-milliseconds (exactly
//! seconds * 1000); on any malformed or missing input the record passes
//! through completely unchanged — it is never dropped here.

use vstd::prelude::*;
use crate::record::{
    rec_get, rec_set, get_field, field_text, set_field, Field, FieldV, Record, RecordV,
    lemma_rec_set_get,
};
use crate::bytes::{spec_find, lemma_spec_find, find_byte, copy_range};
use crate::numtext::{
    parse_i64_spec, parse_i64, dec_of, i64_to_dec, lemma_parse_dec_roundtrip,
    lemma_dec_of_no_comma,
};
use crate::clock::{spec_epoch_millis, utc_epoch_millis, MIN_EPOCH_SECS, MAX_EPOCH_SECS};

verus! {

/// The bytes of the key `raw`.
pub open spec fn raw_key() -> Seq<u8> {
    seq![114u8, 97u8, 119u8]
}

/// The bytes of the key `timestamp`.
pub open spec fn timestamp_key() -> Seq<u8> {
    seq![116u8, 105u8, 109u8, 101u8, 115u8, 116u8, 97u8, 109u8, 112u8]
}

pub fn raw_key_bytes() -> (r: Vec<u8>)
    ensures
        r@ == raw_key(),
{
    let mut v: Vec<u8> = Vec::new();
    v.push(114);
    v.push(97);
    v.push(119);
    proof {
        assert(v@ =~= raw_key());
    }
    v
}

pub fn timestamp_key_bytes() -> (r: Vec<u8>)
    ensures
        r@ == timestamp_key(),
{
    let mut v: Vec<u8> = Vec::new();
    v.push(116);
    v.push(105);
    v.push(109);
    v.push(101);
    v.push(115);
    v.push(116);
    v.push(97);
    v.push(109);
    v.push(112);
    proof {
        assert(v@ =~= timestamp_key());
    }
    v
}

/// The epoch-seconds value embedded in a record: the leading comma-segment
/// of its `raw` string field, when that segment parses as an `i64`.
pub open spec fn raw_secs(r: RecordV) -> Option<i64> {
    match rec_get(r, raw_key()) {
        Some(FieldV::Text(b)) => match spec_find(b, 44) {
            Some(i) => parse_i64_spec(b.take(i)),
            None => None,
        },
        _ => None,
    }
}

/// A record after timestamp normalization.
pub open spec fn spec_normalize(r: RecordV) -> RecordV {
    match raw_secs(r) {
        Some(secs) => match spec_epoch_millis(secs) {
            Some(ms) => rec_set(r, timestamp_key(), FieldV::Raw(dec_of(ms as int))),
            None => r,
        },
        None => r,
    }
}

/// Normalizes a record's timestamp in place.
pub fn normalize_timestamp(rec: &mut Record)
    ensures
        final(rec)@ == spec_normalize(old(rec)@),
{
    let rkey = raw_key_bytes();
    let millis: Option<i64> = match get_field(rec, &rkey) {
        Some(f) => match field_text(f) {
            Some(b) => match find_byte(&b, 44) {
                Some(i) => {
                    proof {
                        lemma_spec_find(b@, 44);
                    }
                    let cand = copy_range(&b, 0, i);
                    proof {
                        assert(cand@ =~= b@.take(i as int));
                    }
                    match parse_i64(&cand) {
                        Some(secs) => utc_epoch_millis(secs),
                        None => None,
                    }
                },
                None => None,
            },
            None => None,
        },
        None => None,
    };
    match millis {
        Some(ms) => {
            let txt = i64_to_dec(ms);
            let tkey = timestamp_key_bytes();
            set_field(rec, tkey, Field::Raw(txt));
        },
        None => {},
    }
}

/// For every representable epoch-seconds value `s`, normalizing a record
/// whose `raw` field is the string `<s>,<anything>` sets its `timestamp`
/// field to exactly `s * 1000`.
pub proof fn lemma_normalize_epoch(r: RecordV, s: i64, rest: Seq<u8>)
    requires
        rec_get(r, raw_key()) == Some(FieldV::Text(dec_of(s as int) + seq![44u8] + rest)),
        MIN_EPOCH_SECS <= s <= MAX_EPOCH_SECS,
    ensures
        rec_get(spec_normalize(r), timestamp_key()) == Some(
            FieldV::Raw(dec_of(s as int * 1000)),
        ),
{
    let d = dec_of(s as int);
    let b = d + seq![44u8] + rest;
    let n = d.len() as int;
    lemma_dec_of_no_comma(s as int);
    lemma_spec_find(b, 44);
    assert(b[n] == 44);
    assert(forall|j: int| 0 <= j < n ==> b[j] == d[j]);
    match spec_find(b, 44) {
        Some(i) => {
            assert(i == n);
        },
        None => {
            assert(false);
        },
    }
    assert(b.take(n) =~= d);
    lemma_parse_dec_roundtrip(s);
    assert(raw_secs(r) == Some(s));
    let ms = (s as int * 1000) as i64;
    assert(ms as int == s as int * 1000);
    assert(r is Obj);
    lemma_rec_set_get(r, timestamp_key(), FieldV::Raw(dec_of(ms as int)));
}

/// A record whose `raw` field is absent, not a string, comma-less, or whose
/// leading comma-segment is not a representable epoch-seconds value, passes
/// through normalization completely unchanged — it is never dropped.
pub proof fn lemma_normalize_passthrough(r: RecordV)
    requires
        match raw_secs(r) {
            Some(secs) => spec_epoch_millis(secs) is None,
            None => true,
        },
    ensures
        spec_normalize(r) == r,
{
}

} // verus!
