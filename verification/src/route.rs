//! The partition router: a record goes to the `cim` partition exactly when
//! its `cimcompliance` field is the string `cim`, byte for byte; every other
//! record — other value, other case, other type, field absent, or a
//! non-object document — goes to `non_cim`.

use vstd::prelude::*;
use crate::record::{rec_get, get_field, Field, FieldV, Record, RecordV};
use crate::bytes::bytes_eq;

verus! {

#[derive(Debug, Clone, Copy, PartialEq, Eq, Structural)]
pub enum Partition {
    Cim,
    NonCim,
}

/// The bytes of the key `cimcompliance`.
pub open spec fn compliance_key() -> Seq<u8> {
    seq![99u8, 105u8, 109u8, 99u8, 111u8, 109u8, 112u8, 108u8, 105u8, 97u8, 110u8, 99u8, 101u8]
}

/// The bytes of the string `cim`.
pub open spec fn cim_text() -> Seq<u8> {
    seq![99u8, 105u8, 109u8]
}

pub fn compliance_key_bytes() -> (r: Vec<u8>)
    ensures
        r@ == compliance_key(),
{
    let mut v: Vec<u8> = Vec::new();
    v.push(99);
    v.push(105);
    v.push(109);
    v.push(99);
    v.push(111);
    v.push(109);
    v.push(112);
    v.push(108);
    v.push(105);
    v.push(97);
    v.push(110);
    v.push(99);
    v.push(101);
    proof {
        assert(v@ =~= compliance_key());
    }
    v
}

pub fn cim_text_bytes() -> (r: Vec<u8>)
    ensures
        r@ == cim_text(),
{
    let mut v: Vec<u8> = Vec::new();
    v.push(99);
    v.push(105);
    v.push(109);
    proof {
        assert(v@ =~= cim_text());
    }
    v
}

/// The partition a record belongs to.
pub open spec fn spec_route(r: RecordV) -> Partition {
    if rec_get(r, compliance_key()) == Some(FieldV::Text(cim_text())) {
        Partition::Cim
    } else {
        Partition::NonCim
    }
}

/// Routes a record: `Cim` exactly when the `cimcompliance` field is present
/// and is, by type and content, the string `cim`.
pub fn route(rec: &Record) -> (p: Partition)
    ensures
        p == spec_route(rec@),
        p == Partition::Cim <==> rec_get(rec@, compliance_key()) == Some(
            FieldV::Text(cim_text()),
        ),
{
    let key = compliance_key_bytes();
    match get_field(rec, &key) {
        Some(f) => match f {
            Field::Text(b) => {
                let c = cim_text_bytes();
                if bytes_eq(b, &c) {
                    Partition::Cim
                } else {
                    Partition::NonCim
                }
            },
            Field::Raw(_) => Partition::NonCim,
        },
        None => Partition::NonCim,
    }
}

} // verus!
