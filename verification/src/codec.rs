//! Decoding one input line with serde_json. The parse result is converted
//! into the record model; what the parser yields for given bytes is named by
//! `json_decoded`, since it is a function of the line alone.

use vstd::prelude::*;
use crate::record::{Field, Record, RecordV};

verus! {

#[verifier::external_type_specification]
#[verifier::external_body]
pub struct ExValue(serde_json::Value);

/// What serde_json's parser yields for one line of bytes, converted into
/// the record model; `None` when the line is not a valid JSON document.
pub uninterp spec fn json_decoded(line: Seq<u8>) -> Option<RecordV>;

/// Relies on serde_json::from_slice::<Value>: a deterministic parse of one
/// line of bytes, `Err` exactly when the bytes are not one valid JSON
/// document (invalid UTF-8 included).
#[verifier::external_body]
pub(crate) fn decode_line(line: &Vec<u8>) -> (r: Option<Record>)
    ensures
        match r {
            Some(rec) => json_decoded(line@) == Some(rec@),
            None => json_decoded(line@) is None,
        },
{
    match serde_json::from_slice::<serde_json::Value>(line.as_slice()) {
        Ok(v) => Some(value_to_record(v)),
        Err(_) => None,
    }
}

/// Relies on serde_json::Value: moves a parsed document into the record
/// model one variant at a time. A non-object document is carried as the text
/// serde_json::to_string writes for it (which never fails for a Value).
#[verifier::external_body]
fn value_to_record(v: serde_json::Value) -> Record {
    match v {
        serde_json::Value::Object(m) => Record::Obj(
            m.into_iter().map(|(k, fv)| (k.into_bytes(), value_to_field(fv))).collect(),
        ),
        other => Record::Other(serde_json::to_string(&other).unwrap().into_bytes()),
    }
}

/// Relies on serde_json::Value and serde_json::to_string, as above: a string
/// value keeps its content bytes, any other value is carried serialized.
#[verifier::external_body]
fn value_to_field(v: serde_json::Value) -> Field {
    match v {
        serde_json::Value::String(s) => Field::Text(s.into_bytes()),
        other => Field::Raw(serde_json::to_string(&other).unwrap().into_bytes()),
    }
}

} // verus!
