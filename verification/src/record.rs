//! The record model: one decoded input line. A record is either a JSON
//! object — an ordered list of fields — or any other JSON document, carried
//! opaquely as its serialized text. A field value is either a JSON string
//! (its content bytes) or any other JSON value, again carried as its
//! serialized text. This holds as plain bytes exactly what the pipeline
//! reads and writes; nested structure passes through untouched.

use vstd::prelude::*;
use crate::bytes::{bytes_eq, clone_bytes};

verus! {

/// One field value of a record.
#[derive(Debug, Clone, PartialEq, Eq)]
pub enum Field {
    /// A JSON string value: the content bytes (unescaped).
    Text(Vec<u8>),
    /// Any other JSON value (number, bool, null, array, object): its
    /// serialized bytes.
    Raw(Vec<u8>),
}

/// One decoded input line.
#[derive(Debug, Clone, PartialEq, Eq)]
pub enum Record {
    /// A top-level JSON object: fields in order.
    Obj(Vec<(Vec<u8>, Field)>),
    /// Any other top-level JSON document: its serialized bytes.
    Other(Vec<u8>),
}

/// Mathematical view of a field value.
pub enum FieldV {
    Text(Seq<u8>),
    Raw(Seq<u8>),
}

/// Mathematical view of a record.
pub enum RecordV {
    Obj(Seq<(Seq<u8>, FieldV)>),
    Other(Seq<u8>),
}

impl View for Field {
    type V = FieldV;

    open spec fn view(&self) -> FieldV {
        match self {
            Field::Text(b) => FieldV::Text(b@),
            Field::Raw(b) => FieldV::Raw(b@),
        }
    }
}

impl View for Record {
    type V = RecordV;

    open spec fn view(&self) -> RecordV {
        match self {
            Record::Obj(es) => RecordV::Obj(
                es@.map_values(|e: (Vec<u8>, Field)| (e.0@, e.1@)),
            ),
            Record::Other(b) => RecordV::Other(b@),
        }
    }
}

/// Index of the first field named `key`, if any.
pub open spec fn entries_find(es: Seq<(Seq<u8>, FieldV)>, key: Seq<u8>) -> Option<int>
    decreases es.len(),
{
    if es.len() == 0 {
        None
    } else if es[0].0 == key {
        Some(0)
    } else {
        match entries_find(es.drop_first(), key) {
            Some(j) => Some(j + 1),
            None => None,
        }
    }
}

/// `entries_find` returns the first field position named `key`, or `None`
/// when no field has that name.
pub proof fn lemma_entries_find(es: Seq<(Seq<u8>, FieldV)>, key: Seq<u8>)
    ensures
        match entries_find(es, key) {
            Some(i) => 0 <= i < es.len() && es[i].0 == key && (forall|j: int|
                0 <= j < i ==> es[j].0 != key),
            None => forall|j: int| 0 <= j < es.len() ==> es[j].0 != key,
        },
    decreases es.len(),
{
    if es.len() > 0 && es[0].0 != key {
        lemma_entries_find(es.drop_first(), key);
        assert(forall|j: int| 1 <= j < es.len() ==> es[j] == es.drop_first()[j - 1]);
    }
}

/// Value of the first field named `key`, if any; `None` on a non-object
/// record.
pub open spec fn rec_get(r: RecordV, key: Seq<u8>) -> Option<FieldV> {
    match r {
        RecordV::Obj(es) => match entries_find(es, key) {
            Some(i) => Some(es[i].1),
            None => None,
        },
        RecordV::Other(_) => None,
    }
}

/// The record with field `key` set to `v`: the first field of that name is
/// overwritten in place, or a new field is appended; a non-object record is
/// unchanged.
pub open spec fn rec_set(r: RecordV, key: Seq<u8>, v: FieldV) -> RecordV {
    match r {
        RecordV::Obj(es) => match entries_find(es, key) {
            Some(i) => RecordV::Obj(es.update(i, (es[i].0, v))),
            None => RecordV::Obj(es.push((key, v))),
        },
        RecordV::Other(_) => r,
    }
}

/// Setting a field then reading it back yields the written value.
pub proof fn lemma_rec_set_get(r: RecordV, key: Seq<u8>, v: FieldV)
    requires
        r is Obj,
    ensures
        rec_get(rec_set(r, key, v), key) == Some(v),
{
    match r {
        RecordV::Obj(es) => {
            lemma_entries_find(es, key);
            match entries_find(es, key) {
                Some(i) => {
                    let es2 = es.update(i, (es[i].0, v));
                    lemma_entries_find(es2, key);
                    match entries_find(es2, key) {
                        Some(k) => {
                            assert(es2[i].0 == key);
                            assert(forall|j: int| 0 <= j < i ==> es2[j].0 == es[j].0);
                            assert(k == i);
                        },
                        None => {
                            assert(es2[i].0 == key);
                            assert(false);
                        },
                    }
                },
                None => {
                    let es2 = es.push((key, v));
                    lemma_entries_find(es2, key);
                    match entries_find(es2, key) {
                        Some(k) => {
                            assert(forall|j: int| 0 <= j < es.len() ==> es2[j] == es[j]);
                            assert(k == es.len());
                        },
                        None => {
                            assert(es2[es.len() as int].0 == key);
                            assert(false);
                        },
                    }
                },
            }
        },
        RecordV::Other(_) => {},
    }
}

/// Setting one field leaves every other field unchanged.
pub proof fn lemma_rec_set_other(r: RecordV, key: Seq<u8>, v: FieldV, other: Seq<u8>)
    requires
        other != key,
    ensures
        rec_get(rec_set(r, key, v), other) == rec_get(r, other),
{
    match r {
        RecordV::Obj(es) => {
            lemma_entries_find(es, key);
            lemma_entries_find(es, other);
            match entries_find(es, key) {
                Some(i) => {
                    let es2 = es.update(i, (es[i].0, v));
                    lemma_entries_find(es2, other);
                    assert(forall|j: int| 0 <= j < es.len() && j != i ==> es2[j] == es[j]);
                    assert(es2[i].0 == es[i].0);
                },
                None => {
                    let es2 = es.push((key, v));
                    lemma_entries_find(es2, other);
                    assert(forall|j: int| 0 <= j < es.len() ==> es2[j] == es[j]);
                },
            }
        },
        RecordV::Other(_) => {},
    }
}

/// Reads the first field named `key`, scanning in order.
pub fn get_field<'a>(rec: &'a Record, key: &Vec<u8>) -> (r: Option<&'a Field>)
    ensures
        match r {
            Some(f) => rec_get(rec@, key@) == Some(f@),
            None => rec_get(rec@, key@) is None,
        },
{
    match rec {
        Record::Obj(es) => {
            let ghost esv = es@.map_values(|e: (Vec<u8>, Field)| (e.0@, e.1@));
            let mut i: usize = 0;
            while i < es.len()
                invariant
                    0 <= i <= es@.len(),
                    esv == es@.map_values(|e: (Vec<u8>, Field)| (e.0@, e.1@)),
                    rec@ == RecordV::Obj(esv),
                    forall|j: int| 0 <= j < i ==> esv[j].0 != key@,
                decreases es@.len() - i,
            {
                if bytes_eq(&es[i].0, key) {
                    proof {
                        lemma_entries_find(esv, key@);
                        assert(esv[i as int].0 == key@);
                        assert(entries_find(esv, key@) == Some(i as int));
                    }
                    return Some(&es[i].1);
                }
                proof {
                    assert(esv[i as int].0 == es@[i as int].0@);
                }
                i = i + 1;
            }
            proof {
                lemma_entries_find(esv, key@);
            }
            None
        },
        Record::Other(_) => None,
    }
}

/// Sets field `key` to `v`, overwriting the first field of that name or
/// appending a new one; leaves a non-object record unchanged.
pub fn set_field(rec: &mut Record, key: Vec<u8>, v: Field)
    ensures
        final(rec)@ == rec_set(old(rec)@, key@, v@),
{
    match rec {
        Record::Obj(es) => {
            let ghost esv = es@.map_values(|e: (Vec<u8>, Field)| (e.0@, e.1@));
            proof {
                assert(old(rec)@ == RecordV::Obj(esv));
            }
            let mut i: usize = 0;
            let n = es.len();
            let mut found: Option<usize> = None;
            while i < n
                invariant
                    0 <= i <= n == es@.len(),
                    esv == es@.map_values(|e: (Vec<u8>, Field)| (e.0@, e.1@)),
                    match found {
                        Some(k) => 0 <= k < es@.len() && entries_find(esv, key@) == Some(
                            k as int,
                        ),
                        None => forall|j: int| 0 <= j < i ==> esv[j].0 != key@,
                    },
                    found is Some ==> i == n,
                decreases n - i,
            {
                if bytes_eq(&es[i].0, &key) {
                    proof {
                        lemma_entries_find(esv, key@);
                        assert(esv[i as int].0 == key@);
                        assert(entries_find(esv, key@) == Some(i as int));
                    }
                    found = Some(i);
                    i = n;
                } else {
                    proof {
                        assert(esv[i as int].0 == es@[i as int].0@);
                    }
                    i = i + 1;
                }
            }
            match found {
                Some(k) => {
                    let e = &mut es[k];
                    e.1 = v;
                    proof {
                        let es2 = es@.map_values(|e: (Vec<u8>, Field)| (e.0@, e.1@));
                        assert(es2 =~= esv.update(k as int, (esv[k as int].0, v@)));
                    }
                },
                None => {
                    proof {
                        lemma_entries_find(esv, key@);
                    }
                    es.push((key, v));
                    proof {
                        let es2 = es@.map_values(|e: (Vec<u8>, Field)| (e.0@, e.1@));
                        assert(es2 =~= esv.push((key@, v@)));
                    }
                },
            }
        },
        Record::Other(_) => {},
    }
}

/// Copies the content bytes of a `Text` field, if the field is one.
pub fn field_text(f: &Field) -> (r: Option<Vec<u8>>)
    ensures
        match r {
            Some(b) => f@ == FieldV::Text(b@),
            None => !(f@ is Text),
        },
{
    match f {
        Field::Text(b) => Some(clone_bytes(b)),
        Field::Raw(_) => None,
    }
}

} // verus!
