//! Verified serialization of records back to one line of JSON text, byte for
//! byte the form serde_json writes: object fields in order, strings escaped
//! (`"` and `\` backslashed, the five short control escapes, other control
//! bytes as `\u00xy` with lowercase hex), everything else copied through.

use vstd::prelude::*;
use crate::record::{Field, FieldV, Record, RecordV};
use crate::bytes::{push_all, clone_bytes};

verus! {

pub open spec fn hex_digit(n: u8) -> u8
    recommends
        n < 16,
{
    if n < 10 {
        (48 + n) as u8
    } else {
        (87 + n) as u8
    }
}

/// The bytes written for one content byte of a JSON string.
pub open spec fn esc_byte(b: u8) -> Seq<u8> {
    if b == 34 {
        seq![92u8, 34u8]
    } else if b == 92 {
        seq![92u8, 92u8]
    } else if b == 8 {
        seq![92u8, 98u8]
    } else if b == 9 {
        seq![92u8, 116u8]
    } else if b == 10 {
        seq![92u8, 110u8]
    } else if b == 12 {
        seq![92u8, 102u8]
    } else if b == 13 {
        seq![92u8, 114u8]
    } else if b < 32 {
        seq![92u8, 117u8, 48u8, 48u8, hex_digit(b / 16), hex_digit(b % 16)]
    } else {
        seq![b]
    }
}

pub open spec fn esc_bytes(s: Seq<u8>) -> Seq<u8>
    decreases s.len(),
{
    if s.len() == 0 {
        Seq::empty()
    } else {
        esc_bytes(s.drop_last()) + esc_byte(s.last())
    }
}

/// A JSON string literal: quote, escaped content, quote.
pub open spec fn ser_string(s: Seq<u8>) -> Seq<u8> {
    seq![34u8] + esc_bytes(s) + seq![34u8]
}

pub open spec fn ser_field(f: FieldV) -> Seq<u8> {
    match f {
        FieldV::Text(b) => ser_string(b),
        FieldV::Raw(b) => b,
    }
}

pub open spec fn ser_entry(e: (Seq<u8>, FieldV)) -> Seq<u8> {
    ser_string(e.0) + seq![58u8] + ser_field(e.1)
}

pub open spec fn ser_entries(es: Seq<(Seq<u8>, FieldV)>) -> Seq<u8>
    decreases es.len(),
{
    if es.len() == 0 {
        Seq::empty()
    } else if es.len() == 1 {
        ser_entry(es[0])
    } else {
        ser_entries(es.drop_last()) + seq![44u8] + ser_entry(es.last())
    }
}

/// One line of output text for a record (without the line terminator).
pub open spec fn ser_record(r: RecordV) -> Seq<u8> {
    match r {
        RecordV::Obj(es) => seq![123u8] + ser_entries(es) + seq![125u8],
        RecordV::Other(b) => b,
    }
}

fn push_escaped(out: &mut Vec<u8>, s: &Vec<u8>)
    ensures
        final(out)@ == old(out)@ + esc_bytes(s@),
{
    let mut i: usize = 0;
    while i < s.len()
        invariant
            0 <= i <= s@.len(),
            out@ == old(out)@ + esc_bytes(s@.take(i as int)),
        decreases s@.len() - i,
    {
        let b = s[i];
        proof {
            assert(s@.take(i as int + 1).drop_last() =~= s@.take(i as int));
            assert(s@.take(i as int + 1).last() == b);
        }
        if b == 34 {
            out.push(92);
            out.push(34);
        } else if b == 92 {
            out.push(92);
            out.push(92);
        } else if b == 8 {
            out.push(92);
            out.push(98);
        } else if b == 9 {
            out.push(92);
            out.push(116);
        } else if b == 10 {
            out.push(92);
            out.push(110);
        } else if b == 12 {
            out.push(92);
            out.push(102);
        } else if b == 13 {
            out.push(92);
            out.push(114);
        } else if b < 32 {
            let hi: u8 = b / 16;
            let lo: u8 = b % 16;
            let hd: u8 = if hi < 10 {
                48 + hi
            } else {
                87 + hi
            };
            let ld: u8 = if lo < 10 {
                48 + lo
            } else {
                87 + lo
            };
            out.push(92);
            out.push(117);
            out.push(48);
            out.push(48);
            out.push(hd);
            out.push(ld);
        } else {
            out.push(b);
        }
        proof {
            assert(out@ =~= old(out)@ + esc_bytes(s@.take(i as int + 1)));
        }
        i = i + 1;
    }
    proof {
        assert(s@.take(s@.len() as int) =~= s@);
    }
}

fn push_ser_string(out: &mut Vec<u8>, s: &Vec<u8>)
    ensures
        final(out)@ == old(out)@ + ser_string(s@),
{
    out.push(34);
    push_escaped(out, s);
    out.push(34);
    proof {
        assert(out@ =~= old(out)@ + ser_string(s@));
    }
}

fn push_ser_field(out: &mut Vec<u8>, f: &Field)
    ensures
        final(out)@ == old(out)@ + ser_field(f@),
{
    match f {
        Field::Text(b) => push_ser_string(out, b),
        Field::Raw(b) => push_all(out, b),
    }
}

/// Serializes a record to one line of JSON text.
pub fn serialize_record(rec: &Record) -> (r: Vec<u8>)
    ensures
        r@ == ser_record(rec@),
{
    match rec {
        Record::Obj(es) => {
            let ghost esv = es@.map_values(|e: (Vec<u8>, Field)| (e.0@, e.1@));
            let mut out: Vec<u8> = Vec::new();
            out.push(123);
            let mut i: usize = 0;
            while i < es.len()
                invariant
                    0 <= i <= es@.len(),
                    esv == es@.map_values(|e: (Vec<u8>, Field)| (e.0@, e.1@)),
                    out@ == seq![123u8] + ser_entries(esv.take(i as int)),
                decreases es@.len() - i,
            {
                proof {
                    assert(esv.take(i as int + 1).drop_last() =~= esv.take(i as int));
                    assert(esv.take(i as int + 1).last() == esv[i as int]);
                    assert(esv[i as int] == (es@[i as int].0@, es@[i as int].1@));
                }
                if i > 0 {
                    out.push(44);
                }
                push_ser_string(&mut out, &es[i].0);
                out.push(58);
                push_ser_field(&mut out, &es[i].1);
                proof {
                    assert(out@ =~= seq![123u8] + ser_entries(esv.take(i as int + 1)));
                }
                i = i + 1;
            }
            out.push(125);
            proof {
                assert(esv.take(esv.len() as int) =~= esv);
                assert(out@ =~= ser_record(rec@));
            }
            out
        },
        Record::Other(b) => {
            let r = clone_bytes(b);
            r
        },
    }
}

} // verus!
