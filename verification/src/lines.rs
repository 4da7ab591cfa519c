//! Splitting decompressed text into lines, exactly as io::BufRead::lines
//! reads them: split at each newline byte, a carriage return directly before
//! the newline dropped, a final fragment without newline kept as it stands,
//! and no empty line after a trailing newline.

use vstd::prelude::*;
use crate::bytes::{spec_find, lemma_spec_find, copy_range};

verus! {

/// A line with a trailing carriage return dropped.
pub open spec fn strip_cr(l: Seq<u8>) -> Seq<u8> {
    if l.len() > 0 && l.last() == 13 {
        l.drop_last()
    } else {
        l
    }
}

/// The lines of a text.
pub open spec fn spec_lines(t: Seq<u8>) -> Seq<Seq<u8>>
    decreases t.len(),
    via spec_lines_dec
{
    if t.len() == 0 {
        Seq::empty()
    } else {
        match spec_find(t, 10) {
            Some(i) => seq![strip_cr(t.take(i))] + spec_lines(t.skip(i + 1)),
            None => seq![t],
        }
    }
}

#[via_fn]
proof fn spec_lines_dec(t: Seq<u8>) {
    lemma_spec_find(t, 10);
}

/// Splits a text into its lines.
pub fn split_lines(data: &Vec<u8>) -> (r: Vec<Vec<u8>>)
    ensures
        r@.map_values(|l: Vec<u8>| l@) == spec_lines(data@),
{
    let n = data.len();
    let mut out: Vec<Vec<u8>> = Vec::new();
    let mut pos: usize = 0;
    proof {
        assert(data@.skip(0) =~= data@);
        assert(out@.map_values(|l: Vec<u8>| l@) =~= Seq::<Seq<u8>>::empty());
        assert(Seq::<Seq<u8>>::empty() + spec_lines(data@) =~= spec_lines(data@));
    }
    while pos < n
        invariant
            0 <= pos <= n == data@.len(),
            spec_lines(data@) == out@.map_values(|l: Vec<u8>| l@) + spec_lines(
                data@.skip(pos as int),
            ),
        decreases n - pos,
    {
        let ghost rem = data@.skip(pos as int);
        let mut j: usize = pos;
        while j < n && data[j] != 10
            invariant
                pos <= j <= n == data@.len(),
                forall|k: int| pos <= k < j ==> data@[k] != 10,
            decreases n - j,
        {
            j = j + 1;
        }
        proof {
            lemma_spec_find(rem, 10);
            assert(forall|k: int| 0 <= k < rem.len() ==> rem[k] == data@[pos + k]);
        }
        if j < n {
            // newline at j; the line is data[pos..j] with a trailing CR dropped
            proof {
                assert(rem[j - pos] == 10);
                match spec_find(rem, 10) {
                    Some(fi) => {
                        assert(fi == j - pos);
                    },
                    None => {
                        assert(false);
                    },
                }
            }
            let end: usize = if j > pos && data[j - 1] == 13 {
                j - 1
            } else {
                j
            };
            let line = copy_range(data, pos, end);
            proof {
                assert(rem.take(j - pos) =~= data@.subrange(pos as int, j as int));
                if j > pos && data@[j - 1] == 13 {
                    assert(strip_cr(rem.take(j - pos)) =~= data@.subrange(
                        pos as int,
                        j - 1,
                    ));
                } else {
                    assert(strip_cr(rem.take(j - pos)) =~= data@.subrange(
                        pos as int,
                        j as int,
                    ));
                }
                assert(rem.skip(j - pos + 1) =~= data@.skip(j as int + 1));
            }
            out.push(line);
            proof {
                assert(out@.map_values(|l: Vec<u8>| l@) =~= out@.map_values(
                    |l: Vec<u8>| l@,
                ).drop_last().push(line@));
                assert(spec_lines(data@) == out@.map_values(|l: Vec<u8>| l@) + spec_lines(
                    data@.skip(j as int + 1),
                ));
            }
            pos = j + 1;
        } else {
            // no further newline: the rest is the final line, kept as it is
            proof {
                match spec_find(rem, 10) {
                    Some(fi) => {
                        assert(rem[fi] == 10);
                        assert(false);
                    },
                    None => {},
                }
                assert(spec_lines(rem) == seq![rem]);
            }
            let line = copy_range(data, pos, n);
            proof {
                assert(line@ =~= rem);
            }
            out.push(line);
            proof {
                assert(out@.map_values(|l: Vec<u8>| l@) =~= out@.map_values(
                    |l: Vec<u8>| l@,
                ).drop_last().push(line@));
                assert(data@.skip(n as int) =~= Seq::<u8>::empty());
                assert(spec_lines(data@) == out@.map_values(|l: Vec<u8>| l@) + spec_lines(
                    data@.skip(n as int),
                ));
            }
            pos = n;
        }
    }
    proof {
        assert(data@.skip(pos as int) =~= Seq::<u8>::empty());
        assert(out@.map_values(|l: Vec<u8>| l@) =~= spec_lines(data@));
    }
    out
}

} // verus!
