//! The per-file pipeline: decompress, decode each line, normalize its
//! timestamp, route it by compliance, and append its serialized form to the
//! partition's output sink; finally compress every sink. The whole run is a
//! function of the input file's name and bytes, pinned down by
//! `spec_outputs`.

use vstd::prelude::*;
use crate::record::RecordV;
use crate::codec::{json_decoded, decode_line};
use crate::gz::{gunzip_of, gzip_of, gzip_decompress};
use crate::lines::{spec_lines, split_lines};
use crate::normalize::{spec_normalize, normalize_timestamp};
use crate::route::{spec_route, route, Partition};
use crate::naming::{dest_path, dest_path_bytes, lemma_dest_paths_differ};
use crate::ser::{ser_record, serialize_record};
use crate::sink::{SinkPool, pool_append, pool_find, pool_lookup, lemma_pool_find};

verus! {

/// Why a file pipeline run aborted. Such a failure is file-fatal only:
/// sibling files are unaffected.
#[derive(Debug, Clone, Copy, PartialEq, Eq, Structural)]
pub enum PipelineError {
    /// The input is not a well-formed gzip stream.
    InvalidGzip,
}

/// The record an input line contributes, after normalization; a line that
/// fails decoding contributes nothing — it is skipped, never written.
pub open spec fn line_record(l: Seq<u8>) -> Option<RecordV> {
    match json_decoded(l) {
        Some(r) => Some(spec_normalize(r)),
        None => None,
    }
}

/// The records of a file, in input order, lines that fail decoding skipped.
pub open spec fn spec_records(lines: Seq<Seq<u8>>) -> Seq<RecordV>
    decreases lines.len(),
{
    if lines.len() == 0 {
        Seq::empty()
    } else {
        spec_records(lines.drop_last()) + (match line_record(lines.last()) {
            Some(r) => seq![r],
            None => Seq::<RecordV>::empty(),
        })
    }
}

/// How many lines of a file decode successfully.
pub open spec fn count_decoded(lines: Seq<Seq<u8>>) -> int
    decreases lines.len(),
{
    if lines.len() == 0 {
        0
    } else {
        count_decoded(lines.drop_last()) + (if json_decoded(lines.last()) is Some {
            1int
        } else {
            0int
        })
    }
}

/// One output line: the serialized record and a line terminator.
pub open spec fn out_line(r: RecordV) -> Seq<u8> {
    ser_record(r) + seq![10u8]
}

/// The sink pool after routing the records of input file `name`, in order.
pub open spec fn spec_pool(name: Seq<u8>, recs: Seq<RecordV>) -> Seq<(Seq<u8>, Seq<u8>)>
    decreases recs.len(),
{
    if recs.len() == 0 {
        Seq::empty()
    } else {
        pool_append(
            spec_pool(name, recs.drop_last()),
            dest_path(spec_route(recs.last()), name),
            out_line(recs.last()),
        )
    }
}

/// Everything one pipeline run writes for input file `name` with content
/// `data`: per output path, in order of first use, the gzip of the lines
/// routed there — or nothing, when the input is not a gzip stream.
pub open spec fn spec_outputs(name: Seq<u8>, data: Seq<u8>) -> Option<Seq<(Seq<u8>, Seq<u8>)>> {
    match gunzip_of(data) {
        Some(text) => Some(
            spec_pool(name, spec_records(spec_lines(text))).map_values(
                |e: (Seq<u8>, Seq<u8>)| (e.0, gzip_of(e.1)),
            ),
        ),
        None => None,
    }
}

/// Runs the pipeline of one input file on plain bytes and returns the
/// output files as (path relative to the output root, compressed content)
/// pairs; fails exactly when the input is not a gzip stream.
pub fn process_file_bytes(name: &Vec<u8>, data: &Vec<u8>) -> (r: Result<
    Vec<(Vec<u8>, Vec<u8>)>,
    PipelineError,
>)
    ensures
        match r {
            Ok(outs) => spec_outputs(name@, data@) == Some(
                outs@.map_values(|e: (Vec<u8>, Vec<u8>)| (e.0@, e.1@)),
            ),
            Err(e) => spec_outputs(name@, data@) is None && e == PipelineError::InvalidGzip,
        },
{
    let text = match gzip_decompress(data) {
        Some(t) => t,
        None => {
            return Err(PipelineError::InvalidGzip);
        },
    };
    let lines = split_lines(&text);
    let ghost lv = lines@.map_values(|l: Vec<u8>| l@);
    let mut pool = SinkPool::new();
    let mut i: usize = 0;
    proof {
        assert(lv.take(0) =~= Seq::<Seq<u8>>::empty());
    }
    while i < lines.len()
        invariant
            0 <= i <= lines@.len(),
            lv == lines@.map_values(|l: Vec<u8>| l@),
            pool@ == spec_pool(name@, spec_records(lv.take(i as int))),
        decreases lines@.len() - i,
    {
        proof {
            assert(lv.take(i as int + 1).drop_last() =~= lv.take(i as int));
            assert(lv.take(i as int + 1).last() == lv[i as int]);
            assert(lv[i as int] == lines@[i as int]@);
        }
        let ghost prev_recs = spec_records(lv.take(i as int));
        match decode_line(&lines[i]) {
            Some(mut rec) => {
                normalize_timestamp(&mut rec);
                let p = route(&rec);
                let path = dest_path_bytes(p, name);
                let mut line = serialize_record(&rec);
                line.push(10);
                proof {
                    assert(line@ =~= out_line(rec@));
                    assert(line_record(lv[i as int]) == Some(rec@));
                    assert(spec_records(lv.take(i as int + 1)) == prev_recs + seq![rec@]);
                    assert((prev_recs + seq![rec@]).drop_last() =~= prev_recs);
                    assert((prev_recs + seq![rec@]).last() == rec@);
                }
                pool.append(path, &line);
            },
            None => {
                proof {
                    assert(spec_records(lv.take(i as int + 1)) =~= prev_recs);
                }
            },
        }
        i = i + 1;
    }
    proof {
        assert(lv.take(lv.len() as int) =~= lv);
    }
    let outs = pool.finalize();
    proof {
        assert(spec_outputs(name@, data@) == Some(
            outs@.map_values(|e: (Vec<u8>, Vec<u8>)| (e.0@, e.1@)),
        ));
    }
    Ok(outs)
}

/// The records routed to partition `p`, in input order.
pub open spec fn routed(recs: Seq<RecordV>, p: Partition) -> Seq<RecordV>
    decreases recs.len(),
{
    if recs.len() == 0 {
        Seq::empty()
    } else {
        routed(recs.drop_last(), p) + (if spec_route(recs.last()) == p {
            seq![recs.last()]
        } else {
            Seq::<RecordV>::empty()
        })
    }
}

proof fn lemma_partition_split(recs: Seq<RecordV>)
    ensures
        routed(recs, Partition::Cim).len() + routed(recs, Partition::NonCim).len() == recs.len(),
    decreases recs.len(),
{
    if recs.len() > 0 {
        lemma_partition_split(recs.drop_last());
    }
}

proof fn lemma_records_count(lines: Seq<Seq<u8>>)
    ensures
        spec_records(lines).len() == count_decoded(lines),
    decreases lines.len(),
{
    if lines.len() > 0 {
        lemma_records_count(lines.drop_last());
    }
}

/// Record conservation: every input line that decodes reaches exactly one
/// of the two partitions, and a line that fails decoding reaches neither —
/// so the two partitions' record counts sum to the decoded-line count.
pub proof fn lemma_record_conservation(lines: Seq<Seq<u8>>)
    ensures
        routed(spec_records(lines), Partition::Cim).len() + routed(
            spec_records(lines),
            Partition::NonCim,
        ).len() == count_decoded(lines),
{
    lemma_partition_split(spec_records(lines));
    lemma_records_count(lines);
}

/// The lines of a sequence of records, concatenated in order.
pub open spec fn concat_lines(recs: Seq<RecordV>) -> Seq<u8>
    decreases recs.len(),
{
    if recs.len() == 0 {
        Seq::empty()
    } else {
        concat_lines(recs.drop_last()) + out_line(recs.last())
    }
}

/// What one run writes for partition `p` of input file `name` holding
/// `data`: when at least one record routed there, exactly one output file,
/// at the partition's path, holding the gzip of the routed records' lines in
/// input order; when none did, no file at that path — and no two output
/// files of a run ever share a path.
pub proof fn lemma_outputs_exact(name: Seq<u8>, data: Seq<u8>, text: Seq<u8>, p: Partition)
    requires
        gunzip_of(data) == Some(text),
    ensures
        ({
            let recs = spec_records(spec_lines(text));
            let outs = spec_pool(name, recs).map_values(
                |e: (Seq<u8>, Seq<u8>)| (e.0, gzip_of(e.1)),
            );
            spec_outputs(name, data) == Some(outs) && (if routed(recs, p).len() > 0 {
                exists|k: int|
                    0 <= k < outs.len() && #[trigger] outs[k] == (
                        dest_path(p, name),
                        gzip_of(concat_lines(routed(recs, p))),
                    )
            } else {
                forall|k: int| 0 <= k < outs.len() ==> (#[trigger] outs[k]).0 != dest_path(p, name)
            }) && (forall|k: int, l: int|
                0 <= k < l < outs.len() ==> (#[trigger] outs[k]).0 != (#[trigger] outs[l]).0)
        }),
{
    let recs = spec_records(spec_lines(text));
    let pool = spec_pool(name, recs);
    let outs = pool.map_values(|e: (Seq<u8>, Seq<u8>)| (e.0, gzip_of(e.1)));
    lemma_partition_file(name, recs, p);
    lemma_pool_find(pool, dest_path(p, name));
    assert(forall|k: int| 0 <= k < outs.len() ==> (#[trigger] outs[k]) == (
        pool[k].0,
        gzip_of(pool[k].1),
    ));
    if routed(recs, p).len() > 0 {
        match pool_find(pool, dest_path(p, name)) {
            Some(i) => {
                assert(outs[i] == (dest_path(p, name), gzip_of(concat_lines(routed(recs, p)))));
            },
            None => {
                assert(false);
            },
        }
    }
}

/// Per-partition output: within one run over one input file, each partition
/// has at most one sink; it exists exactly when a record routed there; its
/// contents are the routed records' lines in input order; and no two sinks
/// share a path.
pub proof fn lemma_partition_file(name: Seq<u8>, recs: Seq<RecordV>, p: Partition)
    ensures
        pool_lookup(spec_pool(name, recs), dest_path(p, name)) == (if routed(recs, p).len()
            == 0 {
            None::<Seq<u8>>
        } else {
            Some(concat_lines(routed(recs, p)))
        }),
        forall|k: int|
            0 <= k < spec_pool(name, recs).len() ==> (#[trigger] spec_pool(name, recs)[k].0
                == dest_path(Partition::Cim, name) || spec_pool(name, recs)[k].0 == dest_path(
                Partition::NonCim,
                name,
            )),
        forall|k: int, l: int|
            0 <= k < l < spec_pool(name, recs).len() ==> spec_pool(name, recs)[k].0
                != spec_pool(name, recs)[l].0,
    decreases recs.len(),
{
    lemma_dest_paths_differ(name);
    if recs.len() == 0 {
        lemma_pool_find(spec_pool(name, recs), dest_path(p, name));
    } else {
        let prev = spec_pool(name, recs.drop_last());
        let last = recs.last();
        let q = spec_route(last);
        let qpath = dest_path(q, name);
        let cur = pool_append(prev, qpath, out_line(last));
        lemma_partition_file(name, recs.drop_last(), p);
        lemma_partition_file(name, recs.drop_last(), q);
        lemma_pool_find(prev, qpath);
        lemma_pool_find(prev, dest_path(p, name));
        lemma_pool_find(cur, dest_path(p, name));
        match pool_find(prev, qpath) {
            Some(k) => {
                assert(cur =~= prev.update(k, (prev[k].0, prev[k].1 + out_line(last))));
                assert(forall|j: int| 0 <= j < cur.len() ==> cur[j].0 == prev[j].0);
                if p == q {
                    assert(routed(recs, p) == routed(recs.drop_last(), p) + seq![last]);
                    assert(routed(recs.drop_last(), p).len() > 0);
                    assert(concat_lines(routed(recs, p)) == concat_lines(
                        routed(recs, p).drop_last(),
                    ) + out_line(last));
                    assert(routed(recs, p).drop_last() =~= routed(recs.drop_last(), p));
                    match pool_find(cur, dest_path(p, name)) {
                        Some(m) => {
                            assert(m == k);
                        },
                        None => {
                            assert(cur[k].0 == qpath);
                            assert(false);
                        },
                    }
                } else {
                    assert(dest_path(p, name) != qpath);
                    assert(routed(recs, p) =~= routed(recs.drop_last(), p));
                    match pool_find(prev, dest_path(p, name)) {
                        Some(m) => {
                            assert(m != k);
                            match pool_find(cur, dest_path(p, name)) {
                                Some(m2) => {
                                    assert(m2 == m);
                                    assert(cur[m2].1 == prev[m].1);
                                },
                                None => {
                                    assert(cur[m].0 == dest_path(p, name));
                                    assert(false);
                                },
                            }
                        },
                        None => {
                            match pool_find(cur, dest_path(p, name)) {
                                Some(m2) => {
                                    assert(prev[m2].0 == dest_path(p, name));
                                    assert(false);
                                },
                                None => {},
                            }
                        },
                    }
                }
            },
            None => {
                assert(cur =~= prev.push((qpath, out_line(last))));
                assert(forall|j: int| 0 <= j < prev.len() ==> cur[j] == prev[j]);
                assert(cur[prev.len() as int].0 == qpath);
                // the new sink's path collides with no older one
                assert(forall|j: int| 0 <= j < prev.len() ==> cur[j].0 != qpath);
                if p == q {
                    assert(routed(recs, p) == routed(recs.drop_last(), p) + seq![last]);
                    // the q-partition had no sink yet, so it had no records either
                    assert(routed(recs.drop_last(), p).len() == 0);
                    assert(routed(recs, p) =~= seq![last]);
                    assert(seq![last].drop_last() =~= Seq::<RecordV>::empty());
                    assert(concat_lines(seq![last]) == concat_lines(Seq::<RecordV>::empty())
                        + out_line(last));
                    assert(Seq::<u8>::empty() + out_line(last) =~= out_line(last));
                    match pool_find(cur, dest_path(p, name)) {
                        Some(m) => {
                            assert(m == prev.len());
                        },
                        None => {
                            assert(cur[prev.len() as int].0 == qpath);
                            assert(false);
                        },
                    }
                } else {
                    assert(routed(recs, p) =~= routed(recs.drop_last(), p));
                    match pool_find(cur, dest_path(p, name)) {
                        Some(m2) => {
                            assert(m2 < prev.len());
                            match pool_find(prev, dest_path(p, name)) {
                                Some(m) => {
                                    assert(m == m2);
                                },
                                None => {
                                    assert(prev[m2].0 == dest_path(p, name));
                                    assert(false);
                                },
                            }
                        },
                        None => {
                            match pool_find(prev, dest_path(p, name)) {
                                Some(m) => {
                                    assert(cur[m].0 == dest_path(p, name));
                                    assert(false);
                                },
                                None => {},
                            }
                        },
                    }
                }
            },
        }
    }
}

} // verus!
