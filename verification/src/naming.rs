//! File naming: which input files are eligible, and where each record goes —
//! `<cim|non_cim>/<input name with every ".gz" replaced by "_processed.gz">`,
//! relative to the output root.

use vstd::prelude::*;
use crate::route::Partition;
use crate::bytes::clone_bytes;

verus! {

/// The bytes of `.gz`.
pub open spec fn gz_suffix() -> Seq<u8> {
    seq![46u8, 103u8, 122u8]
}

/// The bytes of `_processed.gz`.
pub open spec fn processed_suffix() -> Seq<u8> {
    seq![95u8, 112u8, 114u8, 111u8, 99u8, 101u8, 115u8, 115u8, 101u8, 100u8, 46u8, 103u8, 122u8]
}

/// The bytes of `cim`.
pub open spec fn cim_dir() -> Seq<u8> {
    seq![99u8, 105u8, 109u8]
}

/// The bytes of `non_cim`.
pub open spec fn non_cim_dir() -> Seq<u8> {
    seq![110u8, 111u8, 110u8, 95u8, 99u8, 105u8, 109u8]
}

fn processed_suffix_bytes() -> (r: Vec<u8>)
    ensures
        r@ == processed_suffix(),
{
    let mut v: Vec<u8> = Vec::new();
    v.push(95);
    v.push(112);
    v.push(114);
    v.push(111);
    v.push(99);
    v.push(101);
    v.push(115);
    v.push(115);
    v.push(101);
    v.push(100);
    v.push(46);
    v.push(103);
    v.push(122);
    proof {
        assert(v@ =~= processed_suffix());
    }
    v
}

/// The name with every `.gz` replaced by `_processed.gz`, scanning left to
/// right without overlap — the substitution str::replace makes.
pub open spec fn replace_gz(s: Seq<u8>) -> Seq<u8>
    decreases s.len(),
{
    if s.len() >= 3 && s.take(3) == gz_suffix() {
        processed_suffix() + replace_gz(s.skip(3))
    } else if s.len() == 0 {
        s
    } else {
        seq![s[0]] + replace_gz(s.drop_first())
    }
}

/// Derives the output file name from the input file name.
pub fn output_name(name: &Vec<u8>) -> (r: Vec<u8>)
    ensures
        r@ == replace_gz(name@),
{
    let mut out: Vec<u8> = Vec::new();
    let mut i: usize = 0;
    proof {
        assert(name@.skip(0) =~= name@);
        assert(out@ + replace_gz(name@) =~= replace_gz(name@));
    }
    while i < name.len()
        invariant
            0 <= i <= name@.len(),
            replace_gz(name@) == out@ + replace_gz(name@.skip(i as int)),
        decreases name@.len() - i,
    {
        let ghost rem = name@.skip(i as int);
        if name.len() - i >= 3 && name[i] == 46 && name[i + 1] == 103 && name[i + 2] == 122 {
            proof {
                assert(rem.take(3) =~= gz_suffix());
                assert(rem.skip(3) =~= name@.skip(i as int + 3));
            }
            let rep = processed_suffix_bytes();
            crate::bytes::push_all(&mut out, &rep);
            i = i + 3;
        } else {
            proof {
                if rem.len() >= 3 && rem.take(3) == gz_suffix() {
                    assert(rem.take(3)[0] == 46 && rem.take(3)[1] == 103 && rem.take(3)[2]
                        == 122);
                    assert(false);
                }
                assert(rem[0] == name@[i as int]);
                assert(rem.drop_first() =~= name@.skip(i as int + 1));
            }
            out.push(name[i]);
            i = i + 1;
        }
    }
    proof {
        assert(name@.skip(name@.len() as int) =~= Seq::<u8>::empty());
    }
    out
}

/// The output directory of a partition.
pub open spec fn partition_dir(p: Partition) -> Seq<u8> {
    match p {
        Partition::Cim => cim_dir(),
        Partition::NonCim => non_cim_dir(),
    }
}

/// The output path, relative to the output root, for records of partition
/// `p` coming from input file `name`.
pub open spec fn dest_path(p: Partition, name: Seq<u8>) -> Seq<u8> {
    partition_dir(p) + seq![47u8] + replace_gz(name)
}

pub fn dest_path_bytes(p: Partition, name: &Vec<u8>) -> (r: Vec<u8>)
    ensures
        r@ == dest_path(p, name@),
{
    let mut v: Vec<u8> = Vec::new();
    match p {
        Partition::Cim => {
            v.push(99);
            v.push(105);
            v.push(109);
            proof {
                assert(v@ =~= cim_dir());
            }
        },
        Partition::NonCim => {
            v.push(110);
            v.push(111);
            v.push(110);
            v.push(95);
            v.push(99);
            v.push(105);
            v.push(109);
            proof {
                assert(v@ =~= non_cim_dir());
            }
        },
    }
    v.push(47);
    let rest = output_name(name);
    crate::bytes::push_all(&mut v, &rest);
    proof {
        assert(v@ =~= dest_path(p, name@));
    }
    v
}

/// The two partitions of one input file never share an output path.
pub proof fn lemma_dest_paths_differ(name: Seq<u8>)
    ensures
        dest_path(Partition::Cim, name) != dest_path(Partition::NonCim, name),
{
    assert(dest_path(Partition::Cim, name)[0] == 99);
    assert(dest_path(Partition::NonCim, name)[0] == 110);
}

/// Whether a file name ends with `.gz`, making it an eligible input.
pub open spec fn spec_eligible(name: Seq<u8>) -> bool {
    name.len() >= 3 && name.skip(name.len() - 3) == gz_suffix()
}

pub fn is_eligible(name: &Vec<u8>) -> (r: bool)
    ensures
        r == spec_eligible(name@),
{
    let n = name.len();
    if n < 3 {
        return false;
    }
    let r = name[n - 3] == 46 && name[n - 2] == 103 && name[n - 1] == 122;
    proof {
        let tail = name@.skip(name@.len() - 3);
        assert(tail.len() == 3);
        assert(tail[0] == name@[name@.len() - 3]);
        assert(tail[1] == name@[name@.len() - 2]);
        assert(tail[2] == name@[name@.len() - 1]);
        if r {
            assert(tail =~= gz_suffix());
        } else {
            assert(tail != gz_suffix());
        }
    }
    r
}

/// The eligible names among `names`, in their given order.
pub open spec fn spec_eligible_names(names: Seq<Seq<u8>>) -> Seq<Seq<u8>>
    decreases names.len(),
{
    if names.len() == 0 {
        Seq::empty()
    } else {
        spec_eligible_names(names.drop_last()) + (if spec_eligible(names.last()) {
            seq![names.last()]
        } else {
            Seq::empty()
        })
    }
}

/// Keeps exactly the names ending in `.gz`, in order: the dispatcher's
/// discovery filter.
pub fn filter_eligible(names: &Vec<Vec<u8>>) -> (r: Vec<Vec<u8>>)
    ensures
        r@.map_values(|v: Vec<u8>| v@) == spec_eligible_names(
            names@.map_values(|v: Vec<u8>| v@),
        ),
{
    let ghost nv = names@.map_values(|v: Vec<u8>| v@);
    let mut out: Vec<Vec<u8>> = Vec::new();
    let mut i: usize = 0;
    while i < names.len()
        invariant
            0 <= i <= names@.len(),
            nv == names@.map_values(|v: Vec<u8>| v@),
            out@.map_values(|v: Vec<u8>| v@) == spec_eligible_names(nv.take(i as int)),
        decreases names@.len() - i,
    {
        proof {
            assert(nv.take(i as int + 1).drop_last() =~= nv.take(i as int));
            assert(nv.take(i as int + 1).last() == nv[i as int]);
            assert(nv[i as int] == names@[i as int]@);
        }
        if is_eligible(&names[i]) {
            out.push(clone_bytes(&names[i]));
        }
        proof {
            assert(out@.map_values(|v: Vec<u8>| v@) =~= spec_eligible_names(
                nv.take(i as int + 1),
            ));
        }
        i = i + 1;
    }
    proof {
        assert(nv.take(nv.len() as int) =~= nv);
    }
    out
}

} // verus!
