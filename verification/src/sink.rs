//! The output sink pool of one file-pipeline run: per output path, one
//! buffer that records are appended to in order. A path's buffer is created
//! on its first use and never twice; finalizing compresses every buffer.
//! The pool is owned by a single pipeline invocation and never shared.

use vstd::prelude::*;
use crate::bytes::{bytes_eq, push_all, clone_bytes};
use crate::gz::{gzip_of, gzip_compress};

verus! {

/// The open sinks of one pipeline run: (output path, buffered contents),
/// in order of first use.
pub struct SinkPool {
    entries: Vec<(Vec<u8>, Vec<u8>)>,
}

impl View for SinkPool {
    type V = Seq<(Seq<u8>, Seq<u8>)>;

    closed spec fn view(&self) -> Seq<(Seq<u8>, Seq<u8>)> {
        self.entries@.map_values(|e: (Vec<u8>, Vec<u8>)| (e.0@, e.1@))
    }
}

/// Index of the first sink with path `path`, if one is open.
pub open spec fn pool_find(s: Seq<(Seq<u8>, Seq<u8>)>, path: Seq<u8>) -> Option<int>
    decreases s.len(),
{
    if s.len() == 0 {
        None
    } else if s[0].0 == path {
        Some(0)
    } else {
        match pool_find(s.drop_first(), path) {
            Some(j) => Some(j + 1),
            None => None,
        }
    }
}

/// `pool_find` returns the first position with the path, or `None` when no
/// sink has it.
pub proof fn lemma_pool_find(s: Seq<(Seq<u8>, Seq<u8>)>, path: Seq<u8>)
    ensures
        match pool_find(s, path) {
            Some(i) => 0 <= i < s.len() && s[i].0 == path && (forall|j: int|
                0 <= j < i ==> s[j].0 != path),
            None => forall|j: int| 0 <= j < s.len() ==> s[j].0 != path,
        },
    decreases s.len(),
{
    if s.len() > 0 && s[0].0 != path {
        lemma_pool_find(s.drop_first(), path);
        assert(forall|j: int| 1 <= j < s.len() ==> s[j] == s.drop_first()[j - 1]);
    }
}

/// Contents buffered so far for the sink at `path`, if one is open.
pub open spec fn pool_lookup(s: Seq<(Seq<u8>, Seq<u8>)>, path: Seq<u8>) -> Option<Seq<u8>> {
    match pool_find(s, path) {
        Some(i) => Some(s[i].1),
        None => None,
    }
}

/// The pool after appending `data` to the sink at `path`: the first sink
/// with that path is extended in place, or a new sink is opened at the end.
pub open spec fn pool_append(
    s: Seq<(Seq<u8>, Seq<u8>)>,
    path: Seq<u8>,
    data: Seq<u8>,
) -> Seq<(Seq<u8>, Seq<u8>)> {
    match pool_find(s, path) {
        Some(i) => s.update(i, (s[i].0, s[i].1 + data)),
        None => s.push((path, data)),
    }
}

impl SinkPool {
    pub fn new() -> (r: SinkPool)
        ensures
            r@ == Seq::<(Seq<u8>, Seq<u8>)>::empty(),
    {
        let r = SinkPool { entries: Vec::new() };
        proof {
            assert(r@ =~= Seq::<(Seq<u8>, Seq<u8>)>::empty());
        }
        r
    }

    /// Appends `data` to the sink at `path`, opening it on first use.
    pub fn append(&mut self, path: Vec<u8>, data: &Vec<u8>)
        ensures
            final(self)@ == pool_append(old(self)@, path@, data@),
    {
        let ghost sv = self@;
        let es = &mut self.entries;
        let n = es.len();
        let mut i: usize = 0;
        let mut found: Option<usize> = None;
        while i < n
            invariant
                0 <= i <= n == es@.len(),
                sv == es@.map_values(|e: (Vec<u8>, Vec<u8>)| (e.0@, e.1@)),
                match found {
                    Some(k) => 0 <= k < es@.len() && pool_find(sv, path@) == Some(k as int),
                    None => forall|j: int| 0 <= j < i ==> sv[j].0 != path@,
                },
                found is Some ==> i == n,
            decreases n - i,
        {
            if bytes_eq(&es[i].0, &path) {
                proof {
                    lemma_pool_find(sv, path@);
                    assert(sv[i as int].0 == path@);
                    assert(pool_find(sv, path@) == Some(i as int));
                }
                found = Some(i);
                i = n;
            } else {
                proof {
                    assert(sv[i as int].0 == es@[i as int].0@);
                }
                i = i + 1;
            }
        }
        match found {
            Some(k) => {
                let e = &mut es[k];
                push_all(&mut e.1, data);
                proof {
                    let sv2 = es@.map_values(|e: (Vec<u8>, Vec<u8>)| (e.0@, e.1@));
                    assert(sv2 =~= sv.update(k as int, (sv[k as int].0, sv[k as int].1 + data@)));
                }
            },
            None => {
                proof {
                    lemma_pool_find(sv, path@);
                }
                es.push((path, clone_bytes(data)));
                proof {
                    let sv2 = es@.map_values(|e: (Vec<u8>, Vec<u8>)| (e.0@, e.1@));
                    assert(sv2 =~= sv.push((path@, data@)));
                }
            },
        }
    }

    /// Closes every sink: each buffered content is compressed, per path, in
    /// order of first use.
    pub fn finalize(&self) -> (r: Vec<(Vec<u8>, Vec<u8>)>)
        ensures
            r@.map_values(|e: (Vec<u8>, Vec<u8>)| (e.0@, e.1@)) == self@.map_values(
                |e: (Seq<u8>, Seq<u8>)| (e.0, gzip_of(e.1)),
            ),
    {
        let ghost goal = self@.map_values(|e: (Seq<u8>, Seq<u8>)| (e.0, gzip_of(e.1)));
        let mut out: Vec<(Vec<u8>, Vec<u8>)> = Vec::new();
        let mut i: usize = 0;
        while i < self.entries.len()
            invariant
                0 <= i <= self.entries@.len(),
                goal == self@.map_values(|e: (Seq<u8>, Seq<u8>)| (e.0, gzip_of(e.1))),
                goal.len() == self.entries@.len(),
                out@.map_values(|e: (Vec<u8>, Vec<u8>)| (e.0@, e.1@)) == goal.take(i as int),
            decreases self.entries@.len() - i,
        {
            let p = clone_bytes(&self.entries[i].0);
            let z = gzip_compress(&self.entries[i].1);
            proof {
                assert(self@[i as int] == (self.entries@[i as int].0@, self.entries@[i as int].1@));
                assert(goal[i as int] == (self.entries@[i as int].0@, gzip_of(
                    self.entries@[i as int].1@,
                )));
            }
            let ghost prev = out@;
            let ghost prevm = out@.map_values(|e: (Vec<u8>, Vec<u8>)| (e.0@, e.1@));
            out.push((p, z));
            proof {
                let m = out@.map_values(|e: (Vec<u8>, Vec<u8>)| (e.0@, e.1@));
                assert(out@.len() == prev.len() + 1);
                assert(prevm.len() == prev.len());
                assert(prevm == goal.take(i as int));
                assert(goal.take(i as int).len() == i as int);
                assert(m.len() == i + 1);
                assert forall|k: int| 0 <= k < i + 1 implies m[k] == goal.take(i as int + 1)[k] by {
                    if k < i as int {
                        assert(out@[k] == prev[k]);
                        assert(m[k] == prevm[k]);
                        assert(prevm[k] == goal.take(i as int)[k]);
                    } else {
                        assert(out@[k] == (p, z));
                        assert(m[k] == (p@, z@));
                    }
                }
                assert(m =~= goal.take(i as int + 1));
            }
            i = i + 1;
        }
        proof {
            assert(goal.take(goal.len() as int) =~= goal);
        }
        out
    }
}

} // verus!
