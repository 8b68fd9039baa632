//! The clustering engine: fingerprints each candidate file through the cache,
//! merges files with equal fingerprints, and lists the resulting groups.

use vstd::prelude::*;
use crate::cache::{FileKey, FingerprintCache};
use crate::disjoint_set::{lists_classes, DisjointSet};
use crate::fingerprint::{fingerprint_of, fingerprint_spec, Fingerprint};

verus! {

/// Why an analysis failed.
#[derive(Clone, Debug, PartialEq, Eq)]
pub enum AnalysisError {
    /// The root or a file could not be read.
    Io(String),
    /// An invariant of the service was broken (a reused task id, a closed channel).
    Internal(String),
}

impl AnalysisError {
    pub open spec fn message_spec(&self) -> Seq<char> {
        match self {
            AnalysisError::Io(m) => m@,
            AnalysisError::Internal(m) => m@,
        }
    }

    /// A description of the failure, for a failed task's terminal state.
    pub fn message(&self) -> (r: String)
        ensures
            r@ == self.message_spec(),
    {
        match self {
            AnalysisError::Io(m) => m.clone(),
            AnalysisError::Internal(m) => m.clone(),
        }
    }
}

/// Counts units of work done out of a fixed total; the count only grows.
pub struct Progress {
    pub done: usize,
    pub total: usize,
}

impl Progress {
    pub fn new(total: usize) -> (p: Progress)
        ensures
            p.done == 0,
            p.total == total,
    {
        Progress { done: 0, total }
    }

    /// Records one more unit done and returns the new count.
    pub fn advance(&mut self) -> (r: usize)
        requires
            old(self).done < old(self).total,
        ensures
            final(self).total == old(self).total,
            final(self).done == old(self).done + 1,
            r == final(self).done,
    {
        self.done = self.done + 1;
        self.done
    }
}

/// `g` lists the groups of equal fingerprints in `fps` by index: each group once,
/// increasing, the groups ordered by their smallest index.
pub open spec fn groups_by_fingerprint(g: Seq<Vec<usize>>, fps: Seq<Fingerprint>) -> bool {
    exists|rep: Seq<int>|
        {
            &&& rep.len() == fps.len()
            &&& forall|a: int, b: int|
                0 <= a < fps.len() && 0 <= b < fps.len() ==> (#[trigger] rep[a] == #[trigger] rep[b]
                    <==> fps[a] == fps[b])
            &&& lists_classes(g, rep)
        }
}

/// Groups the indices of `fps` by equal fingerprint, by comparing every pair.
pub fn cluster(fps: &Vec<Fingerprint>) -> (g: Vec<Vec<usize>>)
    ensures
        groups_by_fingerprint(g@, fps@),
{
    let n = fps.len();
    let mut d = DisjointSet::new(n);
    let mut i: usize = 0;
    while i < n
        invariant
            d.wf(),
            d@.len() == n,
            n == fps@.len(),
            i <= n,
            forall|a: int, b: int|
                0 <= a < n && 0 <= b < n && #[trigger] d@[a] == #[trigger] d@[b] ==> fps@[a] == fps@[b],
            forall|a: int, b: int|
                0 <= a < i && 0 <= b < i && #[trigger] fps@[a] == #[trigger] fps@[b] ==> d@[a] == d@[b],
        decreases n - i,
    {
        let mut j: usize = 0;
        while j < i
            invariant
                d.wf(),
                d@.len() == n,
                n == fps@.len(),
                i < n,
                j <= i,
                forall|a: int, b: int|
                    0 <= a < n && 0 <= b < n && #[trigger] d@[a] == #[trigger] d@[b] ==> fps@[a] == fps@[b],
                forall|a: int, b: int|
                    0 <= a < i && 0 <= b < i && #[trigger] fps@[a] == #[trigger] fps@[b] ==> d@[a] == d@[b],
                forall|b: int| 0 <= b < j && fps@[i as int] == #[trigger] fps@[b] ==> d@[i as int] == d@[b],
            decreases i - j,
        {
            if fps[i] == fps[j] {
                let ghost before = d@;
                d.union(j, i);
                proof {
                    assert forall|a: int, b: int|
                        0 <= a < n && 0 <= b < n && #[trigger] d@[a] == #[trigger] d@[b] implies fps@[a]
                        == fps@[b] by {
                        assert(before[a] == before[b] || (before[a] == before[j as int] && before[b]
                            == before[i as int]) || (before[a] == before[i as int] && before[b]
                            == before[j as int]));
                    }
                    assert(d@[i as int] == d@[j as int]);
                    assert forall|b: int| 0 <= b < j + 1 && fps@[i as int] == #[trigger] fps@[b] implies d@[i as int] == d@[b] by {
                        assert(d@[i as int] == d@[i as int]);
                        if b < j {
                            assert(before[i as int] == before[b]);
                        }
                    }
                    assert forall|a: int, b: int|
                        0 <= a < i && 0 <= b < i && #[trigger] fps@[a] == #[trigger] fps@[b] implies d@[a] == d@[b] by {
                        assert(before[a] == before[b]);
                    }
                }
            }
            j = j + 1;
        }
        proof {
            assert forall|a: int, b: int|
                0 <= a < i + 1 && 0 <= b < i + 1 && #[trigger] fps@[a] == #[trigger] fps@[b] implies d@[a] == d@[b] by {
                if a == i && b < i {
                    assert(fps@[i as int] == fps@[b]);
                } else if b == i && a < i {
                    assert(fps@[i as int] == fps@[a]);
                    assert(d@[i as int] == d@[a]);
                }
            }
        }
        i = i + 1;
    }
    let g = d.groups();
    proof {
        let rep = d@;
        assert(lists_classes(g@, rep));
    }
    g
}

/// `g` names the files of the index groups `idx`, by path.
pub open spec fn names_groups(g: Seq<Vec<String>>, idx: Seq<Vec<usize>>, files: Seq<FileKey>) -> bool {
    &&& g.len() == idx.len()
    &&& forall|k: int| 0 <= k < g.len() ==> #[trigger] g[k]@.len() == idx[k]@.len()
    &&& forall|k: int, m: int|
        0 <= k < g.len() && 0 <= m < g[k]@.len() ==> {
            &&& idx[k]@[m] < files.len()
            &&& #[trigger] g[k]@[m]@ == files[idx[k]@[m] as int].path@
        }
}

/// The paths of the files in each index group.
pub fn name_groups(idx: &Vec<Vec<usize>>, files: &Vec<FileKey>) -> (g: Vec<Vec<String>>)
    requires
        forall|k: int, m: int|
            0 <= k < idx@.len() && 0 <= m < idx@[k]@.len() ==> #[trigger] idx@[k]@[m] < files@.len(),
    ensures
        names_groups(g@, idx@, files@),
{
    let mut g: Vec<Vec<String>> = Vec::new();
    let mut k: usize = 0;
    while k < idx.len()
        invariant
            k <= idx@.len(),
            g@.len() == k,
            forall|k: int, m: int|
                0 <= k < idx@.len() && 0 <= m < idx@[k]@.len() ==> #[trigger] idx@[k]@[m] < files@.len(),
            forall|k2: int| 0 <= k2 < k ==> #[trigger] g@[k2]@.len() == idx@[k2]@.len(),
            forall|k2: int, m: int|
                0 <= k2 < k && 0 <= m < g@[k2]@.len() ==> #[trigger] g@[k2]@[m]@ == files@[idx@[k2]@[m] as int].path@,
        decreases idx@.len() - k,
    {
        let members = &idx[k];
        let mut names: Vec<String> = Vec::new();
        let mut m: usize = 0;
        while m < members.len()
            invariant
                m <= members@.len(),
                members@ == idx@[k as int]@,
                k < idx@.len(),
                names@.len() == m,
                forall|k: int, m: int|
                    0 <= k < idx@.len() && 0 <= m < idx@[k]@.len() ==> #[trigger] idx@[k]@[m] < files@.len(),
                forall|m2: int| 0 <= m2 < m ==> #[trigger] names@[m2]@ == files@[members@[m2] as int].path@,
            decreases members@.len() - m,
        {
            assert(idx@[k as int]@[m as int] < files@.len());
            names.push(files[members[m]].path.clone());
            m = m + 1;
        }
        g.push(names);
        k = k + 1;
    }
    g
}

/// Finds the groups of duplicate files among `files`.
///
/// Each file's fingerprint comes from the cache where the cache holds its key,
/// and `read` is then not called for it (it need not even be callable there);
/// otherwise `read(k)` gives the content of `files[k]`, whose fingerprint is then
/// stored. A failed read ends the analysis with that read's error. Each file is one
/// unit of work: `progress` counts it and `sink` is handed the new count, which never
/// exceeds the number of files; with no files, `sink` is handed the count once. Entries already in the cache stay.
pub fn analyze<R, S>(
    files: &Vec<FileKey>,
    cache: &mut FingerprintCache,
    progress: &mut Progress,
    read: &R,
    sink: &S,
) -> (r: Result<Vec<Vec<String>>, AnalysisError>) where
    R: Fn(usize) -> Result<Vec<u8>, AnalysisError>,
    S: Fn(usize),

    requires
        old(cache).wf(),
        old(progress).done == 0,
        old(progress).total == files@.len(),
        forall|k: usize|
            k < files@.len() && !old(cache)@.contains_key(#[trigger] files@[k as int]@) ==> read.requires((k,)),
        forall|v: usize| v <= files@.len() ==> #[trigger] sink.requires((v,)),
    ensures
        final(cache).wf(),
        final(progress).total == old(progress).total,
        forall|key| #[trigger]
            old(cache)@.contains_key(key) ==> final(cache)@.contains_key(key) && final(cache)@[key]
                == old(cache)@[key],
        r matches Err(e) ==> exists|k: usize| k < files@.len() && read.ensures((k,), Err(e)),
        r matches Ok(g) ==> {
            &&& final(progress).done == files@.len()
            &&& exists|fps: Seq<Fingerprint>, idx: Seq<Vec<usize>>|
                {
                    &&& fps.len() == files@.len()
                    &&& forall|k: int|
                        0 <= k < files@.len() ==> final(cache)@.contains_key(#[trigger] files@[k]@)
                            && final(cache)@[files@[k]@] == fps[k]
                    &&& groups_by_fingerprint(idx, fps)
                    &&& names_groups(g@, idx, files@)
                }
        },
        forall|key| #[trigger]
            final(cache)@.contains_key(key) && !old(cache)@.contains_key(key) ==> exists|
                k: usize,
                bytes: Vec<u8>,
            |
                k < files@.len() && files@[k as int]@ == key && read.ensures((k,), Ok(bytes))
                    && final(cache)@[key] == fingerprint_spec(bytes@),
{
    let n = files.len();
    let mut fps: Vec<Fingerprint> = Vec::new();
    let mut k: usize = 0;
    if n == 0 {
        sink(0);
    }
    while k < n
        invariant
            n == files@.len(),
            k <= n,
            fps@.len() == k,
            cache.wf(),
            progress.done == k,
            progress.total == n,
            old(progress).total == n,
            forall|k: usize|
                k < files@.len() && !old(cache)@.contains_key(#[trigger] files@[k as int]@) ==> read.requires((k,)),
            forall|v: usize| v <= files@.len() ==> #[trigger] sink.requires((v,)),
            forall|j: int| 0 <= j < k ==> cache@.contains_key(#[trigger] files@[j]@) && cache@[files@[j]@] == fps@[j],
            forall|key| #[trigger]
                old(cache)@.contains_key(key) ==> cache@.contains_key(key) && cache@[key] == old(cache)@[key],
            forall|key| #[trigger]
                cache@.contains_key(key) && !old(cache)@.contains_key(key) ==> exists|
                    i: usize,
                    bytes: Vec<u8>,
                |
                    i < files@.len() && files@[i as int]@ == key && read.ensures((i,), Ok(bytes))
                        && cache@[key] == fingerprint_spec(bytes@),
        decreases n - k,
    {
        let key = &files[k];
        let ghost before = cache@;
        let compute = || -> (r: Result<Fingerprint, AnalysisError>)
            requires
                read.requires((k,)),
            ensures
                r matches Ok(v) ==> exists|b: Vec<u8>| read.ensures((k,), Ok(b)) && v == fingerprint_spec(b@),
                r matches Err(e) ==> read.ensures((k,), Err(e)),
            {
                match read(k) {
                    Ok(bytes) => Ok(fingerprint_of(&bytes)),
                    Err(e) => Err(e),
                }
            };
        let fp = match cache.get_or_compute(key.copy(), compute) {
            Ok(v) => v,
            Err(e) => {
                return Err(e);
            },
        };
        proof {
            assert forall|kk| #[trigger]
                cache@.contains_key(kk) && !old(cache)@.contains_key(kk) implies exists|
                    i: usize,
                    b: Vec<u8>,
                |
                    i < files@.len() && files@[i as int]@ == kk && read.ensures((i,), Ok(b))
                        && cache@[kk] == fingerprint_spec(b@) by {
                if kk == key@ && !before.contains_key(kk) {
                    let b = choose|b: Vec<u8>| read.ensures((k,), Ok(b)) && fp == fingerprint_spec(b@);
                    assert(files@[k as int]@ == kk && read.ensures((k,), Ok(b))
                        && cache@[kk] == fingerprint_spec(b@));
                } else {
                    assert(before.contains_key(kk));
                }
            }
        }
        fps.push(fp);
        let v = progress.advance();
        sink(v);
        k = k + 1;
    }
    let idx = cluster(&fps);
    proof {
        let rep = choose|rep: Seq<int>|
            {
                &&& rep.len() == fps@.len()
                &&& forall|a: int, b: int|
                    0 <= a < fps@.len() && 0 <= b < fps@.len() ==> (#[trigger] rep[a] == #[trigger] rep[b]
                        <==> fps@[a] == fps@[b])
                &&& lists_classes(idx@, rep)
            };
        assert forall|k: int, m: int|
            0 <= k < idx@.len() && 0 <= m < idx@[k]@.len() implies #[trigger] idx@[k]@[m] < files@.len() by {
            assert(idx@[k]@[m] < rep.len());
        }
    }
    let g = name_groups(&idx, files);
    Ok(g)
}

} // verus!
