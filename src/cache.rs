//! A memo of fingerprints, kept across analyses and keyed by file identity.

use vstd::prelude::*;
use crate::fingerprint::Fingerprint;

verus! {

/// What identifies one version of a file: its path, size and modification time.
/// A file whose size or modification time changes gets a new key, so an entry made
/// for its earlier content is never returned for it.
#[derive(Clone, Debug)]
pub struct FileKey {
    pub path: String,
    pub size: u64,
    pub modified: u64,
}

impl View for FileKey {
    type V = (Seq<char>, u64, u64);

    open spec fn view(&self) -> (Seq<char>, u64, u64) {
        (self.path@, self.size, self.modified)
    }
}

impl FileKey {
    pub fn new(path: String, size: u64, modified: u64) -> (r: FileKey)
        ensures
            r@ == (path@, size, modified),
    {
        FileKey { path, size, modified }
    }

    /// Whether both keys name one version of one file.
    pub fn same_as(&self, other: &FileKey) -> (r: bool)
        ensures
            r == (self@ == other@),
    {
        self.path == other.path && self.size == other.size && self.modified == other.modified
    }

    pub fn copy(&self) -> (r: FileKey)
        ensures
            r@ == self@,
    {
        FileKey { path: self.path.clone(), size: self.size, modified: self.modified }
    }
}

/// What a lookup that may compute returns, and the memo after it: the memo's
/// value where it has one; else `computed`, which is stored where it is a value.
pub open spec fn lookup_or_store<E>(
    memo: Map<(Seq<char>, u64, u64), Fingerprint>,
    key: (Seq<char>, u64, u64),
    computed: Result<Fingerprint, E>,
) -> (Result<Fingerprint, E>, Map<(Seq<char>, u64, u64), Fingerprint>) {
    if memo.contains_key(key) {
        (Ok(memo[key]), memo)
    } else {
        match computed {
            Ok(v) => (Ok(v), memo.insert(key, v)),
            Err(e) => (Err(e), memo),
        }
    }
}

/// Once a lookup has stored or found a value, a second lookup with the same key
/// returns that value, leaves the memo as it is, and ignores what it is offered.
pub proof fn lemma_second_lookup_is_cached<E>(
    memo: Map<(Seq<char>, u64, u64), Fingerprint>,
    key: (Seq<char>, u64, u64),
    first: Result<Fingerprint, E>,
    second: Result<Fingerprint, E>,
)
    requires
        lookup_or_store(memo, key, first).0 is Ok,
    ensures
        lookup_or_store(lookup_or_store(memo, key, first).1, key, second) == lookup_or_store(
            memo,
            key,
            first,
        ),
{
}

pub struct FingerprintCache {
    entries: Vec<(FileKey, Fingerprint)>,
    memo: Ghost<Map<(Seq<char>, u64, u64), Fingerprint>>,
}

impl View for FingerprintCache {
    type V = Map<(Seq<char>, u64, u64), Fingerprint>;

    closed spec fn view(&self) -> Map<(Seq<char>, u64, u64), Fingerprint> {
        self.memo@
    }
}

impl FingerprintCache {
    pub closed spec fn wf(&self) -> bool {
        &&& forall|i: int|
            0 <= i < self.entries@.len() ==> {
                &&& self.memo@.contains_key(#[trigger] self.entries@[i].0@)
                &&& self.memo@[self.entries@[i].0@] == self.entries@[i].1
            }
        &&& forall|i: int, j: int|
            0 <= i < j < self.entries@.len() ==> #[trigger] self.entries@[i].0@ != #[trigger] self.entries@[j].0@
        &&& forall|k: (Seq<char>, u64, u64)|
            #[trigger] self.memo@.contains_key(k) ==> exists|i: int|
                0 <= i < self.entries@.len() && #[trigger] self.entries@[i].0@ == k
    }

    pub fn new() -> (c: Self)
        ensures
            c.wf(),
            c@ == Map::<(Seq<char>, u64, u64), Fingerprint>::empty(),
    {
        FingerprintCache { entries: Vec::new(), memo: Ghost(Map::empty()) }
    }

    /// The position of the entry for `key`, if there is one.
    fn position(&self, key: &FileKey) -> (r: Option<usize>)
        requires
            self.wf(),
        ensures
            r is None <==> !self@.contains_key(key@),
            r matches Some(i) ==> i < self.entries@.len() && self.entries@[i as int].0@ == key@,
    {
        let mut i: usize = 0;
        while i < self.entries.len()
            invariant
                self.wf(),
                i <= self.entries@.len(),
                forall|j: int| 0 <= j < i ==> #[trigger] self.entries@[j].0@ != key@,
            decreases self.entries@.len() - i,
        {
            if self.entries[i].0.same_as(key) {
                return Some(i);
            }
            i = i + 1;
        }
        proof {
            if self@.contains_key(key@) {
                let j = choose|j: int| 0 <= j < self.entries@.len() && #[trigger] self.entries@[j].0@ == key@;
            }
        }
        None
    }

    /// The stored fingerprint for `key`, if any.
    pub fn get(&self, key: &FileKey) -> (r: Option<Fingerprint>)
        requires
            self.wf(),
        ensures
            r == (if self@.contains_key(key@) {
                Some(self@[key@])
            } else {
                None
            }),
    {
        match self.position(key) {
            Some(i) => Some(self.entries[i].1),
            None => None,
        }
    }

    /// Stores `value` for `key`, replacing what was stored for it.
    pub fn insert(&mut self, key: FileKey, value: Fingerprint)
        requires
            old(self).wf(),
        ensures
            final(self).wf(),
            final(self)@ == old(self)@.insert(key@, value),
    {
        let ghost k = key@;
        let ghost memo = self.memo@.insert(k, value);
        let pos = self.position(&key);
        let ghost at: int = match pos {
            Some(i) => i as int,
            None => self.entries@.len() as int,
        };
        match pos {
            Some(i) => {
                self.entries.set(i, (key, value));
            },
            None => {
                self.entries.push((key, value));
            },
        }
        self.memo = Ghost(memo);
        proof {
            assert forall|j: int| 0 <= j < self.entries@.len() && j != at implies #[trigger] self.entries@[j].0@ != k by {
                assert(self.entries@[j] == old(self).entries@[j]);
                if pos is None {
                    assert(old(self).memo@.contains_key(old(self).entries@[j].0@));
                }
            }
            assert forall|j: int| 0 <= j < self.entries@.len() implies {
                &&& memo.contains_key(#[trigger] self.entries@[j].0@)
                &&& memo[self.entries@[j].0@] == self.entries@[j].1
            } by {
                if j != at {
                    assert(self.entries@[j] == old(self).entries@[j]);
                }
            }
            assert forall|kk: (Seq<char>, u64, u64)| #[trigger] memo.contains_key(kk) implies exists|i: int|
                0 <= i < self.entries@.len() && #[trigger] self.entries@[i].0@ == kk by {
                if kk != k {
                    assert(old(self).memo@.contains_key(kk));
                    let j = choose|j: int|
                        0 <= j < old(self).entries@.len() && #[trigger] old(self).entries@[j].0@ == kk;
                    assert(self.entries@[j].0@ == kk);
                } else {
                    assert(self.entries@[at].0@ == kk);
                }
            }
        }
    }

    /// The stored fingerprint for `key`; where there is none, the result of
    /// `compute`, which is stored if it is a value. `compute` is called only
    /// where nothing is stored for `key`.
    pub fn get_or_compute<E, F: FnOnce() -> Result<Fingerprint, E>>(
        &mut self,
        key: FileKey,
        compute: F,
    ) -> (r: Result<Fingerprint, E>)
        requires
            old(self).wf(),
            !old(self)@.contains_key(key@) ==> compute.requires(()),
        ensures
            final(self).wf(),
            !old(self)@.contains_key(key@) ==> compute.ensures((), r),
            (r, final(self)@) == lookup_or_store(old(self)@, key@, r),
    {
        match self.get(&key) {
            Some(v) => Ok(v),
            None => {
                let r = compute();
                match r {
                    Ok(v) => {
                        self.insert(key, v);
                        Ok(v)
                    },
                    Err(e) => Err(e),
                }
            },
        }
    }

    /// A separate cache holding the same entries.
    pub fn snapshot(&self) -> (r: Self)
        requires
            self.wf(),
        ensures
            r.wf(),
            r@ == self@,
    {
        let mut entries: Vec<(FileKey, Fingerprint)> = Vec::new();
        let mut i: usize = 0;
        while i < self.entries.len()
            invariant
                i <= self.entries@.len(),
                entries@.len() == i,
                forall|j: int|
                    0 <= j < i ==> (#[trigger] entries@[j]).0@ == self.entries@[j].0@ && entries@[j].1
                        == self.entries@[j].1,
            decreases self.entries@.len() - i,
        {
            let (key, value) = (self.entries[i].0.copy(), self.entries[i].1);
            entries.push((key, value));
            i = i + 1;
        }
        let r = FingerprintCache { entries, memo: Ghost(self.memo@) };
        proof {
            assert forall|j: int| 0 <= j < r.entries@.len() implies self.entries@[j].0@ == #[trigger] r.entries@[j].0@ by {}
            assert forall|k: (Seq<char>, u64, u64)| #[trigger] r.memo@.contains_key(k) implies exists|j: int|
                0 <= j < r.entries@.len() && #[trigger] r.entries@[j].0@ == k by {
                let j = choose|j: int| 0 <= j < self.entries@.len() && #[trigger] self.entries@[j].0@ == k;
                assert(r.entries@[j].0@ == k);
            }
        }
        r
    }

    /// Adds every entry of `other`, which wins where both hold a key.
    pub fn absorb(&mut self, other: &Self)
        requires
            old(self).wf(),
            other.wf(),
        ensures
            final(self).wf(),
            final(self)@ == old(self)@.union_prefer_right(other@),
    {
        let mut i: usize = 0;
        while i < other.entries.len()
            invariant
                self.wf(),
                other.wf(),
                i <= other.entries@.len(),
                forall|j: int|
                    0 <= j < i ==> self@.contains_key(#[trigger] other.entries@[j].0@) && self@[other.entries@[j].0@]
                        == other.entries@[j].1,
                forall|k: (Seq<char>, u64, u64)| #[trigger]
                    self@.contains_key(k) ==> old(self)@.contains_key(k) || exists|j: int|
                        0 <= j < i && #[trigger] other.entries@[j].0@ == k,
                forall|k: (Seq<char>, u64, u64)| #[trigger]
                    old(self)@.contains_key(k) ==> self@.contains_key(k) && (self@[k] == old(self)@[k]
                        || exists|j: int| 0 <= j < i && #[trigger] other.entries@[j].0@ == k),
            decreases other.entries@.len() - i,
        {
            let ghost before = self@;
            let (key, value) = (other.entries[i].0.copy(), other.entries[i].1);
            self.insert(key, value);
            proof {
                assert forall|j: int| 0 <= j < i + 1 implies self@.contains_key(#[trigger] other.entries@[j].0@)
                    && self@[other.entries@[j].0@] == other.entries@[j].1 by {
                    if j < i && other.entries@[j].0@ == other.entries@[i as int].0@ {
                        assert(false);
                    }
                }
                assert forall|k: (Seq<char>, u64, u64)| #[trigger] self@.contains_key(k) implies old(self)@.contains_key(k)
                    || exists|j: int| 0 <= j < i + 1 && #[trigger] other.entries@[j].0@ == k by {
                    if k != other.entries@[i as int].0@ {
                        assert(before.contains_key(k));
                    } else {
                        assert(other.entries@[i as int].0@ == k);
                    }
                }
                assert forall|k: (Seq<char>, u64, u64)| #[trigger] old(self)@.contains_key(k) implies self@.contains_key(k)
                    && (self@[k] == old(self)@[k] || exists|j: int|
                        0 <= j < i + 1 && #[trigger] other.entries@[j].0@ == k) by {
                    if k == other.entries@[i as int].0@ {
                        assert(other.entries@[i as int].0@ == k);
                    }
                }
            }
            i = i + 1;
        }
        proof {
            let want = old(self)@.union_prefer_right(other@);
            assert forall|k: (Seq<char>, u64, u64)| #[trigger] want.contains_key(k) implies self@.contains_key(k)
                && self@[k] == want[k] by {
                if other@.contains_key(k) {
                    let j = choose|j: int| 0 <= j < other.entries@.len() && #[trigger] other.entries@[j].0@ == k;
                    assert(self@.contains_key(other.entries@[j].0@));
                } else {
                    assert(old(self)@.contains_key(k));
                    if self@[k] != old(self)@[k] {
                        let j = choose|j: int| 0 <= j < other.entries@.len() && #[trigger] other.entries@[j].0@ == k;
                        assert(other@.contains_key(other.entries@[j].0@));
                    }
                }
            }
            assert forall|k: (Seq<char>, u64, u64)| #[trigger] self@.contains_key(k) implies want.contains_key(k) by {
                if !old(self)@.contains_key(k) {
                    let j = choose|j: int| 0 <= j < other.entries@.len() && #[trigger] other.entries@[j].0@ == k;
                    assert(other@.contains_key(other.entries@[j].0@));
                }
            }
            assert(self@ =~= want);
        }
    }
}

} // verus!
