//! Union-find over the indices `0..n`, merging by class size, with path compression.

use vstd::prelude::*;
use vstd::set_lib::{lemma_int_range, lemma_len_subset, lemma_set_disjoint_lens, set_int_range};

verus! {

/// The members of the class whose representative is `r`.
pub open spec fn class_of(rep: Seq<int>, r: int) -> Set<int> {
    Set::new(|x: int| 0 <= x < rep.len() && rep[x] == r)
}

/// `rep` with every member of the class of `loser` moved to the class of `winner`.
pub open spec fn relabel(rep: Seq<int>, loser: int, winner: int) -> Seq<int> {
    Seq::new(rep.len(), |x: int| if rep[x] == loser { winner } else { rep[x] })
}

/// Whether `a` and `b` end up in one class after the unions `pairs`, taken in order,
/// starting from singletons.
pub open spec fn joined(pairs: Seq<(usize, usize)>, a: int, b: int) -> bool
    decreases pairs.len(),
{
    if pairs.len() == 0 {
        a == b
    } else {
        let s = pairs.drop_last();
        let p = pairs.last();
        ||| joined(s, a, b)
        ||| (joined(s, a, p.0 as int) && joined(s, p.1 as int, b))
        ||| (joined(s, a, p.1 as int) && joined(s, p.0 as int, b))
    }
}

/// `g` lists the classes of `rep`: each class once, each as an increasing sequence
/// of its members, the classes ordered by their smallest member.
pub open spec fn lists_classes(g: Seq<Vec<usize>>, rep: Seq<int>) -> bool {
    &&& forall|k: int| 0 <= k < g.len() ==> #[trigger] g[k]@.len() > 0
    &&& forall|k: int, m: int|
        0 <= k < g.len() && 0 <= m < g[k]@.len() ==> {
            &&& #[trigger] g[k]@[m] < rep.len()
            &&& rep[g[k]@[m] as int] == rep[g[k]@[0] as int]
        }
    &&& forall|k: int, m1: int, m2: int|
        0 <= k < g.len() && 0 <= m1 < m2 < g[k]@.len() ==> #[trigger] g[k]@[m1] < #[trigger] g[k]@[m2]
    &&& forall|k1: int, k2: int|
        0 <= k1 < k2 < g.len() ==> {
            &&& #[trigger] g[k1]@[0] < #[trigger] g[k2]@[0]
            &&& rep[g[k1]@[0] as int] != rep[g[k2]@[0] as int]
        }
    &&& forall|x: int| 0 <= x < rep.len() ==> #[trigger] listed(g, x)
}

/// `x` stands in one of the lists of `g`.
pub open spec fn listed(g: Seq<Vec<usize>>, x: int) -> bool {
    exists|k: int, m: int| 0 <= k < g.len() && 0 <= m < g[k]@.len() && #[trigger] g[k]@[m] == x
}

pub struct DisjointSet {
    parent: Vec<usize>,
    size: Vec<usize>,
    rep: Ghost<Seq<int>>,
}

proof fn lemma_class_bounded(rep: Seq<int>, r: int)
    ensures
        class_of(rep, r).finite(),
        class_of(rep, r).len() <= rep.len(),
{
    lemma_int_range(0, rep.len() as int);
    lemma_len_subset(class_of(rep, r), set_int_range(0, rep.len() as int));
}

impl View for DisjointSet {
    type V = Seq<int>;

    /// The representative of each index's class.
    closed spec fn view(&self) -> Seq<int> {
        self.rep@
    }
}

impl DisjointSet {
    pub closed spec fn wf(&self) -> bool {
        let n = self.parent@.len();
        let p = self.parent@;
        let s = self.size@;
        let rep = self.rep@;
        &&& s.len() == n
        &&& rep.len() == n
        &&& forall|i: int|
            0 <= i < n ==> {
                &&& #[trigger] p[i] < n
                &&& rep[p[i] as int] == rep[i]
                &&& (p[i] == i ==> rep[i] == i)
                &&& (p[i] != i ==> s[i] < s[p[i] as int])
            }
        &&& forall|i: int|
            0 <= i < n ==> {
                &&& 0 <= #[trigger] rep[i] < n
                &&& p[rep[i]] == rep[i]
                &&& (rep[i] != i ==> s[i] < s[rep[i]])
                &&& (rep[i] == i ==> s[i] == class_of(rep, i).len())
            }
        &&& forall|i: int| 0 <= i < n ==> 1 <= #[trigger] s[i] <= n
    }

    /// `n` singleton classes.
    pub fn new(n: usize) -> (d: Self)
        ensures
            d.wf(),
            d@ == Seq::new(n as nat, |i: int| i),
    {
        let mut parent: Vec<usize> = Vec::new();
        let mut size: Vec<usize> = Vec::new();
        let mut i: usize = 0;
        while i < n
            invariant
                i <= n,
                parent@.len() == i,
                size@.len() == i,
                forall|k: int| 0 <= k < i ==> parent@[k] == k && size@[k] == 1,
            decreases n - i,
        {
            parent.push(i);
            size.push(1);
            i = i + 1;
        }
        let ghost rep = Seq::new(n as nat, |i: int| i);
        proof {
            assert forall|i: int| 0 <= i < n implies class_of(rep, i).len() == 1 by {
                assert(class_of(rep, i) =~= set![i]);
            }
        }
        DisjointSet { parent, size, rep: Ghost(rep) }
    }

    /// The number of indices.
    pub fn len(&self) -> (r: usize)
        requires
            self.wf(),
        ensures
            r == self@.len(),
    {
        self.parent.len()
    }

    /// The representative of `i`'s class; the classes stay as they are.
    pub fn find(&mut self, i: usize) -> (r: usize)
        requires
            old(self).wf(),
            i < old(self)@.len(),
        ensures
            final(self).wf(),
            final(self)@ == old(self)@,
            r == old(self)@[i as int],
    {
        let n = self.parent.len();
        let mut root = i;
        while self.parent[root] != root
            invariant
                self.wf(),
                self.parent@.len() == n,
                root < n,
                self.rep@[root as int] == self.rep@[i as int],
            decreases n - self.size@[root as int],
        {
            root = self.parent[root];
        }
        let mut cur = i;
        while cur != root
            invariant
                self.wf(),
                self@ == old(self)@,
                self.parent@.len() == n,
                self.size@ == old(self).size@,
                cur < n,
                root < n,
                self.parent@[root as int] == root,
                self.rep@[root as int] == root,
                self.rep@[cur as int] == root,
            decreases n - self.size@[cur as int],
        {
            let next = self.parent[cur];
            let ghost before = self.parent@;
            self.parent.set(cur, root);
            proof {
                let p = self.parent@;
                let rep = self.rep@;
                assert forall|x: int| 0 <= x < n implies {
                    &&& #[trigger] p[x] < n
                    &&& rep[p[x] as int] == rep[x]
                    &&& (p[x] == x ==> rep[x] == x)
                    &&& (p[x] != x ==> self.size@[x] < self.size@[p[x] as int])
                } by {
                    assert(before[x] < n);
                }
                assert forall|x: int| 0 <= x < n implies p[#[trigger] rep[x]] == rep[x] by {
                    assert(before[rep[x]] == rep[x]);
                }
            }
            cur = next;
        }
        root
    }

    /// Merges the classes of `i` and `j`. The larger class keeps its representative;
    /// between two of one size, the lower representative stays.
    pub fn union(&mut self, i: usize, j: usize)
        requires
            old(self).wf(),
            i < old(self)@.len(),
            j < old(self)@.len(),
        ensures
            final(self).wf(),
            final(self)@.len() == old(self)@.len(),
            old(self)@[i as int] == old(self)@[j as int] ==> final(self)@ == old(self)@,
            old(self)@[i as int] != old(self)@[j as int] ==> {
                let ri = old(self)@[i as int];
                let rj = old(self)@[j as int];
                let si = class_of(old(self)@, ri).len();
                let sj = class_of(old(self)@, rj).len();
                if si > sj || (si == sj && ri < rj) {
                    final(self)@ == relabel(old(self)@, rj, ri)
                } else {
                    final(self)@ == relabel(old(self)@, ri, rj)
                }
            },
            forall|x: int, y: int|
                0 <= x < old(self)@.len() && 0 <= y < old(self)@.len() ==> (#[trigger] final(self)@[x]
                    == #[trigger] final(self)@[y] <==> {
                    ||| old(self)@[x] == old(self)@[y]
                    ||| (old(self)@[x] == old(self)@[i as int] && old(self)@[y] == old(self)@[j as int])
                    ||| (old(self)@[x] == old(self)@[j as int] && old(self)@[y] == old(self)@[i as int])
                }),
    {
        let ri = self.find(i);
        let rj = self.find(j);
        if ri == rj {
            return;
        }
        let si = self.size[ri];
        let sj = self.size[rj];
        let (winner, loser) = if si > sj || (si == sj && ri < rj) {
            (ri, rj)
        } else {
            (rj, ri)
        };
        let len = self.parent.len();
        let ghost n = self.rep@.len();
        let ghost rep = self.rep@;
        let ghost old_size = self.size@;
        let ghost old_parent = self.parent@;
        let ghost rep2 = relabel(rep, loser as int, winner as int);
        proof {
            lemma_class_bounded(rep, winner as int);
            lemma_class_bounded(rep, loser as int);
            lemma_class_bounded(rep2, winner as int);
            assert(class_of(rep2, winner as int) =~= class_of(rep, winner as int) + class_of(
                rep,
                loser as int,
            ));
            assert(class_of(rep, winner as int).disjoint(class_of(rep, loser as int)));
            lemma_set_disjoint_lens(class_of(rep, winner as int), class_of(rep, loser as int));
            assert(old_size[winner as int] + old_size[loser as int] <= len);
        }
        self.parent.set(loser, winner);
        self.size.set(winner, si + sj);
        self.rep = Ghost(rep2);
        proof {
            let p = self.parent@;
            let sz = self.size@;
            assert forall|x: int| 0 <= x < n implies {
                &&& #[trigger] p[x] < n
                &&& rep2[p[x] as int] == rep2[x]
                &&& (p[x] == x ==> rep2[x] == x)
                &&& (p[x] != x ==> sz[x] < sz[p[x] as int])
            } by {
                assert(old_parent[x] < n);
                assert(0 <= rep[x] < n);
            }
            assert forall|x: int| 0 <= x < n implies {
                &&& 0 <= #[trigger] rep2[x] < n
                &&& p[rep2[x]] == rep2[x]
                &&& (rep2[x] != x ==> sz[x] < sz[rep2[x]])
                &&& (rep2[x] == x ==> sz[x] == class_of(rep2, x).len())
            } by {
                assert(0 <= rep[x] < n);
                assert(old_parent[rep[x]] == rep[x]);
                assert(1 <= old_size[x] <= n);
                if rep2[x] == x && x != winner {
                    assert(class_of(rep2, x) =~= class_of(rep, x));
                }
            }
            assert forall|x: int| 0 <= x < n implies 1 <= #[trigger] sz[x] <= n by {
                assert(1 <= old_size[x] <= n);
            }
        }
    }

    /// The classes, each as the increasing list of its members, ordered by their
    /// smallest member.
    pub fn groups(&mut self) -> (g: Vec<Vec<usize>>)
        requires
            old(self).wf(),
        ensures
            final(self).wf(),
            final(self)@ == old(self)@,
            lists_classes(g@, old(self)@),
    {
        let n = self.parent.len();
        let mut slot: Vec<usize> = vec![n; n];
        let mut out: Vec<Vec<usize>> = Vec::new();
        let mut i: usize = 0;
        while i < n
            invariant
                self.wf(),
                self@ == old(self)@,
                self@.len() == n,
                slot@.len() == n,
                i <= n,
                out@.len() <= i,
                forall|k: int| 0 <= k < out@.len() ==> #[trigger] out@[k]@.len() > 0,
                forall|k: int, m: int|
                    0 <= k < out@.len() && 0 <= m < out@[k]@.len() ==> {
                        &&& #[trigger] out@[k]@[m] < i
                        &&& self@[out@[k]@[m] as int] == self@[out@[k]@[0] as int]
                    },
                forall|k: int, m1: int, m2: int|
                    0 <= k < out@.len() && 0 <= m1 < m2 < out@[k]@.len() ==> #[trigger] out@[k]@[m1]
                        < #[trigger] out@[k]@[m2],
                forall|k1: int, k2: int|
                    0 <= k1 < k2 < out@.len() ==> {
                        &&& #[trigger] out@[k1]@[0] < #[trigger] out@[k2]@[0]
                        &&& self@[out@[k1]@[0] as int] != self@[out@[k2]@[0] as int]
                    },
                forall|x: int| 0 <= x < i ==> #[trigger] listed(out@, x),
                forall|r: int|
                    0 <= r < n ==> (#[trigger] slot@[r] == n || (slot@[r] < out@.len() && self@[out@[slot@[r] as int]@[0] as int] == r)),
                forall|k: int| 0 <= k < out@.len() ==> slot@[self@[#[trigger] out@[k]@[0] as int]] == k,
                forall|x: int| 0 <= x < i ==> slot@[#[trigger] self@[x]] != n,
            decreases n - i,
        {
            let r = self.find(i);
            proof {
                assert(0 <= self@[i as int] < n) by {
                    assert(self.wf());
                    assert(0 <= self.rep@[i as int] < n);
                }
            }
            let ghost prev = out@;
            if slot[r] == n {
                slot.set(r, out.len());
                let mut fresh: Vec<usize> = Vec::new();
                fresh.push(i);
                out.push(fresh);
                proof {
                    assert forall|x: int| 0 <= x < i + 1 implies #[trigger] listed(out@, x) by {
                        if x < i {
                            assert(listed(prev, x));
                            let (k, m) = choose|k: int, m: int|
                                0 <= k < prev.len() && 0 <= m < prev[k]@.len() && #[trigger] prev[k]@[m] == x;
                            assert(out@[k]@[m] == x);
                        } else {
                            assert(out@[prev.len() as int]@[0] == x);
                        }
                    }
                }
            } else {
                let k = slot[r];
                let mut members: Vec<usize> = Vec::new();
                out.set_and_swap(k, &mut members);
                members.push(i);
                out.set_and_swap(k, &mut members);
                proof {
                    assert(out@[k as int]@ == prev[k as int]@.push(i));
                    assert forall|x: int| 0 <= x < i + 1 implies #[trigger] listed(out@, x) by {
                        if x < i {
                            assert(listed(prev, x));
                            let (k2, m) = choose|k2: int, m: int|
                                0 <= k2 < prev.len() && 0 <= m < prev[k2]@.len() && #[trigger] prev[k2]@[m] == x;
                            assert(out@[k2]@[m] == x);
                        } else {
                            assert(out@[k as int]@[prev[k as int]@.len() as int] == x);
                        }
                    }
                }
            }
            i = i + 1;
        }
        out
    }

    /// Starts from `n` singletons and merges the classes of each pair in turn.
    pub fn from_unions(n: usize, pairs: &Vec<(usize, usize)>) -> (d: Self)
        requires
            forall|k: int| 0 <= k < pairs@.len() ==> (#[trigger] pairs@[k]).0 < n && pairs@[k].1 < n,
        ensures
            d.wf(),
            d@.len() == n,
            forall|a: int, b: int|
                0 <= a < n && 0 <= b < n ==> (#[trigger] d@[a] == #[trigger] d@[b] <==> joined(pairs@, a, b)),
    {
        let mut d = DisjointSet::new(n);
        let mut k: usize = 0;
        while k < pairs.len()
            invariant
                d.wf(),
                d@.len() == n,
                k <= pairs@.len(),
                forall|k: int| 0 <= k < pairs@.len() ==> (#[trigger] pairs@[k]).0 < n && pairs@[k].1 < n,
                forall|a: int, b: int|
                    0 <= a < n && 0 <= b < n ==> (#[trigger] d@[a] == #[trigger] d@[b] <==> joined(pairs@.take(k as int), a, b)),
            decreases pairs@.len() - k,
        {
            let (i, j) = pairs[k];
            let ghost before = d@;
            d.union(i, j);
            proof {
                let s = pairs@.take(k as int + 1);
                assert(s.drop_last() =~= pairs@.take(k as int));
                assert(s.last() == (i, j));
                assert forall|a: int, b: int| 0 <= a < n && 0 <= b < n implies (#[trigger] d@[a]
                    == #[trigger] d@[b] <==> joined(s, a, b)) by {
                    assert(before[a] == before[i as int] <==> joined(pairs@.take(k as int), a, i as int));
                    assert(before[b] == before[j as int] <==> joined(pairs@.take(k as int), j as int, b));
                    assert(before[a] == before[j as int] <==> joined(pairs@.take(k as int), a, j as int));
                    assert(before[b] == before[i as int] <==> joined(pairs@.take(k as int), i as int, b));
                    assert(before[a] == before[b] <==> joined(pairs@.take(k as int), a, b));
                }
            }
            k = k + 1;
        }
        assert(pairs@.take(pairs@.len() as int) =~= pairs@);
        d
    }
}

} // verus!
