//! Incremental catalog indexing: a cooperative, chunked sort + merge that
//! builds a spatially sorted catalog over many polls, never holding the
//! caller for more than one bounded chunk of work.
//!
//! Each poll either sorts the next chunk of `CHUNK_OF_SOURCES_TO_SORT`
//! sources by spatial key (ties de-clustered by a seeded pseudo-random
//! draw), or advances the two-pointer merge of that chunk into the sorted
//! prefix by at most `CHUNK_OF_SORTED_SOURCES_TO_MERGE` elements; the merge
//! cursors persist across polls.  When every source is merged the indexer is
//! ready and the whole catalog is a permutation of the input, sorted by key.

use vstd::prelude::*;
use vstd::seq_lib::lemma_multiset_commutative;

verus! {

broadcast use vstd::seq_lib::group_to_multiset_ensures,
    vstd::multiset::group_multiset_axioms;

/// A catalog point source, reduced to what the indexer reads: its spatial
/// hash key at the indexing resolution, and an opaque handle to the record
/// it came from.
#[derive(Clone, Copy, Debug, PartialEq, Eq, Hash, Structural)]
pub struct Source {
    /// Quantized locality key (spatial hash of the source's position).
    pub key: u64,
    /// Opaque record handle, carried through untouched.
    pub id: u64,
}

/// Sources sorted per chunk in one poll.
pub const CHUNK_OF_SOURCES_TO_SORT: usize = 1000;

/// Merged elements written in one poll before yielding.
pub const CHUNK_OF_SORTED_SOURCES_TO_MERGE: usize = 20000;

/// The range `[lo, hi)` of `s` is sorted by key, non-decreasingly.
pub open spec fn sorted_range(s: Seq<Source>, lo: int, hi: int) -> bool {
    forall|p: int, q: int| #![trigger s[p], s[q]]
        lo <= p && p <= q && q < hi ==> s[p].key <= s[q].key
}

/// Result of one indexer poll.
#[derive(Clone, Copy, Debug, PartialEq, Eq, Structural)]
pub enum IndexPoll {
    /// More work remains; poll again.
    Pending,
    /// Every source is merged into the sorted catalog.
    Ready,
}

/// The incremental catalog indexer.
pub struct BuildCatalogIndex {
    /// The catalog; `[0, sorted_len)` is the sorted baseline.
    pub sources: Vec<Source>,
    /// Length of the sorted baseline.
    pub sorted_len: usize,
    /// During a merge, the end of the chunk being merged.
    pub chunk_end: usize,
    /// Merge cursor into the sorted baseline.
    pub i: usize,
    /// Merge cursor into the sorted chunk.
    pub j: usize,
    /// Merge output built so far in this cycle.
    pub merged: Vec<Source>,
    /// A merge cycle is in progress.
    pub merging: bool,
    /// Every source has been merged.
    pub ready: bool,
    /// The input catalog, for the permutation guarantee.
    pub init: Ghost<Seq<Source>>,
}

impl BuildCatalogIndex {
    /// The invariants of a merge cycle in progress, with the output allowed
    /// to have just reached the chunk end.
    pub open spec fn merge_state_ok(self) -> bool {
        let n = self.sources@.len() as int;
        let a = self.sorted_len as int;
        let b = self.chunk_end as int;
        &&& a < b <= n
        &&& self.i <= a
        &&& a <= self.j <= b
        &&& self.merged@.len() == self.i + self.j - a
        &&& sorted_range(self.sources@, a, b)
        &&& sorted_range(self.merged@, 0, self.merged@.len() as int)
        &&& self.merged@.to_multiset() == self.sources@.subrange(0, self.i as int)
            .to_multiset().add(self.sources@.subrange(a, self.j as int).to_multiset())
        &&& self.merged@.len() > 0 ==> {
            &&& forall|p: int| self.i <= p < a
                ==> self.merged@.last().key <= (#[trigger] self.sources@[p]).key
            &&& forall|p: int| self.j <= p < b
                ==> self.merged@.last().key <= (#[trigger] self.sources@[p]).key
        }
    }

    /// Internal invariant, preserved by every poll.
    pub open spec fn wf(self) -> bool {
        let n = self.sources@.len() as int;
        let a = self.sorted_len as int;
        &&& self.sources@.to_multiset() == self.init@.to_multiset()
        &&& a <= n
        &&& sorted_range(self.sources@, 0, a)
        &&& self.ready ==> a == n && !self.merging
        &&& self.merging ==> self.merge_state_ok()
            && self.merged@.len() < self.chunk_end
    }

    /// The number of sources counted as sorted by the current phase: the
    /// merge output written so far during a merge, the sorted baseline
    /// otherwise.
    pub open spec fn sorted_count(self) -> int {
        if self.merging { self.merged@.len() as int } else { self.sorted_len as int }
    }

    /// Work remaining before the indexer is ready; every poll strictly
    /// decreases it until then.
    pub open spec fn work_measure(self) -> int {
        let n = self.sources@.len() as int;
        let a = self.sorted_len as int;
        (n - a) * (2 * n + 3)
            + if self.merging { 1 + self.chunk_end - self.merged@.len() } else { 2 * n + 2 }
    }

    /// Starts indexing the given catalog.
    pub fn new(sources: Vec<Source>) -> (r: BuildCatalogIndex)
        ensures
            r.wf(),
            r.sources == sources,
            r.init@ == sources@,
            !r.ready,
            !r.merging,
            r.sorted_len == 0,
    {
        let ghost init = sources@;
        BuildCatalogIndex {
            sources,
            sorted_len: 0,
            chunk_end: 0,
            i: 0,
            j: 0,
            merged: Vec::new(),
            merging: false,
            ready: false,
            init: Ghost(init),
        }
    }

    /// Advances indexing by one bounded step: one chunk sort, or one merge
    /// slice of at most `CHUNK_OF_SORTED_SOURCES_TO_MERGE` elements.
    /// Returns `Ready` exactly when every source is already merged; then the
    /// catalog is sorted by key and is a permutation of the input.
    pub fn poll(&mut self) -> (r: IndexPoll)
        requires
            old(self).wf(),
        ensures
            final(self).wf(),
            final(self).init == old(self).init,
            final(self).sources@.len() == old(self).sources@.len(),
            final(self).sources@.to_multiset() == old(self).init@.to_multiset(),
            r is Ready <==> old(self).sorted_len == old(self).sources@.len(),
            r is Ready ==> final(self).ready
                && final(self).sources == old(self).sources
                && sorted_range(final(self).sources@, 0, final(self).sources@.len() as int),
            r is Pending ==> final(self).work_measure() < old(self).work_measure(),
            old(self).merging && r is Pending
                ==> final(self).sorted_count() > old(self).sorted_count(),
            final(self).sorted_len >= old(self).sorted_len,
    {
        let n = self.sources.len();
        if self.sorted_len == n {
            self.ready = true;
            return IndexPoll::Ready;
        }
        let a = self.sorted_len;
        if !self.merging {
            // Sort phase: sort the next chunk by key, breaking ties with a
            // seeded pseudo-random draw to de-cluster equal keys.
            let b = if n - a < CHUNK_OF_SOURCES_TO_SORT { n } else { a + CHUNK_OF_SOURCES_TO_SORT };
            self.sort_chunk(a, b);
            self.chunk_end = b;
            self.i = 0;
            self.j = a;
            self.merged = Vec::new();
            self.merging = true;
            proof {
                let nn = self.sources@.len() as int;
                let ai = a as int;
                assert forall|p: int, q: int| #![trigger self.sources@[p], self.sources@[q]]
                    0 <= p && p <= q && q < ai
                    implies self.sources@[p].key <= self.sources@[q].key by {
                    assert(self.sources@.subrange(0, ai)[p] == self.sources@[p]);
                    assert(self.sources@.subrange(0, ai)[q] == self.sources@[q]);
                    assert(old(self).sources@.subrange(0, ai)[p] == old(self).sources@[p]);
                    assert(old(self).sources@.subrange(0, ai)[q] == old(self).sources@[q]);
                }
                assert(self.sources@.subrange(0, 0) =~= Seq::<Source>::empty());
                assert(self.sources@.subrange(a as int, a as int) =~= Seq::<Source>::empty());
                assert(self.merged@.to_multiset() =~= self.sources@.subrange(0, 0)
                    .to_multiset().add(self.sources@.subrange(a as int, a as int)
                        .to_multiset()));
                assert((nn - a) * (2 * nn + 3) == (nn - a) * (2 * nn + 3));
                assert(1 + self.chunk_end - self.merged@.len() < 2 * nn + 2);
            }
            IndexPoll::Pending
        } else {
            // Merge phase: two-pointer merge of the sorted chunk into the
            // sorted baseline, yielding after a bounded number of elements.
            self.merge_slice();
            IndexPoll::Pending
        }
    }

    /// Sorts `self.sources[a..b)` by key with random tie-breaking, touching
    /// nothing else.
    fn sort_chunk(&mut self, a: usize, b: usize)
        requires
            old(self).wf(),
            old(self).sorted_len == a,
            a < b <= old(self).sources@.len(),
        ensures
            final(self).sources@.len() == old(self).sources@.len(),
            final(self).sources@.to_multiset() == old(self).sources@.to_multiset(),
            final(self).sources@.subrange(0, a as int)
                == old(self).sources@.subrange(0, a as int),
            final(self).sources@.subrange(b as int, old(self).sources@.len() as int)
                == old(self).sources@.subrange(b as int, old(self).sources@.len() as int),
            sorted_range(final(self).sources@, a as int, b as int),
            final(self).sorted_len == old(self).sorted_len,
            final(self).chunk_end == old(self).chunk_end,
            final(self).i == old(self).i,
            final(self).j == old(self).j,
            final(self).merged == old(self).merged,
            final(self).merging == old(self).merging,
            final(self).ready == old(self).ready,
            final(self).init == old(self).init,
    {
        let ghost orig = self.sources@;
        let n = self.sources.len();
        let mut work: Vec<Source> = Vec::new();
        let mut t: usize = a;
        while t < b
            invariant
                a <= t <= b <= n,
                n == self.sources@.len(),
                self.sources@ == orig,
                work@ =~= orig.subrange(a as int, t as int),
            decreases b - t,
        {
            let s = self.sources[t];
            work.push(s);
            proof {
                assert(orig.subrange(a as int, t + 1 as int)
                    =~= orig.subrange(a as int, t as int).push(orig[t as int]));
            }
            t = t + 1;
        }
        let mut rng = crate::rng::rng_from_seed(0);
        let mut out: Vec<Source> = Vec::new();
        proof {
            assert(out@.to_multiset().add(work@.to_multiset())
                =~= work@.to_multiset());
        }
        while work.len() > 0
            invariant
                out@.to_multiset().add(work@.to_multiset())
                    == orig.subrange(a as int, b as int).to_multiset(),
                sorted_range(out@, 0, out@.len() as int),
                forall|p: int, q: int| #![trigger out@[p], work@[q]]
                    0 <= p < out@.len() && 0 <= q < work@.len()
                        ==> out@[p].key <= work@[q].key,
                out@.len() + work@.len() == b - a,
            decreases work@.len(),
        {
            // Select a minimal-key element; among equals the draw decides.
            let mut best: usize = 0;
            let mut t2: usize = 1;
            while t2 < work.len()
                invariant
                    0 < work@.len(),
                    best < t2 <= work@.len(),
                    forall|p: int| 0 <= p < t2
                        ==> work@[best as int].key <= (#[trigger] work@[p]).key,
                decreases work@.len() - t2,
            {
                let wt = work[t2].key;
                let wb = work[best].key;
                if wt < wb {
                    best = t2;
                } else if wt == wb {
                    let draw = crate::rng::rng_next_u64(&mut rng);
                    if draw % 2 == 0 {
                        best = t2;
                    }
                }
                t2 = t2 + 1;
            }
            let ghost w0 = work@;
            let ghost o0 = out@;
            let e = work.remove(best);
            out.push(e);
            proof {
                assert(w0[best as int] == e);
                assert(work@ == w0.remove(best as int));
                assert(work@.to_multiset() == w0.to_multiset().remove(e));
                assert(out@.to_multiset() == o0.to_multiset().insert(e));
                assert(w0.to_multiset().count(e) > 0);
                assert(out@.to_multiset().add(work@.to_multiset())
                    =~= o0.to_multiset().add(w0.to_multiset()));
                // The removed element was minimal over the whole pool.
                assert forall|q: int| 0 <= q < work@.len()
                    implies e.key <= (#[trigger] work@[q]).key by {
                    if q < best as int {
                        assert(work@[q] == w0[q]);
                    } else {
                        assert(work@[q] == w0[q + 1]);
                    }
                }
                assert forall|p: int| 0 <= p < out@.len()
                    implies (#[trigger] out@[p]).key <= e.key by {
                    if p < o0.len() {
                        assert(out@[p] == o0[p]);
                        assert(o0[p].key <= w0[best as int].key);
                    }
                }
            }
        }
        proof {
            assert(work@ =~= Seq::<Source>::empty());
            assert(out@.to_multiset() =~= out@.to_multiset().add(work@.to_multiset()));
        }
        // Write the sorted chunk back.
        let mut t3: usize = 0;
        while t3 < out.len()
            invariant
                t3 <= out@.len(),
                out@.len() == b - a,
                a < b <= self.sources@.len(),
                self.sources@.len() == orig.len(),
                forall|p: int| 0 <= p < a + t3 && a <= p
                    ==> (#[trigger] self.sources@[p]) == out@[p - a],
                forall|p: int| 0 <= p < orig.len() && !(a <= p < a + t3)
                    ==> (#[trigger] self.sources@[p]) == orig[p],
                self.sorted_len == old(self).sorted_len,
                self.chunk_end == old(self).chunk_end,
                self.i == old(self).i,
                self.j == old(self).j,
                self.merged == old(self).merged,
                self.merging == old(self).merging,
                self.ready == old(self).ready,
                self.init == old(self).init,
            decreases out@.len() - t3,
        {
            let e = out[t3];
            self.sources.set(a + t3, e);
            t3 = t3 + 1;
        }
        proof {
            let ai = a as int;
            let bi = b as int;
            let ni = orig.len() as int;
            assert(self.sources@.subrange(ai, bi) =~= out@);
            assert(self.sources@.subrange(0, ai) =~= orig.subrange(0, ai));
            assert(self.sources@.subrange(bi, ni) =~= orig.subrange(bi, ni));
            // Multiset preservation from the three pieces.
            assert(self.sources@ =~= self.sources@.subrange(0, ai)
                + self.sources@.subrange(ai, bi) + self.sources@.subrange(bi, ni));
            assert(orig =~= orig.subrange(0, ai) + orig.subrange(ai, bi)
                + orig.subrange(bi, ni));
            lemma_multiset_commutative(self.sources@.subrange(0, ai),
                self.sources@.subrange(ai, bi));
            lemma_multiset_commutative(self.sources@.subrange(0, ai)
                + self.sources@.subrange(ai, bi), self.sources@.subrange(bi, ni));
            lemma_multiset_commutative(orig.subrange(0, ai), orig.subrange(ai, bi));
            lemma_multiset_commutative(orig.subrange(0, ai) + orig.subrange(ai, bi),
                orig.subrange(bi, ni));
        }
    }

    /// Writes up to `CHUNK_OF_SORTED_SOURCES_TO_MERGE` merged elements; when
    /// the cycle completes, installs the merge output as the new sorted
    /// baseline.
    fn merge_slice(&mut self)
        requires
            old(self).wf(),
            old(self).merging,
            old(self).sorted_len < old(self).sources@.len(),
        ensures
            final(self).wf(),
            final(self).init == old(self).init,
            final(self).sources@.len() == old(self).sources@.len(),
            final(self).work_measure() < old(self).work_measure(),
            final(self).sorted_count() > old(self).sorted_count(),
            final(self).sorted_len >= old(self).sorted_len,
    {
        let ghost orig = *self;
        let a = self.sorted_len;
        let b = self.chunk_end;
        let mut steps: usize = 0;
        while self.merged.len() < b && steps < CHUNK_OF_SORTED_SOURCES_TO_MERGE
            invariant
                self.sorted_len == a,
                self.chunk_end == b,
                self.merging,
                self.ready == orig.ready,
                self.sources@ == orig.sources@,
                self.init == orig.init,
                self.sources@.to_multiset() == self.init@.to_multiset(),
                sorted_range(self.sources@, 0, a as int),
                self.merge_state_ok(),
                a < b <= self.sources@.len(),
                steps <= CHUNK_OF_SORTED_SOURCES_TO_MERGE,
                self.merged@.len() >= orig.merged@.len(),
                self.merged@.len() - orig.merged@.len() == steps,
            decreases b - self.merged@.len(),
        {
            proof {
                assert(self.merged@.len() == self.i + self.j - a);
                assert(self.merged@.len() < b);
                assert(self.i < a || self.j < b);
            }
            let ghost m0 = self.merged@;
            let ghost i0 = self.i as int;
            let ghost j0 = self.j as int;
            let e: Source;
            if self.j == b {
                e = self.sources[self.i];
                self.i = self.i + 1;
            } else if self.i == a {
                e = self.sources[self.j];
                self.j = self.j + 1;
            } else {
                let kc = self.sources[self.j].key;
                let kp = self.sources[self.i].key;
                if kc <= kp {
                    e = self.sources[self.j];
                    self.j = self.j + 1;
                } else {
                    e = self.sources[self.i];
                    self.i = self.i + 1;
                }
            }
            proof {
                let s = self.sources@;
                let ai = a as int;
                let bi = b as int;
                // The element taken stays below everything still unmerged.
                assert forall|p: int| self.i <= p < ai
                    implies e.key <= (#[trigger] s[p]).key by {
                    if self.i as int == i0 + 1 {
                        assert(e == s[i0]);
                        assert(s[i0].key <= s[p].key);
                    } else {
                        assert(e == s[j0]);
                        assert(e.key <= s[i0].key);
                        assert(s[i0].key <= s[p].key);
                    }
                }
                assert forall|p: int| self.j <= p < bi
                    implies e.key <= (#[trigger] s[p]).key by {
                    if self.j as int == j0 + 1 {
                        assert(e == s[j0]);
                        assert(s[j0].key <= s[p].key);
                    } else {
                        assert(e == s[i0]);
                        assert(e.key < s[j0].key);
                        assert(s[j0].key <= s[p].key);
                    }
                }
                // It also dominates everything already merged.
                assert forall|p: int| 0 <= p < m0.len()
                    implies (#[trigger] m0[p]).key <= e.key by {
                    assert(m0[p].key <= m0.last().key);
                    if self.i as int == i0 + 1 {
                        assert(m0.last().key <= s[i0].key);
                    } else {
                        assert(m0.last().key <= s[j0].key);
                    }
                }
            }
            self.merged.push(e);
            steps = steps + 1;
            proof {
                let s = self.sources@;
                let ai = a as int;
                let ii = self.i as int;
                let jj = self.j as int;
                if ii == i0 + 1 {
                    assert(s.subrange(0, ii) =~= s.subrange(0, i0).push(s[i0]));
                } else {
                    assert(s.subrange(ai, jj) =~= s.subrange(ai, j0).push(s[j0]));
                }
                assert(self.merged@ == m0.push(e));
                assert(self.merged@.to_multiset() == m0.to_multiset().insert(e));
                assert(self.merged@.to_multiset() =~= s.subrange(0, ii).to_multiset()
                    .add(s.subrange(ai, jj).to_multiset()));
                assert(self.merged@.last() == e);
            }
        }
        if self.merged.len() == b {
            // Cycle complete: the merge output becomes the new baseline.
            let mut t: usize = 0;
            let ghost premerge = self.sources@;
            while t < b
                invariant
                    t <= b,
                    b <= self.sources@.len(),
                    self.sources@.len() == premerge.len(),
                    self.merged@.len() == b,
                    forall|p: int| 0 <= p < t
                        ==> (#[trigger] self.sources@[p]) == self.merged@[p],
                    forall|p: int| t <= p < premerge.len()
                        ==> (#[trigger] self.sources@[p]) == premerge[p],
                    self.sorted_len == a,
                    self.chunk_end == b,
                    self.merging,
                    self.ready == orig.ready,
                    self.init == orig.init,
                    self.i == a && self.j == b,
                    self.merged@.to_multiset() == premerge.subrange(0, a as int)
                        .to_multiset().add(premerge.subrange(a as int, b as int)
                            .to_multiset()),
                    sorted_range(self.merged@, 0, b as int),
                    a < b,
                decreases b - t,
            {
                let e = self.merged[t];
                self.sources.set(t, e);
                t = t + 1;
            }
            proof {
                let ai = a as int;
                let bi = b as int;
                let ni = premerge.len() as int;
                assert(self.sources@.subrange(0, bi) =~= self.merged@);
                assert(self.sources@.subrange(bi, ni) =~= premerge.subrange(bi, ni));
                assert(self.sources@ =~= self.sources@.subrange(0, bi)
                    + self.sources@.subrange(bi, ni));
                assert(premerge =~= premerge.subrange(0, bi) + premerge.subrange(bi, ni));
                assert(premerge.subrange(0, bi) =~= premerge.subrange(0, ai)
                    + premerge.subrange(ai, bi));
                lemma_multiset_commutative(self.sources@.subrange(0, bi),
                    self.sources@.subrange(bi, ni));
                lemma_multiset_commutative(premerge.subrange(0, bi),
                    premerge.subrange(bi, ni));
                lemma_multiset_commutative(premerge.subrange(0, ai),
                    premerge.subrange(ai, bi));
                assert(self.i == a && self.j == b);
                assert(self.merged@.to_multiset() == premerge.subrange(0, ai)
                    .to_multiset().add(premerge.subrange(ai, bi).to_multiset()));
                assert(self.merged@.to_multiset() == premerge.subrange(0, bi).to_multiset());
                assert(self.sources@.to_multiset() == premerge.to_multiset());
                assert forall|p: int, q: int| #![trigger self.sources@[p], self.sources@[q]]
                    0 <= p && p <= q && q < bi
                    implies self.sources@[p].key <= self.sources@[q].key by {
                    assert(self.sources@[p] == self.merged@[p]);
                    assert(self.sources@[q] == self.merged@[q]);
                }
            }
            self.sorted_len = b;
            self.merging = false;
            proof {
                let nn = self.sources@.len() as int;
                assert((nn - b) * (2 * nn + 3) + (2 * nn + 2)
                    < (nn - a) * (2 * nn + 3) + 1) by (nonlinear_arith)
                    requires a < b, b <= nn;
            }
        }
    }
}

} // verus!
