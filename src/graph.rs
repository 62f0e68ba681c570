//! The per-network header graph: an arena of headers, an index from block
//! hash to vertex, and for each vertex the edge from its parent.
use vstd::prelude::*;

use crate::primitives::{block_hash_of, le_u32_at, prev_hash_of, read_le_u32, BlockHash, HASH_LEN};
use crate::types::HeaderInfo;

verus! {

broadcast use vstd::laws_cmp::group_laws_cmp, vstd::std_specs::btree::group_btree_axioms;

/// The key of a hash in the graph's indexes: its first four bytes.
pub open spec fn key_of(h: Seq<u8>) -> u32 {
    le_u32_at(h, 0)
}

/// The entries of an index under key `k`, none if it has no such key.
pub open spec fn bucket(m: Map<u32, Vec<usize>>, k: u32) -> Seq<usize> {
    if m.contains_key(k) {
        m[k]@
    } else {
        Seq::empty()
    }
}

/// Adds vertex `i` under key `k`.
fn index_add(m: &mut std::collections::BTreeMap<u32, Vec<usize>>, k: u32, i: usize)
    ensures
        final(m)@.contains_key(k),
        final(m)@[k]@ == bucket(old(m)@, k).push(i),
        forall|k2: u32| k2 != k ==> #[trigger] bucket(final(m)@, k2) == bucket(old(m)@, k2),
        forall|k2: u32| #[trigger] final(m)@.contains_key(k2) <==> old(m)@.contains_key(k2) || k2 == k,
{
    let mut v = match m.remove(&k) {
        Some(v) => v,
        None => Vec::new(),
    };
    v.push(i);
    m.insert(k, v);
}

/// Whether two header infos hold the same values.
pub open spec fn same_info(a: HeaderInfo, b: HeaderInfo) -> bool {
    a.height == b.height && a.header@ == b.header@ && a.miner@ == b.miner@
}

/// Whether `v` holds the same values as some header of a batch.
pub open spec fn from_batch(v: HeaderInfo, headers: Seq<HeaderInfo>) -> bool {
    exists|k: int| 0 <= k < headers.len() && same_info(v, headers[k])
}

/// The number of `None` entries.
pub open spec fn count_none(s: Seq<Option<usize>>) -> nat
    decreases s.len(),
{
    if s.len() == 0 {
        0
    } else {
        count_none(s.drop_last()) + if s.last() is None {
            1nat
        } else {
            0nat
        }
    }
}

/// The header graph of one network.
///
/// Vertex `i` is `vertices[i]`; `hashes[i]` and `prevs[i]` are its block hash
/// and its previous block hash; `parent[i]` is the vertex of the edge into it.
/// There is an edge from `p` to `c` exactly when `c` builds on `p`: its
/// previous block hash is `p`'s hash and its height is one more. Two
/// indexes, keyed by the first four bytes of a hash, find a vertex by its
/// hash and the vertices that build on a hash.
pub struct HeaderGraph {
    pub vertices: Vec<HeaderInfo>,
    pub hashes: Vec<BlockHash>,
    pub prevs: Vec<BlockHash>,
    pub parent: Vec<Option<usize>>,
    /// The vertices by the key of their hash.
    pub by_hash: std::collections::BTreeMap<u32, Vec<usize>>,
    /// The vertices by the key of their previous block hash.
    pub by_prev: std::collections::BTreeMap<u32, Vec<usize>>,
}

impl HeaderGraph {
    /// The number of vertices.
    pub open spec fn n(&self) -> int {
        self.vertices@.len() as int
    }

    /// The block hash of vertex `i`.
    pub open spec fn hash_at(&self, i: int) -> Seq<u8> {
        block_hash_of(self.vertices@[i].header@)
    }

    /// The previous block hash of vertex `i`.
    pub open spec fn prev_at(&self, i: int) -> Seq<u8> {
        prev_hash_of(self.vertices@[i].header@)
    }

    /// The height of vertex `i`.
    pub open spec fn height_at(&self, i: int) -> int {
        self.vertices@[i].height as int
    }

    /// Whether vertex `c` builds on vertex `p`.
    pub open spec fn links(&self, p: int, c: int) -> bool {
        &&& 0 <= p < self.n()
        &&& 0 <= c < self.n()
        &&& self.hash_at(p) == self.prev_at(c)
        &&& self.height_at(c) == self.height_at(p) + 1
    }

    /// Whether the graph has an edge from `p` to `c`.
    pub open spec fn edge(&self, p: int, c: int) -> bool {
        0 <= c < self.n() && self.parent@[c] is Some && self.parent@[c]->Some_0 as int == p
    }

    /// Whether some vertex has hash `h`.
    pub open spec fn has_hash(&self, h: Seq<u8>) -> bool {
        exists|i: int| 0 <= i < self.n() && self.hash_at(i) == h
    }

    /// The vertex that the index gives for hash `h`.
    pub open spec fn index(&self, h: Seq<u8>) -> Option<int> {
        if self.has_hash(h) {
            Some(choose|i: int| 0 <= i < self.n() && self.hash_at(i) == h)
        } else {
            None
        }
    }

    /// Each vertex is filed in the hash index under the key of its hash,
    /// and the index files nothing else.
    pub open spec fn hash_index_ok(&self) -> bool {
        &&& forall|i: int|
            0 <= i < self.n() ==> bucket(self.by_hash@, key_of(#[trigger] self.hash_at(i))).contains(
                i as usize,
            )
        &&& forall|k: u32, j: int|
            0 <= j < bucket(self.by_hash@, k).len() ==> (#[trigger] bucket(self.by_hash@, k)[j]) < self.n()
                && key_of(self.hash_at(bucket(self.by_hash@, k)[j] as int)) == k
    }

    /// Each vertex is filed in the previous-hash index under the key of its
    /// previous block hash, and the index files nothing else.
    pub open spec fn prev_index_ok(&self) -> bool {
        &&& forall|i: int|
            0 <= i < self.n() ==> bucket(self.by_prev@, key_of(#[trigger] self.prev_at(i))).contains(
                i as usize,
            )
        &&& forall|k: u32, j: int|
            0 <= j < bucket(self.by_prev@, k).len() ==> (#[trigger] bucket(self.by_prev@, k)[j]) < self.n()
                && key_of(self.prev_at(bucket(self.by_prev@, k)[j] as int)) == k
    }

    /// The graph is well formed: the cached hashes agree with the headers,
    /// no two vertices share a hash, the edges are exactly the pairs in
    /// which one vertex builds on another, and the indexes file every vertex.
    pub open spec fn wf(&self) -> bool {
        &&& self.n() <= usize::MAX
        &&& self.hash_index_ok()
        &&& self.prev_index_ok()
        &&& forall|i: int| 0 <= i < self.n() ==> (#[trigger] self.hash_at(i)).len() == HASH_LEN
        &&& forall|i: int| 0 <= i < self.n() ==> (#[trigger] self.prev_at(i)).len() == HASH_LEN
        &&& self.hashes@.len() == self.n()
        &&& self.prevs@.len() == self.n()
        &&& self.parent@.len() == self.n()
        &&& forall|i: int| 0 <= i < self.n() ==> (#[trigger] self.hashes@[i])@ == self.hash_at(i)
        &&& forall|i: int| 0 <= i < self.n() ==> (#[trigger] self.prevs@[i])@ == self.prev_at(i)
        &&& forall|i: int, j: int|
            0 <= i < self.n() && 0 <= j < self.n() && i != j ==> #[trigger] self.hash_at(i)
                != #[trigger] self.hash_at(j)
        &&& forall|c: int|
            0 <= c < self.n() && #[trigger] self.parent@[c] is Some ==> self.links(
                self.parent@[c]->Some_0 as int,
                c,
            )
        &&& forall|p: int, c: int|
            0 <= c < self.n() && self.parent@[c] is None ==> !#[trigger] self.links(p, c)
    }

    /// An empty graph.
    pub fn new() -> (r: HeaderGraph)
        ensures
            r.wf(),
            r.n() == 0,
    {
        HeaderGraph {
            vertices: Vec::new(),
            hashes: Vec::new(),
            prevs: Vec::new(),
            parent: Vec::new(),
            by_hash: std::collections::BTreeMap::new(),
            by_prev: std::collections::BTreeMap::new(),
        }
    }

    /// The number of vertices.
    pub fn node_count(&self) -> (r: usize)
        ensures
            r == self.n(),
    {
        self.vertices.len()
    }

    /// The vertex with hash `h`, if there is one.
    pub fn lookup(&self, h: &BlockHash) -> (r: Option<usize>)
        requires
            self.wf(),
        ensures
            r is Some <==> self.has_hash(h@),
            r is Some ==> self.index(h@) == Some(r->Some_0 as int),
    {
        if h.bytes.len() != HASH_LEN {
            proof {
                if self.has_hash(h@) {
                    let i = choose|i: int| 0 <= i < self.n() && self.hash_at(i) == h@;
                    assert(self.hash_at(i).len() == HASH_LEN);
                }
            }
            return None;
        }
        let k = read_le_u32(&h.bytes, 0);
        let ghost b = bucket(self.by_hash@, k);
        let entries: &Vec<usize> = match self.by_hash.get(&k) {
            Some(entries) => entries,
            None => {
                proof {
                    if self.has_hash(h@) {
                        let i = choose|i: int| 0 <= i < self.n() && self.hash_at(i) == h@;
                        assert(bucket(self.by_hash@, key_of(self.hash_at(i))).contains(i as usize));
                    }
                }
                return None;
            },
        };
        assert(entries@ == b);
        let mut j: usize = 0;
        while j < entries.len()
            invariant
                self.wf(),
                entries@ == b,
                b == bucket(self.by_hash@, k),
                k == key_of(h@),
                j <= b.len(),
                forall|x: int| 0 <= x < j ==> self.hash_at(b[x] as int) != h@,
            decreases b.len() - j,
        {
            let idx = entries[j];
            assert(bucket(self.by_hash@, k)[j as int] < self.n());
            if self.hashes[idx].same(h) {
                assert(self.has_hash(h@));
                proof { self.lemma_index_unique(h@, idx as int); }
                return Some(idx);
            }
            j = j + 1;
        }
        proof {
            if self.has_hash(h@) {
                let i = choose|i: int| 0 <= i < self.n() && self.hash_at(i) == h@;
                assert(bucket(self.by_hash@, key_of(self.hash_at(i))).contains(i as usize));
                let x = choose|x: int| 0 <= x < b.len() && b[x] == i as usize;
                assert(self.hash_at(b[x] as int) != h@);
            }
        }
        None
    }

    /// Whether some vertex has hash `h`.
    pub fn contains(&self, h: &BlockHash) -> (r: bool)
        requires
            self.wf(),
        ensures
            r == self.has_hash(h@),
    {
        self.lookup(h).is_some()
    }

    /// Adds a header as a vertex unless its hash is already indexed, with the
    /// edge from its parent and the edges to the vertices that build on it.
    /// Returns whether the graph changed.
    pub fn insert(&mut self, hi: HeaderInfo) -> (r: bool)
        requires
            old(self).wf(),
            old(self).n() < usize::MAX,
        ensures
            final(self).wf(),
            r == !old(self).has_hash(block_hash_of(hi.header@)),
            r ==> final(self).vertices@ == old(self).vertices@.push(hi),
            !r ==> final(self).vertices@ == old(self).vertices@,
    {
        let h = hi.header.block_hash();
        if self.contains(&h) {
            return false;
        }
        let prev = hi.header.prev_blockhash();
        let n = self.vertices.len();
        let lp = self.lookup(&prev);
        let p: Option<usize> = match lp {
            Some(p) => {
                if hi.height > 0 && self.vertices[p].height == hi.height - 1 {
                    Some(p)
                } else {
                    None
                }
            },
            None => None,
        };
        // the vertices that may build on the new one
        let kh = read_le_u32(&h.bytes, 0);
        let kp = read_le_u32(&prev.bytes, 0);
        let ghost cb = bucket(self.by_prev@, kh);
        let mut cands: Vec<usize> = Vec::new();
        match self.by_prev.get(&kh) {
            Some(entries) => {
                let mut j: usize = 0;
                while j < entries.len()
                    invariant
                        entries@ == cb,
                        j <= cb.len(),
                        cands@ == cb.subrange(0, j as int),
                    decreases cb.len() - j,
                {
                    cands.push(entries[j]);
                    j = j + 1;
                }
                assert(cands@ =~= cb);
            },
            None => {
                assert(cands@ =~= cb);
            },
        }
        let ghost old_g = *self;
        let height = hi.height;
        self.vertices.push(hi);
        self.hashes.push(h);
        self.prevs.push(prev);
        let mut parent: Vec<Option<usize>> = Vec::new();
        std::mem::swap(&mut parent, &mut self.parent);
        parent.push(p);
        let ghost g1 = HeaderGraph {
            vertices: self.vertices,
            hashes: self.hashes,
            prevs: self.prevs,
            parent,
            by_hash: self.by_hash,
            by_prev: self.by_prev,
        };
        assert(g1.hash_at(n as int) == h@);
        assert(g1.prev_at(n as int) == prev@);
        assert(forall|i: int| 0 <= i < n ==> g1.hash_at(i) == old_g.hash_at(i));
        assert(forall|i: int| 0 <= i < n ==> g1.prev_at(i) == old_g.prev_at(i));
        assert(forall|i: int| 0 <= i < n ==> g1.height_at(i) == old_g.height_at(i));
        assert forall|q: int| parent@[n as int] is None implies !#[trigger] g1.links(q, n as int) by {
            if g1.links(q, n as int) {
                assert(q < n);
                assert(old_g.hash_at(q) == prev@);
                assert(old_g.has_hash(prev@));
                old_g.lemma_index_unique(prev@, q);
            }
        }
        assert(forall|i: int| 0 <= i < n ==> old_g.hash_at(i) != h@);
        assert forall|i: int, j: int|
            0 <= i < g1.n() && 0 <= j < g1.n() && i != j implies #[trigger] g1.hash_at(i)
                != #[trigger] g1.hash_at(j) by {
            if i < n && j < n {
                assert(old_g.hash_at(i) != old_g.hash_at(j));
            } else if i < n {
                assert(old_g.hash_at(i) != h@);
            } else {
                assert(old_g.hash_at(j) != h@);
            }
        }
        // a vertex that builds on the new one is filed under its key
        assert forall|q: int, i: int|
            0 <= i < n && parent@[i] is None implies !#[trigger] g1.links(q, i) || (q == n && cands@.contains(i as usize)) by {
            if g1.links(q, i) {
                if q != n {
                    assert(old_g.links(q, i));
                } else {
                    assert(old_g.prev_at(i) == h@);
                    assert(bucket(old_g.by_prev@, key_of(old_g.prev_at(i))).contains(i as usize));
                }
            }
        }
        assert forall|i: int| 0 <= i < g1.n() && #[trigger] parent@[i] is Some implies g1.links(
            parent@[i]->Some_0 as int,
            i,
        ) by {
            if i < n {
                assert(old_g.links(old_g.parent@[i]->Some_0 as int, i));
            }
        }
        let mut j: usize = 0;
        while j < cands.len()
            invariant
                0 <= j <= cands@.len(),
                n + 1 == g1.n(),
                forall|x: int| 0 <= x < cands@.len() ==> (#[trigger] cands@[x]) < n,
                parent@.len() == g1.n(),
                self.vertices == g1.vertices,
                self.hashes == g1.hashes,
                self.prevs == g1.prevs,
                self.by_hash == g1.by_hash,
                self.by_prev == g1.by_prev,
                self.parent@.len() == 0,
                g1.hashes@.len() == g1.n(),
                g1.prevs@.len() == g1.n(),
                h@ == g1.hash_at(n as int),
                g1.height_at(n as int) == height,
                forall|i: int| 0 <= i < g1.n() ==> (#[trigger] g1.hashes@[i])@ == g1.hash_at(i),
                forall|i: int| 0 <= i < g1.n() ==> (#[trigger] g1.prevs@[i])@ == g1.prev_at(i),
                forall|i: int, k: int|
                    0 <= i < g1.n() && 0 <= k < g1.n() && i != k ==> #[trigger] g1.hash_at(i)
                        != #[trigger] g1.hash_at(k),
                forall|i: int| 0 <= i < g1.n() && #[trigger] parent@[i] is Some ==> g1.links(
                    parent@[i]->Some_0 as int,
                    i,
                ),
                forall|q: int, i: int|
                    0 <= i < n && parent@[i] is None ==> !#[trigger] g1.links(q, i) || (q == n
                        && cands@.subrange(j as int, cands@.len() as int).contains(i as usize)),
                forall|q: int| parent@[n as int] is None ==> !#[trigger] g1.links(q, n as int),
            decreases cands@.len() - j,
        {
            let c = cands[j];
            if parent[c].is_none() && height < u64::MAX && self.vertices[c].height == height + 1
                && self.prevs[c].same(&self.hashes[n]) {
                parent.set(c, Some(n));
                assert(g1.links(n as int, c as int));
            } else {
                assert(parent@[c as int] is None ==> !g1.links(n as int, c as int));
            }
            proof {
                assert forall|q: int, i: int|
                    0 <= i < n && parent@[i] is None implies !#[trigger] g1.links(q, i) || (q == n
                        && cands@.subrange(j + 1, cands@.len() as int).contains(i as usize)) by {
                    if g1.links(q, i) && q == n && i != c {
                        let w = choose|w: int| 0 <= w < cands@.subrange(j as int, cands@.len() as int).len()
                            && cands@.subrange(j as int, cands@.len() as int)[w] == i as usize;
                        assert(w != 0);
                        assert(cands@.subrange(j + 1, cands@.len() as int)[w - 1] == i as usize);
                    }
                }
            }
            j = j + 1;
        }
        self.parent = parent;
        index_add(&mut self.by_hash, kh, n);
        index_add(&mut self.by_prev, kp, n);
        assert forall|p: int, i: int| #[trigger] self.links(p, i) == g1.links(p, i) by {
            if 0 <= p < self.n() && 0 <= i < self.n() {
                assert(self.hash_at(p) == g1.hash_at(p));
                assert(self.prev_at(i) == g1.prev_at(i));
            }
        }
        assert forall|i: int, k: int|
            0 <= i < self.n() && 0 <= k < self.n() && i != k implies #[trigger] self.hash_at(i)
                != #[trigger] self.hash_at(k) by {
            assert(g1.hash_at(i) != g1.hash_at(k));
        }
        assert forall|i: int| 0 <= i < self.n() implies (#[trigger] self.hashes@[i])@ == self.hash_at(i) by {
            assert(g1.hashes@[i]@ == g1.hash_at(i));
        }
        assert forall|i: int| 0 <= i < self.n() implies (#[trigger] self.prevs@[i])@ == self.prev_at(i) by {
            assert(g1.prevs@[i]@ == g1.prev_at(i));
        }
        assert forall|i: int| 0 <= i < self.n() implies (#[trigger] self.hash_at(i)).len() == HASH_LEN by {
            if i < n {
                assert(old_g.hash_at(i) == self.hash_at(i));
            }
        }
        assert forall|i: int| 0 <= i < self.n() implies (#[trigger] self.prev_at(i)).len() == HASH_LEN by {
            if i < n {
                assert(old_g.prev_at(i) == self.prev_at(i));
            }
        }
        assert(key_of(h@) == kh);
        assert(key_of(prev@) == kp);
        assert forall|i: int|
            0 <= i < self.n() implies bucket(self.by_hash@, key_of(#[trigger] self.hash_at(i))).contains(i as usize) by {
            if i < n {
                let k = key_of(old_g.hash_at(i));
                assert(bucket(old_g.by_hash@, k).contains(i as usize));
                let w = choose|w: int| 0 <= w < bucket(old_g.by_hash@, k).len() && bucket(old_g.by_hash@, k)[w] == i as usize;
                assert(bucket(self.by_hash@, k)[w] == i as usize);
            } else {
                assert(bucket(self.by_hash@, kh).last() == n);
            }
        }
        assert forall|k: u32, x: int|
            0 <= x < bucket(self.by_hash@, k).len() implies (#[trigger] bucket(self.by_hash@, k)[x]) < self.n()
                && key_of(self.hash_at(bucket(self.by_hash@, k)[x] as int)) == k by {
            if k != kh || x < bucket(old_g.by_hash@, k).len() {
                assert(bucket(self.by_hash@, k)[x] == bucket(old_g.by_hash@, k)[x]);
                assert(bucket(old_g.by_hash@, k)[x] < n);
                assert(self.hash_at(bucket(old_g.by_hash@, k)[x] as int) == old_g.hash_at(bucket(old_g.by_hash@, k)[x] as int));
            }
        }
        assert forall|i: int|
            0 <= i < self.n() implies bucket(self.by_prev@, key_of(#[trigger] self.prev_at(i))).contains(i as usize) by {
            if i < n {
                let k = key_of(old_g.prev_at(i));
                assert(bucket(old_g.by_prev@, k).contains(i as usize));
                let w = choose|w: int| 0 <= w < bucket(old_g.by_prev@, k).len() && bucket(old_g.by_prev@, k)[w] == i as usize;
                assert(bucket(self.by_prev@, k)[w] == i as usize);
            } else {
                assert(bucket(self.by_prev@, kp).last() == n);
            }
        }
        assert forall|k: u32, x: int|
            0 <= x < bucket(self.by_prev@, k).len() implies (#[trigger] bucket(self.by_prev@, k)[x]) < self.n()
                && key_of(self.prev_at(bucket(self.by_prev@, k)[x] as int)) == k by {
            if k != kp || x < bucket(old_g.by_prev@, k).len() {
                assert(bucket(self.by_prev@, k)[x] == bucket(old_g.by_prev@, k)[x]);
                assert(bucket(old_g.by_prev@, k)[x] < n);
                assert(self.prev_at(bucket(old_g.by_prev@, k)[x] as int) == old_g.prev_at(bucket(old_g.by_prev@, k)[x] as int));
            }
        }
        true
    }

    /// Adds every header of a batch that is not indexed yet, with its edges.
    /// Returns whether the graph changed.
    pub fn insert_headers(&mut self, headers: &Vec<HeaderInfo>) -> (r: bool)
        requires
            old(self).wf(),
            old(self).n() + headers@.len() < usize::MAX,
        ensures
            final(self).wf(),
            final(self).n() >= old(self).n(),
            final(self).vertices@.subrange(0, old(self).n()) == old(self).vertices@,
            forall|k: int|
                0 <= k < headers@.len() ==> final(self).has_hash(
                    block_hash_of(#[trigger] headers@[k].header@),
                ),
            forall|i: int|
                old(self).n() <= i < final(self).n() ==> from_batch(
                    #[trigger] final(self).vertices@[i],
                    headers@,
                ),
            forall|h: Seq<u8>| #[trigger] final(self).has_hash(h) ==> old(self).has_hash(h) || exists|k: int|
                0 <= k < headers@.len() && block_hash_of(headers@[k].header@) == h,
            r == (final(self).n() > old(self).n()),
    {
        let ghost old_g = *self;
        let mut changed = false;
        let mut k: usize = 0;
        while k < headers.len()
            invariant
                self.wf(),
                k <= headers@.len(),
                self.n() >= old_g.n(),
                self.n() <= old_g.n() + k,
                old_g.n() + headers@.len() < usize::MAX,
                self.vertices@.subrange(0, old_g.n()) == old_g.vertices@,
                forall|j: int|
                    0 <= j < k ==> self.has_hash(block_hash_of(#[trigger] headers@[j].header@)),
                forall|i: int|
                    old_g.n() <= i < self.n() ==> from_batch(#[trigger] self.vertices@[i], headers@),
                changed == (self.n() > old_g.n()),
            decreases headers@.len() - k,
        {
            let ghost before = *self;
            let hi = headers[k].duplicate();
            let ghost hk = block_hash_of(headers@[k as int].header@);
            let added = self.insert(hi);
            changed = changed || added;
            assert(self.vertices@.subrange(0, old_g.n()) =~= old_g.vertices@) by {
                assert(self.vertices@.subrange(0, before.n()) =~= before.vertices@);
            }
            assert forall|j: int| 0 <= j <= k implies self.has_hash(
                block_hash_of(#[trigger] headers@[j].header@),
            ) by {
                let hj = block_hash_of(headers@[j].header@);
                if j < k {
                    let w = choose|w: int| 0 <= w < before.n() && before.hash_at(w) == hj;
                    assert(self.hash_at(w) == hj);
                } else if added {
                    assert(self.hash_at(before.n()) == hj);
                } else {
                    let w = choose|w: int| 0 <= w < before.n() && before.hash_at(w) == hj;
                    assert(self.hash_at(w) == hj);
                }
            }
            assert forall|i: int| old_g.n() <= i < self.n() implies from_batch(
                #[trigger] self.vertices@[i],
                headers@,
            ) by {
                if i < before.n() {
                    assert(self.vertices@[i] == before.vertices@[i]);
                } else {
                    assert(same_info(self.vertices@[i], headers@[k as int]));
                }
            }
            k = k + 1;
        }
        assert forall|h: Seq<u8>| #[trigger] self.has_hash(h) implies old_g.has_hash(h) || exists|k2: int|
            0 <= k2 < headers@.len() && block_hash_of(headers@[k2].header@) == h by {
            let i = choose|i: int| 0 <= i < self.n() && self.hash_at(i) == h;
            if i < old_g.n() {
                assert(self.vertices@.subrange(0, old_g.n())[i] == old_g.vertices@[i]);
                assert(old_g.hash_at(i) == h);
            } else {
                assert(from_batch(self.vertices@[i], headers@));
                let k2 = choose|k2: int| 0 <= k2 < headers@.len() && same_info(self.vertices@[i], headers@[k2]);
                assert(block_hash_of(headers@[k2].header@) == h);
            }
        }
        changed
    }

    /// Builds a graph from a list of headers: every header becomes a vertex
    /// (the first of any that share a hash), with all its edges.
    pub fn from_headers(headers: &Vec<HeaderInfo>) -> (r: HeaderGraph)
        requires
            headers@.len() < usize::MAX,
        ensures
            r.wf(),
            forall|k: int|
                0 <= k < headers@.len() ==> r.has_hash(block_hash_of(#[trigger] headers@[k].header@)),
            forall|i: int| 0 <= i < r.n() ==> from_batch(#[trigger] r.vertices@[i], headers@),
            forall|h: Seq<u8>| #[trigger] r.has_hash(h) ==> exists|k: int|
                0 <= k < headers@.len() && block_hash_of(headers@[k].header@) == h,
    {
        let mut g = HeaderGraph::new();
        g.insert_headers(headers);
        g
    }

    /// The number of roots: vertices without an incoming edge.
    pub fn root_count(&self) -> (r: usize)
        requires
            self.wf(),
        ensures
            r == count_none(self.parent@),
    {
        let mut r: usize = 0;
        let mut i: usize = 0;
        while i < self.parent.len()
            invariant
                i <= self.parent@.len(),
                r == count_none(self.parent@.subrange(0, i as int)),
                r <= i,
            decreases self.parent@.len() - i,
        {
            assert(self.parent@.subrange(0, i + 1).drop_last() =~= self.parent@.subrange(0, i as int));
            if self.parent[i].is_none() {
                r = r + 1;
            }
            i = i + 1;
        }
        assert(self.parent@.subrange(0, i as int) =~= self.parent@);
        r
    }

    /// The vertices with an edge from `p`, in ascending order.
    pub fn children(&self, p: usize) -> (r: Vec<usize>)
        requires
            self.wf(),
        ensures
            forall|k: int| 0 <= k < r@.len() ==> self.edge(p as int, #[trigger] r@[k] as int),
            forall|k: int, l: int| 0 <= k < l < r@.len() ==> r@[k] < r@[l],
            forall|c: int| #[trigger] self.edge(p as int, c) ==> r@.contains(c as usize),
    {
        let mut r: Vec<usize> = Vec::new();
        let mut c: usize = 0;
        while c < self.parent.len()
            invariant
                self.wf(),
                c <= self.n(),
                forall|k: int| 0 <= k < r@.len() ==> self.edge(p as int, #[trigger] r@[k] as int),
                forall|k: int| 0 <= k < r@.len() ==> #[trigger] r@[k] < c,
                forall|k: int, l: int| 0 <= k < l < r@.len() ==> r@[k] < r@[l],
                forall|x: int| 0 <= x < c && #[trigger] self.edge(p as int, x) ==> r@.contains(x as usize),
            decreases self.n() - c,
        {
            let ghost r0 = r@;
            if self.parent[c] == Some(p) {
                r.push(c);
                assert(r@[r@.len() - 1] == c);
            }
            assert forall|x: int| 0 <= x <= c && #[trigger] self.edge(p as int, x) implies r@.contains(
                x as usize,
            ) by {
                if x < c {
                    let w = choose|w: int| 0 <= w < r0.len() && r0[w] == x as usize;
                    assert(r@[w] == x as usize);
                } else {
                    assert(r@[r@.len() - 1] == c);
                }
            }
            c = c + 1;
        }
        r
    }

    /// Sets the miner of the vertex with hash `h`, looked up afresh; returns
    /// whether there was one.
    pub fn update_miner(&mut self, h: &BlockHash, miner: String) -> (r: bool)
        requires
            old(self).wf(),
        ensures
            final(self).wf(),
            r == old(self).has_hash(h@),
            final(self).n() == old(self).n(),
            final(self).parent == old(self).parent,
            forall|i: int|
                0 <= i < old(self).n() ==> #[trigger] final(self).vertices@[i].height
                    == old(self).vertices@[i].height && final(self).vertices@[i].header@
                    == old(self).vertices@[i].header@ && final(self).vertices@[i].miner@ == if old(
                    self,
                ).hash_at(i) == h@ {
                    miner@
                } else {
                    old(self).vertices@[i].miner@
                },
    {
        match self.lookup(h) {
            Some(i) => {
                let ghost old_g = *self;
                let v = HeaderInfo {
                    height: self.vertices[i].height,
                    header: self.vertices[i].header.duplicate(),
                    miner,
                };
                self.vertices.set(i, v);
                assert(forall|j: int| 0 <= j < self.n() ==> self.hash_at(j) == old_g.hash_at(j));
                assert(forall|j: int| 0 <= j < self.n() ==> self.prev_at(j) == old_g.prev_at(j));
                assert forall|p: int, c: int| #[trigger] self.links(p, c) == old_g.links(p, c) by {
                    if 0 <= p < self.n() && 0 <= c < self.n() {
                        assert(self.hash_at(p) == old_g.hash_at(p));
                        assert(self.prev_at(c) == old_g.prev_at(c));
                    }
                }
                assert forall|j: int| 0 <= j < old_g.n() && j != i implies old_g.hash_at(j) != h@ by {
                    assert(old_g.hash_at(j) != old_g.hash_at(i as int));
                }
                assert forall|a: int, b: int|
                    0 <= a < self.n() && 0 <= b < self.n() && a != b implies #[trigger] self.hash_at(a)
                        != #[trigger] self.hash_at(b) by {
                    assert(old_g.hash_at(a) != old_g.hash_at(b));
                }
                assert forall|j: int| 0 <= j < self.n() implies (#[trigger] self.hashes@[j])@ == self.hash_at(j) by {
                    assert(old_g.hashes@[j]@ == old_g.hash_at(j));
                }
                assert forall|j: int| 0 <= j < self.n() implies (#[trigger] self.prevs@[j])@ == self.prev_at(j) by {
                    assert(old_g.prevs@[j]@ == old_g.prev_at(j));
                }
                assert forall|j: int| 0 <= j < self.n() implies (#[trigger] self.hash_at(j)).len() == HASH_LEN by {
                    assert(old_g.hash_at(j).len() == HASH_LEN);
                }
                assert forall|j: int| 0 <= j < self.n() implies (#[trigger] self.prev_at(j)).len() == HASH_LEN by {
                    assert(old_g.prev_at(j).len() == HASH_LEN);
                }
                assert forall|j: int|
                    0 <= j < self.n() implies bucket(self.by_hash@, key_of(#[trigger] self.hash_at(j))).contains(j as usize) by {
                    assert(bucket(old_g.by_hash@, key_of(old_g.hash_at(j))).contains(j as usize));
                }
                assert forall|k: u32, x: int|
                    0 <= x < bucket(self.by_hash@, k).len() implies (#[trigger] bucket(self.by_hash@, k)[x]) < self.n()
                        && key_of(self.hash_at(bucket(self.by_hash@, k)[x] as int)) == k by {
                    assert(bucket(old_g.by_hash@, k)[x] < old_g.n());
                }
                assert forall|j: int|
                    0 <= j < self.n() implies bucket(self.by_prev@, key_of(#[trigger] self.prev_at(j))).contains(j as usize) by {
                    assert(bucket(old_g.by_prev@, key_of(old_g.prev_at(j))).contains(j as usize));
                }
                assert forall|k: u32, x: int|
                    0 <= x < bucket(self.by_prev@, k).len() implies (#[trigger] bucket(self.by_prev@, k)[x]) < self.n()
                        && key_of(self.prev_at(bucket(self.by_prev@, k)[x] as int)) == k by {
                    assert(bucket(old_g.by_prev@, k)[x] < old_g.n());
                }
                true
            },
            None => false,
        }
    }

    /// In a well-formed graph the index gives the one vertex with that hash.
    pub proof fn lemma_index_unique(&self, h: Seq<u8>, i: int)
        requires
            self.wf(),
            0 <= i < self.n(),
            self.hash_at(i) == h,
        ensures
            self.index(h) == Some(i),
    {
        let j = choose|j: int| 0 <= j < self.n() && self.hash_at(j) == h;
        assert(self.hash_at(j) == self.hash_at(i));
    }
}

/// The index resolves the hash of every vertex back to that vertex.
pub proof fn lemma_index_resolves(g: &HeaderGraph, i: int)
    requires
        g.wf(),
        0 <= i < g.n(),
    ensures
        g.index(g.hash_at(i)) == Some(i),
{
    g.lemma_index_unique(g.hash_at(i), i);
}

/// Along every edge the child's previous block hash is the parent's hash and
/// the child is one block higher.
pub proof fn lemma_edge_links(g: &HeaderGraph, p: int, c: int)
    requires
        g.wf(),
        g.edge(p, c),
    ensures
        g.prev_at(c) == g.hash_at(p),
        g.height_at(c) == g.height_at(p) + 1,
{
    assert(g.parent@[c] is Some);
    assert(g.links(g.parent@[c]->Some_0 as int, c));
}

/// No vertex has more than one incoming edge, and no two vertices could both
/// be a vertex's parent.
pub proof fn lemma_in_degree_at_most_one(g: &HeaderGraph, pa: int, pb: int, c: int)
    requires
        g.wf(),
        g.links(pa, c),
        g.links(pb, c),
    ensures
        pa == pb,
        g.edge(pa, c),
        g.edge(pb, c) ==> g.edge(pa, c) && pa == pb,
{
    if pa != pb {
        assert(g.hash_at(pa) != g.hash_at(pb));
    }
    if g.parent@[c] is None {
        assert(!g.links(pa, c));
    } else {
        let q = g.parent@[c]->Some_0 as int;
        assert(g.links(q, c));
        if q != pa {
            assert(g.hash_at(q) != g.hash_at(pa));
        }
    }
}

/// Whether vertex `i` of `g` and vertex `j` of `h` are the same header at the
/// same height.
pub open spec fn same_vertex(g: &HeaderGraph, i: int, h: &HeaderGraph, j: int) -> bool {
    &&& 0 <= i < g.n()
    &&& 0 <= j < h.n()
    &&& g.vertices@[i].header@ == h.vertices@[j].header@
    &&& g.vertices@[i].height == h.vertices@[j].height
}

/// Two well-formed graphs over the same headers have the same edges: a graph
/// rebuilt from the stored headers of another is isomorphic to it, whatever
/// the order of its vertices.
pub proof fn lemma_same_headers_same_edges(
    g: &HeaderGraph,
    h: &HeaderGraph,
    p: int,
    c: int,
    pb: int,
    cb: int,
)
    requires
        g.wf(),
        h.wf(),
        same_vertex(g, p, h, pb),
        same_vertex(g, c, h, cb),
    ensures
        g.edge(p, c) <==> h.edge(pb, cb),
{
    assert(g.links(p, c) == h.links(pb, cb));
    if g.edge(p, c) {
        lemma_edge_links(g, p, c);
        assert(h.links(pb, cb));
        lemma_in_degree_at_most_one(h, pb, pb, cb);
    }
    if h.edge(pb, cb) {
        lemma_edge_links(h, pb, cb);
        assert(g.links(p, c));
        lemma_in_degree_at_most_one(g, p, p, c);
    }
}

/// Whether vertex `i` of `g` has a vertex of `h` with its header and height.
pub open spec fn has_match(g: &HeaderGraph, h: &HeaderGraph, i: int) -> bool {
    exists|j: int| #[trigger] same_vertex(g, i, h, j)
}

/// A graph rebuilt from the headers of another, both well formed, is
/// isomorphic to it modulo vertex ids: matching vertices by header and height
/// is a bijection, and it maps edges to edges both ways.
pub proof fn lemma_reload_isomorphic(g: &HeaderGraph, h: &HeaderGraph)
    requires
        g.wf(),
        h.wf(),
        forall|i: int| 0 <= i < g.n() ==> h.has_hash(#[trigger] g.hash_at(i)),
        forall|j: int| #![trigger h.vertices@[j]] 0 <= j < h.n() ==> exists|i: int| #[trigger] same_vertex(g, i, h, j),
    ensures
        forall|i: int| 0 <= i < g.n() ==> #[trigger] has_match(g, h, i),
        forall|i: int, ja: int, jb: int| same_vertex(g, i, h, ja) && same_vertex(g, i, h, jb) ==> ja == jb,
        forall|ia: int, ib: int, j: int| same_vertex(g, ia, h, j) && same_vertex(g, ib, h, j) ==> ia == ib,
        forall|p: int, c: int, pb: int, cb: int|
            same_vertex(g, p, h, pb) && same_vertex(g, c, h, cb) ==> (g.edge(p, c) <==> h.edge(pb, cb)),
{
    assert forall|i: int| 0 <= i < g.n() implies #[trigger] has_match(g, h, i) by {
        let j = choose|j: int| 0 <= j < h.n() && h.hash_at(j) == g.hash_at(i);
        assert(h.vertices@[j] == h.vertices@[j]);
        let i2 = choose|i2: int| #[trigger] same_vertex(g, i2, h, j);
        assert(g.hash_at(i2) == h.hash_at(j));
        if i2 != i {
            assert(g.hash_at(i2) != g.hash_at(i));
        }
        assert(same_vertex(g, i, h, j));
    }
    assert forall|i: int, ja: int, jb: int| same_vertex(g, i, h, ja) && same_vertex(g, i, h, jb) implies ja == jb by {
        if ja != jb {
            assert(h.hash_at(ja) != h.hash_at(jb));
        }
    }
    assert forall|ia: int, ib: int, j: int| same_vertex(g, ia, h, j) && same_vertex(g, ib, h, j) implies ia == ib by {
        if ia != ib {
            assert(g.hash_at(ia) != g.hash_at(ib));
        }
    }
    assert forall|p: int, c: int, pb: int, cb: int|
        same_vertex(g, p, h, pb) && same_vertex(g, c, h, cb) implies (g.edge(p, c) <==> h.edge(pb, cb)) by {
        lemma_same_headers_same_edges(g, h, p, c, pb, cb);
    }
}

} // verus!
