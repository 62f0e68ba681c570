//! The tree-strip engine: reduces a header graph to the headers around its
//! interesting heights (tips, forks, the top), reconnected into one tree.
use vstd::prelude::*;

use crate::graph::HeaderGraph;
use crate::graph::same_info;
use crate::types::{is_json_of, Fork, HeaderInfo, HeaderInfoJson};

verus! {

broadcast use vstd::laws_cmp::group_laws_cmp, vstd::std_specs::btree::group_btree_axioms;

/// Whether more than one vertex has height `h`.
pub open spec fn is_fork_height(g: &HeaderGraph, h: u64) -> bool {
    exists|i: int, j: int|
        0 <= i < j < g.n() && g.height_at(i) == h && g.height_at(j) == h
}

/// Whether `h` is the largest height in the graph.
pub open spec fn is_max_height(g: &HeaderGraph, h: u64) -> bool {
    &&& exists|i: int| 0 <= i < g.n() && g.height_at(i) == h
    &&& forall|j: int| 0 <= j < g.n() ==> g.height_at(j) <= h
}

/// Whether `h` is interesting: a fork height, a tip height, or the largest
/// height. An empty graph has no interesting heights.
pub open spec fn is_interesting(g: &HeaderGraph, tips: Seq<u64>, h: u64) -> bool {
    g.n() > 0 && (is_fork_height(g, h) || tips.contains(h) || is_max_height(g, h))
}

/// Whether a sequence is strictly ascending.
pub open spec fn strictly_ascending(s: Seq<u64>) -> bool {
    forall|a: int, b: int| 0 <= a < b < s.len() ==> s[a] < s[b]
}

/// Whether `r` is the `max` largest interesting heights (all of them if
/// there are fewer), in ascending order.
pub open spec fn is_top_interesting(g: &HeaderGraph, tips: Seq<u64>, max: nat, r: Seq<u64>) -> bool {
    &&& strictly_ascending(r)
    &&& r.len() <= max
    &&& forall|k: int| 0 <= k < r.len() ==> is_interesting(g, tips, #[trigger] r[k])
    &&& forall|h: u64| #[trigger] is_interesting(g, tips, h) && !r.contains(h) ==> r.len() == max && (r.len() > 0 ==> h < r[0])
}

/// The heights that have more than one vertex, with repetitions.
fn fork_heights(g: &HeaderGraph) -> (r: Vec<u64>)
    requires
        g.wf(),
    ensures
        forall|k: int| 0 <= k < r@.len() ==> is_fork_height(g, #[trigger] r@[k]),
        forall|h: u64| is_fork_height(g, h) ==> #[trigger] r@.contains(h),
{
    let mut first: std::collections::BTreeMap<u64, usize> = std::collections::BTreeMap::new();
    let mut r: Vec<u64> = Vec::new();
    let mut i: usize = 0;
    while i < g.vertices.len()
        invariant
            g.wf(),
            i <= g.n(),
            forall|h: u64| #[trigger] first@.contains_key(h) ==> {
                let j = first@[h] as int;
                0 <= j < i && g.height_at(j) == h
            },
            forall|j: int| 0 <= j < i ==> #[trigger] first@.contains_key(g.vertices@[j].height),
            forall|k: int| 0 <= k < r@.len() ==> is_fork_height(g, #[trigger] r@[k]),
            forall|b: int|
                0 <= b < i && (exists|a: int| 0 <= a < b && g.height_at(a) == g.height_at(b))
                    ==> #[trigger] r@.contains(g.vertices@[b].height),
        decreases g.n() - i,
    {
        let h = g.vertices[i].height;
        let ghost r0 = r@;
        match first.get(&h) {
            Some(j) => {
                let j = *j;
                assert(is_fork_height(g, h)) by {
                    assert(0 <= j < i && g.height_at(j as int) == h && g.height_at(i as int) == h);
                }
                r.push(h);
            },
            None => {
                first.insert(h, i);
            },
        }
        assert forall|b: int|
            0 <= b <= i && (exists|a: int| 0 <= a < b && g.height_at(a) == g.height_at(b))
                implies #[trigger] r@.contains(g.vertices@[b].height) by {
            if b < i {
                assert(r0.contains(g.vertices@[b].height));
                let w = choose|w: int| 0 <= w < r0.len() && r0[w] == g.vertices@[b].height;
                assert(r@[w] == r0[w]);
            } else {
                let a = choose|a: int| 0 <= a < b && g.height_at(a) == g.height_at(b);
                assert(first@.contains_key(g.vertices@[a].height));
                assert(r@[r@.len() - 1] == h);
            }
        }
        i = i + 1;
    }
    assert forall|h: u64| is_fork_height(g, h) implies #[trigger] r@.contains(h) by {
        let (a, b) = choose|a: int, b: int|
            0 <= a < b < g.n() && g.height_at(a) == h && g.height_at(b) == h;
        assert(exists|a2: int| 0 <= a2 < b && g.height_at(a2) == g.height_at(b));
        assert(r@.contains(g.vertices@[b].height));
    }
    r
}

/// The largest height in a non-empty graph.
fn max_height(g: &HeaderGraph) -> (r: u64)
    requires
        g.wf(),
        g.n() > 0,
    ensures
        is_max_height(g, r),
{
    let mut r = g.vertices[0].height;
    let mut i: usize = 1;
    let ghost mut at: int = 0;
    while i < g.vertices.len()
        invariant
            1 <= i <= g.n(),
            0 <= at < g.n(),
            g.height_at(at) == r,
            forall|j: int| 0 <= j < i ==> g.height_at(j) <= r,
        decreases g.n() - i,
    {
        if g.vertices[i].height > r {
            r = g.vertices[i].height;
            proof {
                at = i as int;
            }
        }
        i = i + 1;
    }
    r
}

/// Whether `s` holds a value below `bound` (below anything for `None`).
pub open spec fn below(x: u64, bound: Option<u64>) -> bool {
    bound is None || x < bound->Some_0
}

/// The largest value of `s` below `bound`, if any.
fn largest_below(s: &Vec<u64>, bound: Option<u64>) -> (r: Option<u64>)
    ensures
        r is Some ==> s@.contains(r->Some_0) && below(r->Some_0, bound),
        r is Some ==> forall|k: int| 0 <= k < s@.len() && below(#[trigger] s@[k], bound) ==> s@[k] <= r->Some_0,
        r is None ==> forall|k: int| 0 <= k < s@.len() ==> !below(#[trigger] s@[k], bound),
{
    let mut best: Option<u64> = None;
    let mut j: usize = 0;
    while j < s.len()
        invariant
            j <= s@.len(),
            best is Some ==> s@.contains(best->Some_0) && below(best->Some_0, bound),
            best is Some ==> forall|k: int| 0 <= k < j && below(#[trigger] s@[k], bound) ==> s@[k] <= best->Some_0,
            best is None ==> forall|k: int| 0 <= k < j ==> !below(#[trigger] s@[k], bound),
        decreases s@.len() - j,
    {
        let x = s[j];
        let ok = match bound {
            Some(b) => x < b,
            None => true,
        };
        if ok {
            match best {
                Some(b) => {
                    if x > b {
                        best = Some(x);
                    }
                },
                None => {
                    best = Some(x);
                },
            }
        }
        j = j + 1;
    }
    best
}

/// The interesting heights of a graph: the heights that more than one vertex
/// has, the tip heights and the largest height; of those the
/// `max_interesting_heights` largest, in ascending order. Empty for an empty
/// graph.
pub fn sorted_interesting_heights(
    g: &HeaderGraph,
    max_interesting_heights: usize,
    tip_heights: &Vec<u64>,
) -> (r: Vec<u64>)
    requires
        g.wf(),
    ensures
        is_top_interesting(g, tip_heights@, max_interesting_heights as nat, r@),
{
    if g.vertices.len() == 0 {
        return Vec::new();
    }
    let mut cands = fork_heights(g);
    let mut t: usize = 0;
    while t < tip_heights.len()
        invariant
            g.wf(),
            g.n() > 0,
            t <= tip_heights@.len(),
            forall|k: int| 0 <= k < cands@.len() ==> is_interesting(g, tip_heights@, #[trigger] cands@[k]),
            forall|h: u64| is_fork_height(g, h) ==> #[trigger] cands@.contains(h),
            forall|k: int| 0 <= k < t ==> cands@.contains(#[trigger] tip_heights@[k]),
        decreases tip_heights@.len() - t,
    {
        let ghost c0 = cands@;
        cands.push(tip_heights[t]);
        assert(tip_heights@.contains(tip_heights@[t as int]));
        assert forall|h: u64| is_fork_height(g, h) implies #[trigger] cands@.contains(h) by {
            assert(c0.contains(h));
            let w = choose|w: int| 0 <= w < c0.len() && c0[w] == h;
            assert(cands@[w] == h);
        }
        assert forall|k: int| 0 <= k <= t implies cands@.contains(#[trigger] tip_heights@[k]) by {
            if k < t {
                assert(c0.contains(tip_heights@[k]));
                let w = choose|w: int| 0 <= w < c0.len() && c0[w] == tip_heights@[k];
                assert(cands@[w] == tip_heights@[k]);
            } else {
                assert(cands@[cands@.len() - 1] == tip_heights@[k]);
            }
        }
        t = t + 1;
    }
    let top = max_height(g);
    let ghost c1 = cands@;
    cands.push(top);
    assert forall|h: u64| #[trigger] is_interesting(g, tip_heights@, h) implies cands@.contains(h) by {
        if is_max_height(g, h) {
            if h != top {
                let i1 = choose|i: int| 0 <= i < g.n() && g.height_at(i) == h;
                let i2 = choose|i: int| 0 <= i < g.n() && g.height_at(i) == top;
                assert(g.height_at(i2) <= h && g.height_at(i1) <= top);
            }
            assert(cands@[cands@.len() - 1] == h);
        } else {
            if is_fork_height(g, h) {
                assert(c1.contains(h));
            } else {
                let k = choose|k: int| 0 <= k < tip_heights@.len() && tip_heights@[k] == h;
                assert(c1.contains(tip_heights@[k]));
            }
            let w = choose|w: int| 0 <= w < c1.len() && c1[w] == h;
            assert(cands@[w] == h);
        }
    }
    assert(forall|k: int| 0 <= k < cands@.len() ==> is_interesting(g, tip_heights@, #[trigger] cands@[k])) by {
        assert(forall|k: int| 0 <= k < c1.len() ==> cands@[k] == c1[k]);
    }
    let mut desc: Vec<u64> = Vec::new();
    let mut bound: Option<u64> = None;
    let mut done = false;
    while desc.len() < max_interesting_heights && !done
        invariant
            done ==> forall|h: u64| #[trigger] is_interesting(g, tip_heights@, h) ==> desc@.contains(h),
            desc@.len() <= max_interesting_heights,
            forall|a: int, b: int| 0 <= a < b < desc@.len() ==> desc@[a] > desc@[b],
            forall|k: int| 0 <= k < desc@.len() ==> is_interesting(g, tip_heights@, #[trigger] desc@[k]),
            forall|k: int| 0 <= k < cands@.len() ==> is_interesting(g, tip_heights@, #[trigger] cands@[k]),
            forall|h: u64| #[trigger] is_interesting(g, tip_heights@, h) ==> cands@.contains(h),
            bound is None <==> desc@.len() == 0,
            bound is Some ==> bound->Some_0 == desc@[desc@.len() - 1],
            forall|h: u64|
                #[trigger] is_interesting(g, tip_heights@, h) && !desc@.contains(h) ==> below(h, bound),
        decreases max_interesting_heights - desc@.len() + if done { 0int } else { 1int },
    {
        match largest_below(&cands, bound) {
            Some(x) => {
                let ghost d0 = desc@;
                desc.push(x);
                bound = Some(x);
                assert forall|h: u64|
                    #[trigger] is_interesting(g, tip_heights@, h) && !desc@.contains(h) implies below(
                        h,
                        bound,
                    ) by {
                    if !d0.contains(h) {
                        let w = choose|w: int| 0 <= w < cands@.len() && cands@[w] == h;
                        assert(below(cands@[w], if d0.len() == 0 { None } else { Some(d0[d0.len() - 1]) }));
                        assert(h <= x);
                        if h == x {
                            assert(desc@[desc@.len() - 1] == x);
                        }
                    } else {
                        let w = choose|w: int| 0 <= w < d0.len() && d0[w] == h;
                        assert(desc@[w] == h);
                    }
                }
            },
            None => {
                assert forall|h: u64| #[trigger] is_interesting(g, tip_heights@, h) implies desc@.contains(h) by {
                    if !desc@.contains(h) {
                        let w = choose|w: int| 0 <= w < cands@.len() && cands@[w] == h;
                        assert(!below(cands@[w], bound));
                    }
                }
                done = true;
            },
        }
    }
    let mut r: Vec<u64> = Vec::new();
    let mut i: usize = desc.len();
    while i > 0
        invariant
            i <= desc@.len(),
            r@ =~= Seq::new((desc@.len() - i) as nat, |k: int| desc@[desc@.len() - 1 - k]),
        decreases i,
    {
        i = i - 1;
        r.push(desc[i]);
    }
    assert forall|h: u64| #[trigger] is_interesting(g, tip_heights@, h) && !r@.contains(h) implies r@.len()
        == max_interesting_heights && (r@.len() > 0 ==> h < r@[0]) by {
        if desc@.contains(h) {
            let w = choose|w: int| 0 <= w < desc@.len() && desc@[w] == h;
            assert(r@[desc@.len() - 1 - w] == h);
        }
        assert(desc@.len() == max_interesting_heights);
        if desc@.len() > 0 {
            assert(r@[0] == desc@[desc@.len() - 1]);
        }
    }
    assert forall|k: int| 0 <= k < r@.len() implies is_interesting(g, tip_heights@, #[trigger] r@[k]) by {
        assert(r@[k] == desc@[desc@.len() - 1 - k]);
    }
    r
}

/// Whether a vertex of height `h` is kept around the interesting heights
/// `ih`: `h` itself, the height above, or one of the two below is
/// interesting.
pub open spec fn keep(ih: Seq<u64>, h: u64) -> bool {
    ||| ih.contains(h)
    ||| (h >= 1 && ih.contains((h - 1) as u64))
    ||| (h < u64::MAX && ih.contains((h + 1) as u64))
    ||| (h < u64::MAX - 1 && ih.contains((h + 2) as u64))
}

/// Whether vertex `i` is kept.
pub open spec fn is_kept(g: &HeaderGraph, ih: Seq<u64>, i: int) -> bool {
    0 <= i < g.n() && keep(ih, g.vertices@[i].height)
}

/// The kept vertices among the first `m`, in ascending order.
pub open spec fn kept_upto(g: &HeaderGraph, ih: Seq<u64>, m: int) -> Seq<int>
    decreases m,
{
    if m <= 0 {
        Seq::empty()
    } else if is_kept(g, ih, m - 1) {
        kept_upto(g, ih, m - 1).push(m - 1)
    } else {
        kept_upto(g, ih, m - 1)
    }
}

/// The id of kept vertex `i` in the reduced tree: how many kept vertices
/// come before it.
pub open spec fn rank(g: &HeaderGraph, ih: Seq<u64>, i: int) -> int {
    kept_upto(g, ih, i).len() as int
}

/// The parent of vertex `i` in the reduced forest: its parent, if kept.
pub open spec fn kparent(g: &HeaderGraph, ih: Seq<u64>, i: int) -> Option<int> {
    if 0 <= i < g.n() && g.parent@[i] is Some && is_kept(g, ih, g.parent@[i]->Some_0 as int) {
        Some(g.parent@[i]->Some_0 as int)
    } else {
        None
    }
}

/// Whether kept vertex `i` is a root of the reduced forest.
pub open spec fn is_root(g: &HeaderGraph, ih: Seq<u64>, i: int) -> bool {
    is_kept(g, ih, i) && kparent(g, ih, i) is None
}

/// The root of the reduced forest above vertex `i`.
pub open spec fn top(g: &HeaderGraph, ih: Seq<u64>, i: int) -> int
    decreases g.height_at(i),
    when g.wf() && 0 <= i < g.n()
{
    match kparent(g, ih, i) {
        Some(p) => top(g, ih, p),
        None => i,
    }
}

/// The order in which roots are reconnected: by height, then by vertex.
pub open spec fn key_lt(g: &HeaderGraph, a: int, b: int) -> bool {
    g.height_at(a) < g.height_at(b) || (g.height_at(a) == g.height_at(b) && a < b)
}

/// Whether root `q` comes right before root `r` in reconnection order.
pub open spec fn is_pred_root(g: &HeaderGraph, ih: Seq<u64>, r: int, q: int) -> bool {
    &&& is_root(g, ih, q)
    &&& key_lt(g, q, r)
    &&& forall|x: int| #[trigger] is_root(g, ih, x) && key_lt(g, q, x) ==> !key_lt(g, x, r)
}

/// Whether `v` is the deepest vertex of the reduced tree under root `r`: the
/// highest, and the first of equally high ones.
pub open spec fn is_deepest(g: &HeaderGraph, ih: Seq<u64>, r: int, v: int) -> bool {
    &&& is_kept(g, ih, v)
    &&& top(g, ih, v) == r
    &&& forall|w: int|
        #[trigger] is_kept(g, ih, w) && top(g, ih, w) == r ==> g.height_at(w) < g.height_at(v) || (
        g.height_at(w) == g.height_at(v) && v <= w)
}

/// Whether `pv` is the id of the predecessor of kept vertex `i` in the
/// reconnected tree: its kept parent; for a root, the deepest vertex under
/// the root before it; `usize::MAX` for the first root.
pub open spec fn is_strip_prev(g: &HeaderGraph, ih: Seq<u64>, i: int, pv: usize) -> bool {
    match kparent(g, ih, i) {
        Some(p) => pv == rank(g, ih, p),
        None => if exists|q: int| is_pred_root(g, ih, i, q) {
            exists|q: int, v: int|
                is_pred_root(g, ih, i, q) && is_deepest(g, ih, q, v) && pv == rank(g, ih, v)
        } else {
            pv == usize::MAX
        },
    }
}

/// Whether `r` is the reduced tree of `g` around the interesting heights `ih`.
pub open spec fn is_stripped(g: &HeaderGraph, ih: Seq<u64>, r: Seq<HeaderInfoJson>) -> bool {
    let kept = kept_upto(g, ih, g.n());
    &&& r.len() == kept.len()
    &&& forall|k: int|
        0 <= k < r.len() ==> {
            &&& is_json_of(#[trigger] r[k], g.vertices@[kept[k]], k as usize, r[k].prev_id)
            &&& is_strip_prev(g, ih, kept[k], r[k].prev_id)
        }
}

/// Whether every predecessor id names an entry, or is `usize::MAX`.
pub open spec fn prev_ids_name_entries(r: Seq<HeaderInfoJson>) -> bool {
    forall|k: int| 0 <= k < r.len() ==> (#[trigger] r[k]).prev_id == usize::MAX || r[k].prev_id < r.len()
}

/// Whether a non-empty tree has exactly one entry without predecessor.
pub open spec fn one_first(r: Seq<HeaderInfoJson>) -> bool {
    r.len() > 0 ==> exists|k: int|
        0 <= k < r.len() && r[k].prev_id == usize::MAX && forall|k2: int|
            0 <= k2 < r.len() && (#[trigger] r[k2]).prev_id == usize::MAX ==> k2 == k
}

/// Whether `h` is among the sorted heights `ih`.
fn has_height(ih: &Vec<u64>, h: u64) -> (r: bool)
    ensures
        r == ih@.contains(h),
{
    let mut i: usize = 0;
    while i < ih.len()
        invariant
            i <= ih@.len(),
            forall|k: int| 0 <= k < i ==> ih@[k] != h,
        decreases ih@.len() - i,
    {
        if ih[i] == h {
            assert(ih@[i as int] == h);
            return true;
        }
        i = i + 1;
    }
    false
}

/// Whether a vertex of height `h` is kept.
pub fn keeps_height(ih: &Vec<u64>, h: u64) -> (r: bool)
    ensures
        r == keep(ih@, h),
{
    has_height(ih, h) || (h >= 1 && has_height(ih, h - 1)) || (h < u64::MAX && has_height(ih, h + 1))
        || (h < u64::MAX - 1 && has_height(ih, h + 2))
}

/// The kept vertices in ascending order, whether each vertex is kept, and
/// the id of each kept vertex in the reduced tree.
fn kept_vertices(g: &HeaderGraph, ih: &Vec<u64>) -> (r: (Vec<usize>, Vec<bool>, Vec<usize>))
    requires
        g.wf(),
    ensures
        r.0@.len() == kept_upto(g, ih@, g.n()).len(),
        forall|k: int| 0 <= k < r.0@.len() ==> #[trigger] r.0@[k] as int == kept_upto(g, ih@, g.n())[k],
        forall|k: int| 0 <= k < r.0@.len() ==> is_kept(g, ih@, #[trigger] r.0@[k] as int),
        forall|k: int| 0 <= k < r.0@.len() ==> r.2@[#[trigger] r.0@[k] as int] == k,
        forall|a: int, b: int| 0 <= a < b < r.0@.len() ==> r.0@[a] < r.0@[b],
        r.1@.len() == g.n(),
        r.2@.len() == g.n(),
        forall|i: int| 0 <= i < g.n() ==> #[trigger] r.1@[i] == is_kept(g, ih@, i),
        forall|i: int| is_kept(g, ih@, i) ==> #[trigger] r.2@[i] == rank(g, ih@, i),
        forall|i: int| is_kept(g, ih@, i) ==> #[trigger] r.2@[i] < r.0@.len() && r.0@[r.2@[i] as int] == i,
{
    let mut kept: Vec<usize> = Vec::new();
    let mut flag: Vec<bool> = Vec::new();
    let mut ranks: Vec<usize> = Vec::new();
    let mut i: usize = 0;
    while i < g.vertices.len()
        invariant
            g.wf(),
            i <= g.n(),
            kept@.len() == kept_upto(g, ih@, i as int).len(),
            kept@.len() <= i,
            forall|k: int| 0 <= k < kept@.len() ==> #[trigger] kept@[k] as int == kept_upto(g, ih@, i as int)[k],
            forall|k: int| 0 <= k < kept@.len() ==> is_kept(g, ih@, #[trigger] kept@[k] as int),
            forall|k: int| 0 <= k < kept@.len() ==> #[trigger] kept@[k] < i,
            forall|a: int, b: int| 0 <= a < b < kept@.len() ==> kept@[a] < kept@[b],
            forall|k: int| 0 <= k < kept@.len() ==> ranks@[#[trigger] kept@[k] as int] == k,
            flag@.len() == i,
            ranks@.len() == i,
            forall|j: int| 0 <= j < i ==> #[trigger] flag@[j] == is_kept(g, ih@, j),
            forall|j: int| 0 <= j < i && is_kept(g, ih@, j) ==> #[trigger] ranks@[j] == rank(g, ih@, j),
            forall|j: int| 0 <= j < i && is_kept(g, ih@, j) ==> #[trigger] ranks@[j] < kept@.len() && kept@[ranks@[j] as int] == j,
        decreases g.n() - i,
    {
        let k = keeps_height(ih, g.vertices[i].height);
        flag.push(k);
        ranks.push(if k { kept.len() } else { usize::MAX });
        if k {
            kept.push(i);
        }
        assert(forall|k2: int| 0 <= k2 < kept@.len() ==> #[trigger] kept@[k2] as int == kept_upto(g, ih@, i + 1)[k2]);
        i = i + 1;
    }
    (kept, flag, ranks)
}

/// The root of the reduced forest above kept vertex `i`.
fn find_top(g: &HeaderGraph, ih: Ghost<Seq<u64>>, flag: &Vec<bool>, i: usize) -> (r: usize)
    requires
        g.wf(),
        flag@.len() == g.n(),
        forall|j: int| 0 <= j < g.n() ==> #[trigger] flag@[j] == is_kept(g, ih@, j),
        is_kept(g, ih@, i as int),
    ensures
        r as int == top(g, ih@, i as int),
        is_root(g, ih@, r as int),
{
    let mut v = i;
    loop
        invariant
            g.wf(),
            flag@.len() == g.n(),
            forall|j: int| 0 <= j < g.n() ==> #[trigger] flag@[j] == is_kept(g, ih@, j),
            is_kept(g, ih@, v as int),
            top(g, ih@, v as int) == top(g, ih@, i as int),
        decreases g.height_at(v as int),
    {
        match g.parent[v] {
            Some(p) => {
                if flag[p] {
                    assert(g.links(p as int, v as int));
                    v = p;
                } else {
                    return v;
                }
            },
            None => {
                return v;
            },
        }
    }
}

/// The roots of the reduced forest in reconnection order.
fn sorted_roots(
    g: &HeaderGraph,
    ih: Ghost<Seq<u64>>,
    kept: &Vec<usize>,
    flag: &Vec<bool>,
) -> (r: Vec<usize>)
    requires
        g.wf(),
        flag@.len() == g.n(),
        forall|j: int| 0 <= j < g.n() ==> #[trigger] flag@[j] == is_kept(g, ih@, j),
        forall|k: int| 0 <= k < kept@.len() ==> is_kept(g, ih@, #[trigger] kept@[k] as int),
        forall|a: int, b: int| 0 <= a < b < kept@.len() ==> kept@[a] < kept@[b],
        forall|j: int| is_kept(g, ih@, j) ==> exists|k: int| 0 <= k < kept@.len() && #[trigger] kept@[k] as int == j,
    ensures
        forall|a: int| 0 <= a < r@.len() ==> is_root(g, ih@, #[trigger] r@[a] as int),
        forall|a: int, b: int| 0 <= a < b < r@.len() ==> key_lt(g, r@[a] as int, r@[b] as int),
        forall|j: int| is_root(g, ih@, j) ==> exists|a: int| 0 <= a < r@.len() && #[trigger] r@[a] as int == j,
{
    let mut r: Vec<usize> = Vec::new();
    let mut k: usize = 0;
    while k < kept.len()
        invariant
            g.wf(),
            k <= kept@.len(),
            flag@.len() == g.n(),
            forall|j: int| 0 <= j < g.n() ==> #[trigger] flag@[j] == is_kept(g, ih@, j),
            forall|k2: int| 0 <= k2 < kept@.len() ==> is_kept(g, ih@, #[trigger] kept@[k2] as int),
            forall|a: int| 0 <= a < r@.len() ==> is_root(g, ih@, #[trigger] r@[a] as int),
            forall|a: int, b: int| 0 <= a < b < r@.len() ==> key_lt(g, r@[a] as int, r@[b] as int),
            forall|a: int, b: int| 0 <= a < b < kept@.len() ==> kept@[a] < kept@[b],
            k == 0 ==> r@.len() == 0,
            k > 0 ==> forall|a: int| 0 <= a < r@.len() ==> #[trigger] r@[a] <= kept@[k - 1],
            forall|k2: int| 0 <= k2 < k && is_root(g, ih@, #[trigger] kept@[k2] as int) ==> r@.contains(kept@[k2]),
        decreases kept@.len() - k,
    {
        let v = kept[k];
        let is_r = match g.parent[v] {
            Some(p) => !flag[p],
            None => true,
        };
        if is_r {
            let h = g.vertices[v].height;
            let mut pos: usize = r.len();
            while pos > 0 && g.vertices[r[pos - 1]].height > h
                invariant
                    g.wf(),
                    pos <= r@.len(),
                    forall|a: int| 0 <= a < r@.len() ==> is_root(g, ih@, #[trigger] r@[a] as int),
                    forall|a: int| pos <= a < r@.len() ==> g.height_at(#[trigger] r@[a] as int) > h,
                decreases pos,
            {
                pos = pos - 1;
            }
            // every root already placed came from an earlier kept vertex, so it
            // has a lower index than `v`
            let ghost r0 = r@;
            proof {
                assert forall|a: int| 0 <= a < r0.len() implies (r0[a] as int) < v by {
                    assert(kept@[k - 1] < kept@[k as int]);
                }
            }
            r.insert(pos, v);
            assert forall|k2: int| 0 <= k2 <= k && is_root(g, ih@, #[trigger] kept@[k2] as int) implies r@.contains(kept@[k2]) by {
                if k2 < k {
                    let w = choose|w: int| 0 <= w < r0.len() && r0[w] == kept@[k2];
                    if w < pos {
                        assert(r@[w] == r0[w]);
                    } else {
                        assert(r@[w + 1] == r0[w]);
                    }
                } else {
                    assert(r@[pos as int] == v);
                }
            }
            assert forall|a: int| 0 <= a < r@.len() implies #[trigger] r@[a] <= kept@[k as int] by {
                if a < pos {
                    assert(r@[a] == r0[a]);
                } else if a > pos {
                    assert(r@[a] == r0[a - 1]);
                }
            }
            assert forall|a: int, b: int| 0 <= a < b < r@.len() implies key_lt(g, r@[a] as int, r@[b] as int) by {
                if b < pos {
                } else if a < pos && b == pos {
                    assert(r@[a] == r0[a]);
                    if pos > 0 {
                        assert(g.height_at(r0[pos - 1] as int) <= h);
                        if a < pos - 1 {
                            assert(key_lt(g, r0[a] as int, r0[pos - 1] as int));
                        }
                    }
                } else if a < pos {
                    assert(r@[b] == r0[b - 1]);
                } else if a == pos {
                    assert(r@[b] == r0[b - 1]);
                    assert(g.height_at(r0[b - 1] as int) > h);
                } else {
                    assert(r@[a] == r0[a - 1] && r@[b] == r0[b - 1]);
                }
            }
        }
        else {
            assert forall|a: int| 0 <= a < r@.len() implies #[trigger] r@[a] <= kept@[k as int] by {
                if k > 0 {
                    assert(kept@[k - 1] < kept@[k as int]);
                }
            }
        }
        k = k + 1;
    }
    assert forall|j: int| is_root(g, ih@, j) implies exists|a: int| 0 <= a < r@.len() && #[trigger] r@[a] as int == j by {
        let k2 = choose|k2: int| 0 <= k2 < kept@.len() && #[trigger] kept@[k2] as int == j;
        assert(r@.contains(kept@[k2]));
    }
    r
}

/// What `strip_with_heights` has computed before it emits: the kept
/// vertices, their ids, the root above each, the deepest vertex under each
/// root and the roots in reconnection order.
pub open spec fn strip_tables_ok(
    g: &HeaderGraph,
    ih: Seq<u64>,
    kept: Seq<usize>,
    ranks: Seq<usize>,
    tops: Seq<usize>,
    best: Seq<usize>,
    roots: Seq<usize>,
) -> bool {
    let nk = kept.len() as int;
    &&& g.wf()
    &&& tops.len() == nk
    &&& best.len() == nk
    &&& ranks.len() == g.n()
    &&& forall|k2: int| 0 <= k2 < nk ==> is_kept(g, ih, #[trigger] kept[k2] as int)
    &&& forall|a: int, b: int| 0 <= a < b < nk ==> kept[a] < kept[b]
    &&& forall|k2: int| 0 <= k2 < nk ==> ranks[#[trigger] kept[k2] as int] == k2
    &&& forall|i: int| is_kept(g, ih, i) ==> #[trigger] ranks[i] < nk && kept[ranks[i] as int] == i
    &&& forall|i: int| is_kept(g, ih, i) ==> #[trigger] ranks[i] == rank(g, ih, i)
    &&& forall|k2: int| 0 <= k2 < nk ==> #[trigger] tops[k2] as int == top(g, ih, kept[k2] as int)
        && is_root(g, ih, tops[k2] as int)
    &&& forall|q: int|
        0 <= q < nk && #[trigger] best[q] != usize::MAX ==> {
            let b = best[q] as int;
            &&& b < nk
            &&& ranks[tops[b] as int] == q
            &&& forall|k2: int|
                0 <= k2 < nk && ranks[#[trigger] tops[k2] as int] == q ==> g.height_at(kept[k2] as int)
                    < g.height_at(kept[b] as int) || (g.height_at(kept[k2] as int) == g.height_at(
                    kept[b] as int,
                ) && b <= k2)
        }
    &&& forall|k2: int| 0 <= k2 < nk ==> best[ranks[#[trigger] tops[k2] as int] as int] != usize::MAX
    &&& forall|a: int| 0 <= a < roots.len() ==> is_root(g, ih, #[trigger] roots[a] as int)
    &&& forall|a: int, b: int| 0 <= a < b < roots.len() ==> key_lt(g, roots[a] as int, roots[b] as int)
    &&& forall|j: int| is_root(g, ih, j) ==> exists|a: int| 0 <= a < roots.len() && #[trigger] roots[a] as int == j
}

/// The deepest vertex under root `q` is `kept[best[ranks[q]]]`.
proof fn lemma_best_is_deepest(
    g: &HeaderGraph,
    ih: Seq<u64>,
    kept: Seq<usize>,
    ranks: Seq<usize>,
    tops: Seq<usize>,
    best: Seq<usize>,
    roots: Seq<usize>,
    q: int,
)
    requires
        strip_tables_ok(g, ih, kept, ranks, tops, best, roots),
        is_root(g, ih, q),
    ensures
        best[ranks[q] as int] != usize::MAX,
        best[ranks[q] as int] < kept.len(),
        is_deepest(g, ih, q, kept[best[ranks[q] as int] as int] as int),
{
    let kq = ranks[q] as int;
    assert(kept[kq] as int == q);
    assert(top(g, ih, q) == q);
    assert(tops[kq] as int == q);
    assert(best[ranks[tops[kq] as int] as int] != usize::MAX);
    let b = best[kq] as int;
    let v = kept[b] as int;
    assert(is_root(g, ih, tops[b] as int));
    assert(kept[ranks[tops[b] as int] as int] == tops[b]);
    assert(tops[b] as int == q);
    assert forall|w: int| #[trigger] is_kept(g, ih, w) && top(g, ih, w) == q implies g.height_at(w)
        < g.height_at(v) || (g.height_at(w) == g.height_at(v) && v <= w) by {
        let k2 = ranks[w] as int;
        assert(kept[k2] as int == w);
        assert(tops[k2] as int == q);
        if b < k2 {
            assert(kept[b] < kept[k2]);
        }
    }
}

/// The id of the predecessor of root `v` in the reconnected tree.
fn root_prev(
    g: &HeaderGraph,
    ih: Ghost<Seq<u64>>,
    kept: &Vec<usize>,
    ranks: &Vec<usize>,
    tops: &Vec<usize>,
    best: &Vec<usize>,
    roots: &Vec<usize>,
    v: usize,
) -> (r: usize)
    requires
        strip_tables_ok(g, ih@, kept@, ranks@, tops@, best@, roots@),
        is_root(g, ih@, v as int),
    ensures
        is_strip_prev(g, ih@, v as int, r),
        roots@.len() > 0,
        (r == usize::MAX) == (v == roots@[0]),
        r != usize::MAX ==> r < kept@.len(),
{
    let ghost ihs = ih@;
    let nk = kept.len();
    let mut j: usize = 0;
    assert(exists|a: int| 0 <= a < roots@.len() && #[trigger] roots@[a] as int == v);
    while j < roots.len() && roots[j] != v
        invariant
            j <= roots@.len(),
            forall|a: int| 0 <= a < j ==> roots@[a] != v,
            exists|a: int| 0 <= a < roots@.len() && #[trigger] roots@[a] as int == v,
        decreases roots@.len() - j,
    {
        j = j + 1;
    }
    assert(j < roots@.len());
    assert forall|x: int| #[trigger] is_root(g, ihs, x) && key_lt(g, x, v as int) implies j > 0 && (
    x == roots@[j - 1] || key_lt(g, x, roots@[j - 1] as int)) by {
        let a = choose|a: int| 0 <= a < roots@.len() && #[trigger] roots@[a] as int == x;
        if a >= j {
            if a > j {
                assert(key_lt(g, roots@[j as int] as int, roots@[a] as int));
            }
        } else if a < j - 1 {
            assert(key_lt(g, roots@[a] as int, roots@[j - 1] as int));
        }
    }
    if j == 0 {
        assert(!exists|q: int| is_pred_root(g, ihs, v as int, q));
        assert(roots@[0] == v);
        usize::MAX
    } else {
        let q = roots[j - 1];
        assert(key_lt(g, q as int, v as int));
        assert forall|x: int| #[trigger] is_root(g, ihs, x) && key_lt(g, q as int, x) implies !key_lt(g, x, v as int) by {
            if key_lt(g, x, v as int) {
                let a = choose|a: int| 0 <= a < roots@.len() && #[trigger] roots@[a] as int == x;
            }
        }
        assert(is_pred_root(g, ihs, v as int, q as int));
        proof {
            lemma_best_is_deepest(g, ihs, kept@, ranks@, tops@, best@, roots@, q as int);
        }
        let d = kept[best[ranks[q]]];
        let r = ranks[d];
        assert(is_deepest(g, ihs, q as int, d as int) && r == rank(g, ihs, d as int));
        assert(r < nk);
        assert(key_lt(g, roots@[0] as int, roots@[j as int] as int));
        assert forall|q2: int| is_pred_root(g, ihs, v as int, q2) implies q2 == q by {
            if q2 != q {
                assert(key_lt(g, q2, q as int) || key_lt(g, q as int, q2));
            }
        }
        r
    }
}

/// The reduced tree of `g` around the interesting heights `ih`: the kept
/// vertices in ascending order with ids `0..`, each with the id of its kept
/// parent, and each root but the first (by height) joined to the deepest
/// vertex under the root before it.
pub fn strip_with_heights(g: &HeaderGraph, ih: &Vec<u64>) -> (r: Vec<HeaderInfoJson>)
    requires
        g.wf(),
    ensures
        is_stripped(g, ih@, r@),
        prev_ids_name_entries(r@),
        one_first(r@),
{
    let (kept, flag, ranks) = kept_vertices(g, ih);
    let ghost ihs = ih@;
    let nk = kept.len();
    assert forall|j: int| is_kept(g, ihs, j) implies exists|k: int| 0 <= k < kept@.len() && #[trigger] kept@[k] as int == j by {
        assert(kept@[ranks@[j] as int] == j);
    }
    // the root above each kept vertex, by position
    let mut tops: Vec<usize> = Vec::new();
    let mut k: usize = 0;
    while k < nk
        invariant
            g.wf(),
            k <= nk == kept@.len(),
            flag@.len() == g.n(),
            forall|j: int| 0 <= j < g.n() ==> #[trigger] flag@[j] == is_kept(g, ihs, j),
            forall|k2: int| 0 <= k2 < kept@.len() ==> is_kept(g, ihs, #[trigger] kept@[k2] as int),
            tops@.len() == k,
            forall|k2: int| 0 <= k2 < k ==> #[trigger] tops@[k2] as int == top(g, ihs, kept@[k2] as int)
                && is_root(g, ihs, tops@[k2] as int),
        decreases nk - k,
    {
        let t = find_top(g, Ghost(ihs), &flag, kept[k]);
        tops.push(t);
        k = k + 1;
    }
    // for each root, by its id, the position in `kept` of the deepest vertex
    // under it
    let mut best: Vec<usize> = vec![usize::MAX; nk];
    let mut k: usize = 0;
    while k < nk
        invariant
            g.wf(),
            k <= nk == kept@.len(),
            best@.len() == nk,
            tops@.len() == nk,
            forall|k2: int| 0 <= k2 < nk ==> is_kept(g, ihs, #[trigger] kept@[k2] as int),
            forall|k2: int| 0 <= k2 < nk ==> #[trigger] tops@[k2] as int == top(g, ihs, kept@[k2] as int)
                && is_root(g, ihs, tops@[k2] as int),
            ranks@.len() == g.n(),
            forall|i: int| is_kept(g, ihs, i) ==> #[trigger] ranks@[i] < kept@.len() && kept@[ranks@[i] as int] == i,
            forall|q: int|
                0 <= q < nk && #[trigger] best@[q] != usize::MAX ==> {
                    let b = best@[q] as int;
                    &&& b < k
                    &&& ranks@[tops@[b] as int] == q
                    &&& forall|k2: int|
                        0 <= k2 < k && ranks@[#[trigger] tops@[k2] as int] == q ==> g.height_at(kept@[k2] as int)
                            < g.height_at(kept@[b] as int) || (g.height_at(kept@[k2] as int) == g.height_at(kept@[b] as int) && b <= k2)
                },
            forall|k2: int| 0 <= k2 < k ==> best@[ranks@[#[trigger] tops@[k2] as int] as int] != usize::MAX,
        decreases nk - k,
    {
        let v = kept[k];
        let q = ranks[tops[k]];
        let ghost b0 = best@;
        if best[q] == usize::MAX || g.vertices[v].height > g.vertices[kept[best[q]]].height {
            best.set(q, k);
        }
        assert forall|k2: int| 0 <= k2 <= k implies best@[ranks@[#[trigger] tops@[k2] as int] as int] != usize::MAX by {
            if k2 < k {
                assert(b0[ranks@[tops@[k2] as int] as int] != usize::MAX);
            }
        }
        k = k + 1;
    }
    let roots = sorted_roots(g, Ghost(ihs), &kept, &flag);
    assert(strip_tables_ok(g, ihs, kept@, ranks@, tops@, best@, roots@));
    let mut out: Vec<HeaderInfoJson> = Vec::new();
    let mut k: usize = 0;
    while k < nk
        invariant
            k <= nk == kept@.len(),
            strip_tables_ok(g, ihs, kept@, ranks@, tops@, best@, roots@),
            flag@.len() == g.n(),
            forall|j: int| 0 <= j < g.n() ==> #[trigger] flag@[j] == is_kept(g, ihs, j),
            forall|k2: int| 0 <= k2 < kept@.len() ==> #[trigger] kept@[k2] as int == kept_upto(g, ihs, g.n())[k2],
            out@.len() == k,
            forall|k2: int| 0 <= k2 < k ==> (#[trigger] out@[k2]).prev_id == usize::MAX || out@[k2].prev_id < nk,
            forall|k2: int| 0 <= k2 < k && roots@.len() > 0 ==> ((#[trigger] out@[k2]).prev_id == usize::MAX) == (kept@[k2] == roots@[0]),
            forall|k2: int|
                0 <= k2 < k ==> {
                    &&& is_json_of(#[trigger] out@[k2], g.vertices@[kept@[k2] as int], k2 as usize, out@[k2].prev_id)
                    &&& is_strip_prev(g, ihs, kept@[k2] as int, out@[k2].prev_id)
                },
        decreases nk - k,
    {
        let v = kept[k];
        proof {
            if roots@.len() > 0 {
                assert(is_root(g, ihs, roots@[0] as int));
            }
        }
        let pv = match g.parent[v] {
            Some(p) => {
                if flag[p] {
                    assert(ranks@[p as int] < nk);
                    assert(!is_root(g, ihs, v as int));
                    ranks[p]
                } else {
                    root_prev(g, Ghost(ihs), &kept, &ranks, &tops, &best, &roots, v)
                }
            },
            None => root_prev(g, Ghost(ihs), &kept, &ranks, &tops, &best, &roots, v),
        };
        out.push(HeaderInfoJson::new(&g.vertices[v], k, pv));
        k = k + 1;
    }
    proof {
        if nk > 0 {
            assert(is_root(g, ihs, tops@[0] as int));
            let a = choose|a: int| 0 <= a < roots@.len() && #[trigger] roots@[a] as int == tops@[0] as int;
            assert(roots@.len() > 0);
            assert(is_root(g, ihs, roots@[0] as int));
            let k0 = ranks@[roots@[0] as int] as int;
            assert(kept@[k0] == roots@[0]);
            assert(out@[k0].prev_id == usize::MAX);
            assert forall|k2: int| 0 <= k2 < out@.len() && (#[trigger] out@[k2]).prev_id == usize::MAX implies k2 == k0 by {
                assert(kept@[k2] == kept@[k0]);
                if k2 < k0 {
                    assert(kept@[k2] < kept@[k0]);
                } else if k2 > k0 {
                    assert(kept@[k0] < kept@[k2]);
                }
            }
        }
    }
    out
}

/// With no interesting heights nothing is kept.
proof fn lemma_nothing_kept(g: &HeaderGraph, ih: Seq<u64>, m: int)
    requires
        ih.len() == 0,
    ensures
        kept_upto(g, ih, m).len() == 0,
    decreases m,
{
    if m > 0 {
        lemma_nothing_kept(g, ih, m - 1);
    }
}

/// Reduces the graph to the headers around its `max_interesting_heights`
/// largest interesting heights (forks, the given tip heights, the top),
/// reconnected into one tree. With `max_interesting_heights == 0` the result
/// is empty.
pub fn strip_tree(g: &HeaderGraph, max_interesting_heights: usize, tip_heights: &Vec<u64>) -> (r: Vec<
    HeaderInfoJson,
>)
    requires
        g.wf(),
    ensures
        exists|ih: Seq<u64>|
            is_top_interesting(g, tip_heights@, max_interesting_heights as nat, ih) && is_stripped(
                g,
                ih,
                r@,
            ),
        prev_ids_name_entries(r@),
        one_first(r@),
        max_interesting_heights == 0 ==> r@.len() == 0,
{
    let ih = sorted_interesting_heights(g, max_interesting_heights, tip_heights);
    let r = strip_with_heights(g, &ih);
    proof {
        if max_interesting_heights == 0 {
            lemma_nothing_kept(g, ih@, g.n());
        }
    }
    r
}

/// Whether vertex `i` has more than one child.
pub open spec fn is_fork_vertex(g: &HeaderGraph, i: int) -> bool {
    0 <= i < g.n() && exists|a: int, b: int| a != b && g.edge(i, a) && g.edge(i, b)
}

/// Whether `cs` are the children of vertex `i` in ascending order and `f`
/// holds the vertex and those children.
pub open spec fn is_fork_with(g: &HeaderGraph, f: Fork, i: int, cs: Seq<usize>) -> bool {
        &&& same_info(f.common, g.vertices@[i])
        &&& cs.len() == f.children@.len()
        &&& forall|k: int| 0 <= k < cs.len() ==> g.edge(i, #[trigger] cs[k] as int)
        &&& forall|k: int, l: int| 0 <= k < l < cs.len() ==> cs[k] < cs[l]
        &&& forall|c: int| #[trigger] g.edge(i, c) ==> cs.contains(c as usize)
        &&& forall|k: int| 0 <= k < cs.len() ==> same_info(#[trigger] f.children@[k], g.vertices@[cs[k] as int])
}

/// Whether `f` is the fork at vertex `i`: the vertex and its children in
/// ascending order.
pub open spec fn is_fork_at(g: &HeaderGraph, f: Fork, i: int) -> bool {
    &&& is_fork_vertex(g, i)
    &&& exists|cs: Seq<usize>| #[trigger] is_fork_with(g, f, i, cs)
}

/// Whether the forks at `ids` are the `how_many` most recent ones: by
/// height, and by vertex among equally high ones, descending.
pub open spec fn is_recent_fork_ids(g: &HeaderGraph, how_many: nat, ids: Seq<int>) -> bool {
    &&& ids.len() <= how_many
    &&& forall|k: int| 0 <= k < ids.len() ==> is_fork_vertex(g, #[trigger] ids[k])
    &&& forall|k: int, l: int| 0 <= k < l < ids.len() ==> key_lt(g, ids[l], ids[k])
    &&& forall|i: int| #[trigger] is_fork_vertex(g, i) && !ids.contains(i) ==> ids.len() == how_many && (
    ids.len() > 0 ==> key_lt(g, i, ids[ids.len() - 1]))
}

/// The fork at vertex `i`.
fn fork_at(g: &HeaderGraph, i: usize, children: &Vec<usize>) -> (r: Fork)
    requires
        g.wf(),
        0 <= i < g.n(),
        is_fork_vertex(g, i as int),
        forall|k: int| 0 <= k < children@.len() ==> g.edge(i as int, #[trigger] children@[k] as int),
        forall|k: int, l: int| 0 <= k < l < children@.len() ==> children@[k] < children@[l],
        forall|c: int| #[trigger] g.edge(i as int, c) ==> children@.contains(c as usize),
    ensures
        is_fork_at(g, r, i as int),
{
    let mut cs: Vec<HeaderInfo> = Vec::new();
    let mut k: usize = 0;
    while k < children.len()
        invariant
            g.wf(),
            k <= children@.len(),
            cs@.len() == k,
            forall|k2: int| 0 <= k2 < children@.len() ==> g.edge(i as int, #[trigger] children@[k2] as int),
            forall|k2: int| 0 <= k2 < k ==> same_info(#[trigger] cs@[k2], g.vertices@[children@[k2] as int]),
        decreases children@.len() - k,
    {
        assert(g.edge(i as int, children@[k as int] as int));
        cs.push(g.vertices[children[k]].duplicate());
        k = k + 1;
    }
    let r = Fork { common: g.vertices[i].duplicate(), children: cs };
    assert(is_fork_with(g, r, i as int, children@));
    r
}

/// The `how_many` most recent forks (by height, descending), each with the
/// children of its common header.
pub fn recent_forks(g: &HeaderGraph, how_many: usize) -> (r: Vec<Fork>)
    requires
        g.wf(),
    ensures
        exists|ids: Seq<int>|
            is_recent_fork_ids(g, how_many as nat, ids) && ids.len() == r@.len() && forall|k: int|
                0 <= k < ids.len() ==> is_fork_at(g, #[trigger] r@[k], ids[k]),
{
    // the fork vertices, most recent first
    let mut order: Vec<usize> = Vec::new();
    let mut i: usize = 0;
    while i < g.vertices.len()
        invariant
            g.wf(),
            i <= g.n(),
            forall|k: int| 0 <= k < order@.len() ==> is_fork_vertex(g, #[trigger] order@[k] as int),
            forall|k: int| 0 <= k < order@.len() ==> #[trigger] order@[k] < i,
            forall|k: int, l: int| 0 <= k < l < order@.len() ==> key_lt(g, order@[l] as int, order@[k] as int),
            forall|x: int| 0 <= x < i && #[trigger] is_fork_vertex(g, x) ==> order@.contains(x as usize),
        decreases g.n() - i,
    {
        let cs = g.children(i);
        if cs.len() > 1 {
            assert(g.edge(i as int, cs@[0] as int) && g.edge(i as int, cs@[1] as int));
            assert(is_fork_vertex(g, i as int));
            let h = g.vertices[i].height;
            let mut pos: usize = 0;
            while pos < order.len() && g.vertices[order[pos]].height > h
                invariant
                    g.wf(),
                    pos <= order@.len(),
                    forall|k: int| 0 <= k < order@.len() ==> is_fork_vertex(g, #[trigger] order@[k] as int),
                    forall|k: int| 0 <= k < pos ==> g.height_at(#[trigger] order@[k] as int) > h,
                decreases order@.len() - pos,
            {
                pos = pos + 1;
            }
            let ghost o0 = order@;
            order.insert(pos, i);
            assert forall|k: int, l: int| 0 <= k < l < order@.len() implies key_lt(
                g,
                order@[l] as int,
                order@[k] as int,
            ) by {
                if l < pos {
                } else if k < pos && l == pos {
                } else if k < pos {
                    assert(order@[l] == o0[l - 1]);
                } else if k == pos {
                    assert(order@[l] == o0[l - 1]);
                    assert(o0[l - 1] < i);
                    if pos < o0.len() {
                        assert(g.height_at(o0[pos as int] as int) <= h);
                        if l - 1 > pos {
                            assert(key_lt(g, o0[l - 1] as int, o0[pos as int] as int));
                        }
                    }
                } else {
                    assert(order@[k] == o0[k - 1] && order@[l] == o0[l - 1]);
                }
            }
            assert forall|x: int| 0 <= x <= i && #[trigger] is_fork_vertex(g, x) implies order@.contains(x as usize) by {
                if x < i {
                    let w = choose|w: int| 0 <= w < o0.len() && o0[w] == x as usize;
                    if w < pos {
                        assert(order@[w] == o0[w]);
                    } else {
                        assert(order@[w + 1] == o0[w]);
                    }
                } else {
                    assert(order@[pos as int] == i);
                }
            }
            assert forall|k: int| 0 <= k < order@.len() implies #[trigger] order@[k] < i + 1 by {
                if k < pos {
                    assert(order@[k] == o0[k]);
                } else if k > pos {
                    assert(order@[k] == o0[k - 1]);
                }
            }
        } else {
            assert forall|x: int| 0 <= x <= i && #[trigger] is_fork_vertex(g, x) implies order@.contains(x as usize) by {
                if x == i {
                    let (a, b) = choose|a: int, b: int| a != b && g.edge(x, a) && g.edge(x, b);
                    assert(cs@.contains(a as usize) && cs@.contains(b as usize));
                    let wa = choose|w: int| 0 <= w < cs@.len() && cs@[w] == a as usize;
                    let wb = choose|w: int| 0 <= w < cs@.len() && cs@[w] == b as usize;
                }
            }
        }
        i = i + 1;
    }
    let mut r: Vec<Fork> = Vec::new();
    let mut k: usize = 0;
    while k < order.len() && k < how_many
        invariant
            g.wf(),
            k <= order@.len(),
            k <= how_many,
            r@.len() == k,
            forall|k2: int| 0 <= k2 < order@.len() ==> is_fork_vertex(g, #[trigger] order@[k2] as int),
            forall|k2: int| 0 <= k2 < k ==> is_fork_at(g, #[trigger] r@[k2], order@[k2] as int),
        decreases order@.len() - k,
    {
        let v = order[k];
        let cs = g.children(v);
        r.push(fork_at(g, v, &cs));
        k = k + 1;
    }
    let ghost ids = Seq::new(k as nat, |x: int| order@[x] as int);
    assert forall|x: int| #[trigger] is_fork_vertex(g, x) && !ids.contains(x) implies ids.len() == how_many && (
    ids.len() > 0 ==> key_lt(g, x, ids[ids.len() - 1])) by {
        let w = choose|w: int| 0 <= w < order@.len() && order@[w] == x as usize;
        if w < k {
            assert(ids[w] == x);
        }
        if k > 0 && w > k - 1 {
            assert(key_lt(g, order@[w] as int, order@[k - 1] as int));
        }
    }
    assert(is_recent_fork_ids(g, how_many as nat, ids));
    r
}

} // verus!
