//! The per-network snapshot that the HTTP handlers read, changed only
//! through typed updates.
use vstd::prelude::*;
use vstd::string::*;

use crate::primitives::{block_hash_of, hash_string_of};
use crate::types::{
    are_tips_json_of, ChainTip, Fork, HeaderInfo, HeaderInfoJson, NodeDataJson, NodeInfo,
    TipInfoJson, version_unknown, version_unknown_spec,
};

verus! {

/// How many recent miner assignments a cache remembers.
pub const RECENT_MINERS_CAPACITY: usize = 5;

/// The snapshot of one network.
#[derive(Debug)]
pub struct Cache {
    /// The reduced header tree.
    pub header_infos_json: Vec<HeaderInfoJson>,
    /// One entry per node, with unique ids.
    pub node_data: Vec<NodeDataJson>,
    pub forks: Vec<Fork>,
    /// The latest `(hash, miner)` assignments, oldest first, distinct by
    /// hash. Reducing the tree and identifying miners run concurrently, so a
    /// freshly reduced tree may lack a miner that is already known; these are
    /// spliced back into it.
    pub recent_miners: Vec<(String, String)>,
}

/// A change to a cache.
#[derive(Debug)]
pub enum CacheUpdate {
    HeaderMiner { header_info: HeaderInfo },
    HeaderTree { header_infos_json: Vec<HeaderInfoJson>, forks: Vec<Fork> },
    NodeTips { node_id: u32, tips: Vec<ChainTip> },
    NodeReachability { node_id: u32, reachable: bool },
    NodeVersion { node_id: u32, version: String },
}

/// Whether the recent miners are at most five and distinct by hash.
pub open spec fn recent_miners_ok(m: Seq<(String, String)>) -> bool {
    &&& m.len() <= RECENT_MINERS_CAPACITY
    &&& forall|a: int, b: int| 0 <= a < b < m.len() ==> (#[trigger] m[a]).0@ != (#[trigger] m[b]).0@
}

/// Whether the node ids are distinct.
pub open spec fn node_ids_unique(n: Seq<NodeDataJson>) -> bool {
    forall|a: int, b: int| 0 <= a < b < n.len() ==> (#[trigger] n[a]).id != (#[trigger] n[b]).id
}

impl Cache {
    /// The cache is well formed: node ids are distinct and the recent miners
    /// are at most five, distinct by hash.
    pub open spec fn wf(&self) -> bool {
        node_ids_unique(self.node_data@) && recent_miners_ok(self.recent_miners@)
    }
}

/// The written hash of a header.
pub open spec fn hash_str_of(hi: HeaderInfo) -> Seq<char> {
    hash_string_of(block_hash_of(hi.header@))
}

/// The lowest height in a reduced tree, 0 when it is empty.
pub open spec fn min_height(hs: Seq<HeaderInfoJson>) -> u64
    decreases hs.len(),
{
    if hs.len() == 0 {
        0
    } else if hs.len() == 1 {
        hs[0].height
    } else {
        let m = min_height(hs.drop_last());
        if hs.last().height < m {
            hs.last().height
        } else {
            m
        }
    }
}

/// The tips at or above `min`, in order.
pub open spec fn tips_at_or_above(tips: Seq<ChainTip>, min: u64) -> Seq<ChainTip> {
    tips.filter(|t: ChainTip| t.height >= min)
}

/// Whether `j2` is `j1` with the miner from the first recent assignment of
/// its hash, if any.
pub open spec fn spliced(j1: HeaderInfoJson, recent: Seq<(String, String)>, j2: HeaderInfoJson) -> bool {
    if exists|m: int| 0 <= m < recent.len() && (#[trigger] recent[m]).0@ == j1.hash@ {
        let m = choose|m: int| 0 <= m < recent.len() && (#[trigger] recent[m]).0@ == j1.hash@;
        j2 == (HeaderInfoJson { miner: j2.miner, ..j1 }) && j2.miner@ == recent[m].1@
    } else {
        j2 == j1
    }
}

/// Whether an assignment is for another hash than `h`.
pub open spec fn other_hash(h: Seq<char>) -> spec_fn((String, String)) -> bool {
    |e: (String, String)| e.0@ != h
}

/// Whether `m2` is `m1` after the assignment of miner `miner` to hash `h`:
/// any earlier assignment of `h` dropped, the new one last, and the oldest
/// evicted beyond five.
pub open spec fn miners_after(m1: Seq<(String, String)>, h: Seq<char>, miner: Seq<char>, m2: Seq<(String, String)>) -> bool {
    let kept = m1.filter(other_hash(h));
    let all: int = kept.len() as int + 1;
    &&& m2.len() == if all > RECENT_MINERS_CAPACITY as int { RECENT_MINERS_CAPACITY as int } else { all }
    &&& m2.last().0@ == h
    &&& m2.last().1@ == miner
    &&& forall|k: int| 0 <= k < m2.len() - 1 ==> #[trigger] m2[k] == kept[k + (all - m2.len())]
}

/// Whether `c2` is `c1` after `HeaderMiner { hi }`.
pub open spec fn header_miner_post(c1: Cache, hi: HeaderInfo, c2: Cache) -> bool {
    let h = hash_str_of(hi);
    &&& c2.node_data == c1.node_data
    &&& c2.forks == c1.forks
    &&& c2.header_infos_json@.len() == c1.header_infos_json@.len()
    &&& forall|k: int| 0 <= k < c1.header_infos_json@.len() ==> {
        let j = #[trigger] c1.header_infos_json@[k];
        if j.hash@ == h && forall|l: int| 0 <= l < k ==> c1.header_infos_json@[l].hash@ != h {
            c2.header_infos_json@[k] == (HeaderInfoJson { miner: c2.header_infos_json@[k].miner, ..j })
                && c2.header_infos_json@[k].miner@ == hi.miner@
        } else {
            c2.header_infos_json@[k] == j
        }
    }
    &&& miners_after(c1.recent_miners@, h, hi.miner@, c2.recent_miners@)
}

/// Whether `c2` is `c1` after `HeaderTree { list, forks }`.
pub open spec fn header_tree_post(c1: Cache, list: Seq<HeaderInfoJson>, forks: Vec<Fork>, c2: Cache) -> bool {
    &&& c2.node_data == c1.node_data
    &&& c2.forks == forks
    &&& c2.recent_miners == c1.recent_miners
    &&& c2.header_infos_json@.len() == list.len()
    &&& forall|k: int| 0 <= k < list.len() ==> spliced(#[trigger] list[k], c1.recent_miners@, c2.header_infos_json@[k])
}

/// Whether `n2` is `n1` with the entry of `id` changed by `f`, if there is
/// one.
pub open spec fn node_changed(
    n1: Seq<NodeDataJson>,
    id: u32,
    n2: Seq<NodeDataJson>,
    f: spec_fn(NodeDataJson, NodeDataJson) -> bool,
) -> bool {
    &&& n2.len() == n1.len()
    &&& forall|k: int| 0 <= k < n1.len() ==> if (#[trigger] n1[k]).id == id {
        f(n1[k], n2[k])
    } else {
        n2[k] == n1[k]
    }
}

/// Whether `c2` is `c1` after `update` at time `now`.
pub open spec fn update_post(c1: Cache, update: CacheUpdate, now: u64, c2: Cache) -> bool {
    match update {
        CacheUpdate::HeaderMiner { header_info } => header_miner_post(c1, header_info, c2),
        CacheUpdate::HeaderTree { header_infos_json, forks } => header_tree_post(
            c1,
            header_infos_json@,
            forks,
            c2,
        ),
        CacheUpdate::NodeTips { node_id, tips } => {
            let relevant = tips_at_or_above(tips@, min_height(c1.header_infos_json@));
            &&& c2.header_infos_json == c1.header_infos_json
            &&& c2.forks == c1.forks
            &&& c2.recent_miners == c1.recent_miners
            &&& node_changed(
                c1.node_data@,
                node_id,
                c2.node_data@,
                |a: NodeDataJson, b: NodeDataJson|
                    are_tips_json_of(b.tips@, relevant) && b == (NodeDataJson {
                        tips: b.tips,
                        last_changed_timestamp: now,
                        ..a
                    }),
            )
        },
        CacheUpdate::NodeReachability { node_id, reachable } => {
            &&& c2.header_infos_json == c1.header_infos_json
            &&& c2.forks == c1.forks
            &&& c2.recent_miners == c1.recent_miners
            &&& node_changed(
                c1.node_data@,
                node_id,
                c2.node_data@,
                |a: NodeDataJson, b: NodeDataJson| b == (NodeDataJson { reachable, ..a }),
            )
        },
        CacheUpdate::NodeVersion { node_id, version } => {
            &&& c2.header_infos_json == c1.header_infos_json
            &&& c2.forks == c1.forks
            &&& c2.recent_miners == c1.recent_miners
            &&& node_changed(
                c1.node_data@,
                node_id,
                c2.node_data@,
                |a: NodeDataJson, b: NodeDataJson| b == (NodeDataJson { version, ..a }),
            )
        },
    }
}

/// Records that hash `h` was mined by `miner`: an earlier entry of `h` is
/// dropped, the new one goes last, and the oldest is evicted beyond five.
fn assign_recent_miner(m: &mut Vec<(String, String)>, h: String, miner: String)
    requires
        recent_miners_ok(old(m)@),
    ensures
        miners_after(old(m)@, h@, miner@, final(m)@),
        recent_miners_ok(final(m)@),
{
    let ghost m1 = old(m)@;
    let mut kept: Vec<(String, String)> = Vec::new();
    let mut i: usize = 0;
    while i < m.len()
        invariant
            i <= m1.len(),
            m@ == m1,
            recent_miners_ok(m1),
            kept@ == m1.subrange(0, i as int).filter(other_hash(h@)),
            kept@.len() <= i,
            forall|a: int| 0 <= a < kept@.len() ==> (#[trigger] kept@[a]).0@ != h@,
            forall|a: int| 0 <= a < kept@.len() ==> exists|j: int| 0 <= j < i && m1[j] == #[trigger] kept@[a],
            forall|a: int, b: int| 0 <= a < b < kept@.len() ==> (#[trigger] kept@[a]).0@ != (#[trigger] kept@[b]).0@,
        decreases m1.len() - i,
    {
        proof {
            reveal(Seq::filter);
            assert(m1.subrange(0, i + 1).drop_last() =~= m1.subrange(0, i as int));
        }
        let ghost k0 = kept@;
        assert(m1.subrange(0, i + 1).last() == m1[i as int]);
        assert(other_hash(h@)(m1[i as int]) == (m1[i as int].0@ != h@));
        if !(m[i].0 == h) {
            let e = (m[i].0.clone(), m[i].1.clone());
            assert(e == m1[i as int]);
            kept.push(e);
            assert(kept@ =~= m1.subrange(0, i as int).filter(other_hash(h@)).push(m1[i as int]));
            assert forall|a: int, b: int| 0 <= a < b < kept@.len() implies (#[trigger] kept@[a]).0@ != (#[trigger] kept@[b]).0@ by {
                if b == kept@.len() - 1 {
                    let j = choose|j: int| 0 <= j < i && m1[j] == k0[a];
                    assert(m1[j].0@ != m1[i as int].0@);
                }
            }
            assert forall|a: int| 0 <= a < kept@.len() implies exists|j: int| 0 <= j < i + 1 && m1[j] == #[trigger] kept@[a] by {
                if a < k0.len() {
                    let j = choose|j: int| 0 <= j < i && m1[j] == k0[a];
                    assert(m1[j] == kept@[a]);
                } else {
                    assert(m1[i as int] == kept@[a]);
                }
            }
        }
        i = i + 1;
    }
    assert(m1.subrange(0, m1.len() as int) =~= m1);
    let ghost kept_s = kept@;
    kept.push((h, miner));
    let ghost all = kept@;
    if kept.len() > RECENT_MINERS_CAPACITY {
        kept.remove(0);
    }
    *m = kept;
    assert forall|a: int, b: int| 0 <= a < b < m@.len() implies (#[trigger] m@[a]).0@ != (#[trigger] m@[b]).0@ by {
        let d = all.len() - m@.len();
        assert(m@[a] == all[a + d] && m@[b] == all[b + d]);
    }
    assert forall|k: int| 0 <= k < m@.len() - 1 implies #[trigger] m@[k] == kept_s[k + (all.len() - m@.len())] by {
        let d = all.len() - m@.len();
        assert(m@[k] == all[k + d]);
    }
}

/// Splices the recent miner assignments into a freshly reduced tree.
fn splice_recent_miners(list: &mut Vec<HeaderInfoJson>, recent: &Vec<(String, String)>)
    requires
        recent_miners_ok(recent@),
    ensures
        final(list)@.len() == old(list)@.len(),
        forall|k: int| 0 <= k < old(list)@.len() ==> spliced(#[trigger] old(list)@[k], recent@, final(list)@[k]),
{
    let ghost l0 = list@;
    let mut k: usize = 0;
    while k < list.len()
        invariant
            recent_miners_ok(recent@),
            k <= list@.len(),
            list@.len() == l0.len(),
            forall|k2: int| k <= k2 < l0.len() ==> #[trigger] list@[k2] == l0[k2],
            forall|k2: int| 0 <= k2 < k ==> spliced(#[trigger] l0[k2], recent@, list@[k2]),
        decreases l0.len() - k,
    {
        let mut m: usize = 0;
        while m < recent.len() && !(recent[m].0 == list[k].hash)
            invariant
                m <= recent@.len(),
                k < list@.len(),
                forall|m2: int| 0 <= m2 < m ==> (#[trigger] recent@[m2]).0@ != list@[k as int].hash@,
            decreases recent@.len() - m,
        {
            m = m + 1;
        }
        if m < recent.len() {
            let j = list[k].with_miner(recent[m].1.clone());
            list.set(k, j);
            proof {
                let c = choose|c: int| 0 <= c < recent@.len() && (#[trigger] recent@[c]).0@ == l0[k as int].hash@;
                if c != m {
                    assert(recent@[c].0@ != recent@[m as int].0@);
                }
            }
        }
        k = k + 1;
    }
}

/// The position of node `id`, if it has one.
fn node_position(nodes: &Vec<NodeDataJson>, id: u32) -> (r: Option<usize>)
    ensures
        r is Some ==> r->Some_0 < nodes@.len() && nodes@[r->Some_0 as int].id == id,
        r is None ==> forall|k: int| 0 <= k < nodes@.len() ==> (#[trigger] nodes@[k]).id != id,
{
    let mut k: usize = 0;
    while k < nodes.len()
        invariant
            k <= nodes@.len(),
            forall|k2: int| 0 <= k2 < k ==> (#[trigger] nodes@[k2]).id != id,
        decreases nodes@.len() - k,
    {
        if nodes[k].id == id {
            return Some(k);
        }
        k = k + 1;
    }
    None
}

/// The lowest height in a reduced tree, 0 when it is empty.
fn lowest_height(hs: &Vec<HeaderInfoJson>) -> (r: u64)
    ensures
        r == min_height(hs@),
{
    if hs.len() == 0 {
        return 0;
    }
    let mut m = hs[0].height;
    let mut k: usize = 1;
    while k < hs.len()
        invariant
            1 <= k <= hs@.len(),
            m == min_height(hs@.subrange(0, k as int)),
        decreases hs@.len() - k,
    {
        assert(hs@.subrange(0, k + 1).drop_last() =~= hs@.subrange(0, k as int));
        if hs[k].height < m {
            m = hs[k].height;
        }
        k = k + 1;
    }
    assert(hs@.subrange(0, k as int) =~= hs@);
    m
}

/// The tips at or above `min`, in order.
fn filter_tips(tips: &Vec<ChainTip>, min: u64) -> (r: Vec<ChainTip>)
    ensures
        r@.len() == tips_at_or_above(tips@, min).len(),
        forall|k: int| 0 <= k < r@.len() ==> crate::types::same_tip(#[trigger] r@[k], tips_at_or_above(tips@, min)[k]),
{
    let mut r: Vec<ChainTip> = Vec::new();
    let mut k: usize = 0;
    while k < tips.len()
        invariant
            k <= tips@.len(),
            r@.len() == tips_at_or_above(tips@.subrange(0, k as int), min).len(),
            forall|k2: int| 0 <= k2 < r@.len() ==> crate::types::same_tip(#[trigger] r@[k2], tips_at_or_above(tips@.subrange(0, k as int), min)[k2]),
        decreases tips@.len() - k,
    {
        proof {
            reveal(Seq::filter);
            assert(tips@.subrange(0, k + 1).drop_last() =~= tips@.subrange(0, k as int));
        }
        if tips[k].height >= min {
            r.push(tips[k].duplicate());
        }
        k = k + 1;
    }
    assert(tips@.subrange(0, k as int) =~= tips@);
    r
}

/// A node's entry before anything is known of it: no tips, version
/// `unknown`, time 0, reachable.
pub fn initial_node_data(info: NodeInfo) -> (r: NodeDataJson)
    ensures
        r.id == info.id,
        r.name == info.name,
        r.description == info.description,
        r.implementation == info.implementation,
        r.tips@.len() == 0,
        r.version@ == version_unknown_spec(),
        r.last_changed_timestamp == 0,
        r.reachable,
{
    NodeDataJson::new(info, &Vec::new(), version_unknown(), 0, true)
}

/// An entry that stands in while a node's entry is being changed.
fn placeholder_node() -> (r: NodeDataJson) {
    NodeDataJson {
        id: 0,
        name: String::new(),
        description: String::new(),
        implementation: String::new(),
        tips: Vec::new(),
        last_changed_timestamp: 0,
        version: String::new(),
        reachable: false,
    }
}

/// Applies an update to a network's cache, at time `now` (seconds since the
/// UNIX epoch):
/// - `HeaderMiner`: the miner of the header's entry in the reduced tree is
///   set, and the assignment is remembered among the recent miners;
/// - `HeaderTree`: the reduced tree and the forks are replaced, with the
///   recent miner assignments spliced into the new tree;
/// - `NodeTips`: the node's tips become those at or above the lowest height
///   of the reduced tree, stamped with `now`;
/// - `NodeReachability`, `NodeVersion`: the node's flag or version is set.
pub fn update_cache(cache: &mut Cache, update: CacheUpdate, now: u64)
    requires
        old(cache).wf(),
    ensures
        final(cache).wf(),
        update_post(*old(cache), update, now, *final(cache)),
{
    let ghost c1 = *cache;
    match update {
        CacheUpdate::HeaderMiner { header_info } => {
            let h = header_info.header.block_hash().to_hex_string();
            let mut k: usize = 0;
            while k < cache.header_infos_json.len() && !(cache.header_infos_json[k].hash == h)
                invariant
                    k <= cache.header_infos_json@.len(),
                    *cache == c1,
                    forall|l: int| 0 <= l < k ==> (#[trigger] c1.header_infos_json@[l]).hash@ != h@,
                decreases cache.header_infos_json@.len() - k,
            {
                k = k + 1;
            }
            if k < cache.header_infos_json.len() {
                let j = cache.header_infos_json[k].with_miner(header_info.miner.clone());
                cache.header_infos_json.set(k, j);
            }
            assign_recent_miner(&mut cache.recent_miners, h, header_info.miner);
            assert(header_miner_post(c1, header_info, *cache));
        },
        CacheUpdate::HeaderTree { header_infos_json, forks } => {
            let mut list = header_infos_json;
            splice_recent_miners(&mut list, &cache.recent_miners);
            cache.header_infos_json = list;
            cache.forks = forks;
        },
        CacheUpdate::NodeTips { node_id, tips } => {
            let min = lowest_height(&cache.header_infos_json);
            let relevant = filter_tips(&tips, min);
            match node_position(&cache.node_data, node_id) {
                Some(i) => {
                    let mut nd = placeholder_node();
                    cache.node_data.set_and_swap(i, &mut nd);
                    nd.tips(relevant.as_slice(), now);
                    proof {
                        let rel = tips_at_or_above(tips@, min_height(c1.header_infos_json@));
                        assert forall|x: int| 0 <= x < nd.tips@.len() implies crate::types::is_tip_json_of(
                            #[trigger] nd.tips@[x],
                            rel[x],
                        ) by {
                            assert(crate::types::is_tip_json_of(nd.tips@[x], relevant@[x]));
                            assert(crate::types::same_tip(relevant@[x], rel[x]));
                        }
                    }
                    cache.node_data.set_and_swap(i, &mut nd);
                    proof {
                        assert forall|k: int| 0 <= k < c1.node_data@.len() && (#[trigger] c1.node_data@[k]).id == node_id implies k == i by {
                            if k != i as int {
                                assert(c1.node_data@[k].id != c1.node_data@[i as int].id);
                            }
                        }
                    }
                },
                None => {},
            }
        },
        CacheUpdate::NodeReachability { node_id, reachable } => {
            match node_position(&cache.node_data, node_id) {
                Some(i) => {
                    let mut nd = placeholder_node();
                    cache.node_data.set_and_swap(i, &mut nd);
                    nd.reachable(reachable);
                    cache.node_data.set_and_swap(i, &mut nd);
                    proof {
                        assert forall|k: int| 0 <= k < c1.node_data@.len() && (#[trigger] c1.node_data@[k]).id == node_id implies k == i by {
                            if k != i as int {
                                assert(c1.node_data@[k].id != c1.node_data@[i as int].id);
                            }
                        }
                    }
                },
                None => {},
            }
        },
        CacheUpdate::NodeVersion { node_id, version } => {
            match node_position(&cache.node_data, node_id) {
                Some(i) => {
                    let mut nd = placeholder_node();
                    cache.node_data.set_and_swap(i, &mut nd);
                    nd.version(version);
                    cache.node_data.set_and_swap(i, &mut nd);
                    proof {
                        assert forall|k: int| 0 <= k < c1.node_data@.len() && (#[trigger] c1.node_data@[k]).id == node_id implies k == i by {
                            if k != i as int {
                                assert(c1.node_data@[k].id != c1.node_data@[i as int].id);
                            }
                        }
                    }
                },
                None => {},
            }
        },
    }
    assert(node_ids_unique(cache.node_data@)) by {
        assert forall|a: int, b: int| 0 <= a < b < cache.node_data@.len() implies (#[trigger] cache.node_data@[a]).id != (#[trigger] cache.node_data@[b]).id by {
            assert(cache.node_data@[a].id == c1.node_data@[a].id);
            assert(cache.node_data@[b].id == c1.node_data@[b].id);
        }
    }
}

/// After a miner assignment and then a new reduced tree are applied, the new
/// tree's entry for that header carries the assigned miner, whether or not
/// the tree it came with had it.
pub proof fn lemma_splice_keeps_miner(
    c0: Cache,
    hi: HeaderInfo,
    c1: Cache,
    list: Seq<HeaderInfoJson>,
    forks: Vec<Fork>,
    c2: Cache,
    k: int,
)
    requires
        c1.wf(),
        header_miner_post(c0, hi, c1),
        header_tree_post(c1, list, forks, c2),
        0 <= k < list.len(),
        list[k].hash@ == hash_str_of(hi),
    ensures
        c2.header_infos_json@[k].miner@ == hi.miner@,
{
    let r = c1.recent_miners@;
    let last = r.len() - 1;
    assert(r[last].0@ == list[k].hash@);
    assert(spliced(list[k], r, c2.header_infos_json@[k]));
    let m = choose|m: int| 0 <= m < r.len() && (#[trigger] r[m]).0@ == list[k].hash@;
    if m != last {
        assert(r[m].0@ != r[last].0@);
    }
}

/// The heights of all tips of all nodes in the cache.
pub fn tip_heights(cache: &Cache) -> (r: Vec<u64>)
    ensures
        forall|h: u64| #[trigger] r@.contains(h) <==> exists|n: int, t: int|
            0 <= n < cache.node_data@.len() && 0 <= t < cache.node_data@[n].tips@.len()
                && cache.node_data@[n].tips@[t].height == h,
{
    let mut r: Vec<u64> = Vec::new();
    let mut n: usize = 0;
    while n < cache.node_data.len()
        invariant
            n <= cache.node_data@.len(),
            forall|h: u64| #[trigger] r@.contains(h) <==> exists|n2: int, t: int|
                0 <= n2 < n && 0 <= t < cache.node_data@[n2].tips@.len()
                    && cache.node_data@[n2].tips@[t].height == h,
        decreases cache.node_data@.len() - n,
    {
        let tips = &cache.node_data[n].tips;
        let mut t: usize = 0;
        while t < tips.len()
            invariant
                n < cache.node_data@.len(),
                *tips == cache.node_data@[n as int].tips,
                t <= tips@.len(),
                forall|h: u64| #[trigger] r@.contains(h) <==> (exists|n2: int, t2: int|
                    0 <= n2 < n && 0 <= t2 < cache.node_data@[n2].tips@.len()
                        && cache.node_data@[n2].tips@[t2].height == h) || (exists|t2: int|
                    0 <= t2 < t && tips@[t2].height == h),
            decreases tips@.len() - t,
        {
            let ghost r0 = r@;
            r.push(tips[t].height);
            assert forall|h: u64| #[trigger] r@.contains(h) <==> (r0.contains(h) || h == tips@[t as int].height) by {
                if r0.contains(h) {
                    let w = choose|w: int| 0 <= w < r0.len() && r0[w] == h;
                    assert(r@[w] == h);
                }
                if r@.contains(h) && h != tips@[t as int].height {
                    let w = choose|w: int| 0 <= w < r@.len() && r@[w] == h;
                    assert(r0[w] == h);
                }
                if h == tips@[t as int].height {
                    assert(r@[r@.len() - 1] == h);
                }
            }
            t = t + 1;
        }
        n = n + 1;
    }
    r
}

/// Whether node `node_id` is reachable; `None` if the cache has no such node.
pub fn is_node_reachable(cache: &Cache, node_id: u32) -> (r: Option<bool>)
    requires
        cache.wf(),
    ensures
        r is None <==> forall|k: int| 0 <= k < cache.node_data@.len() ==> (#[trigger] cache.node_data@[k]).id != node_id,
        r is Some ==> exists|k: int| 0 <= k < cache.node_data@.len() && (#[trigger] cache.node_data@[k]).id == node_id
            && cache.node_data@[k].reachable == r->Some_0,
{
    match node_position(&cache.node_data, node_id) {
        Some(i) => Some(cache.node_data[i].reachable),
        None => None,
    }
}

/// The nodes ordered by id; equal ids keep their order.
pub fn sort_nodes_by_id(nodes: Vec<NodeInfo>) -> (r: Vec<NodeInfo>)
    ensures
        r@.to_multiset() == nodes@.to_multiset(),
        forall|a: int, b: int| 0 <= a < b < r@.len() ==> r@[a].id <= r@[b].id,
{
    let ghost s = nodes@;
    let mut all = nodes;
    let mut r: Vec<NodeInfo> = Vec::new();
    let ghost mut k: int = 0;
    assert(s.subrange(0, 0) =~= Seq::<NodeInfo>::empty());
    assert(r@ =~= Seq::<NodeInfo>::empty());
    while all.len() > 0
        invariant
            0 <= k <= s.len(),
            k + all@.len() == s.len(),
            all@ == s.subrange(k, s.len() as int),
            r@.to_multiset() == s.subrange(0, k).to_multiset(),
            forall|a: int, b: int| 0 <= a < b < r@.len() ==> r@[a].id <= r@[b].id,
        decreases all@.len(),
    {
        let x = all.remove(0);
        let id = x.id;
        let mut pos: usize = r.len();
        while pos > 0 && r[pos - 1].id > id
            invariant
                pos <= r@.len(),
                forall|a: int| pos <= a < r@.len() ==> (#[trigger] r@[a]).id > id,
            decreases pos,
        {
            pos = pos - 1;
        }
        let ghost r0 = r@;
        r.insert(pos, x);
        proof {
            assert(s.subrange(0, k + 1) =~= s.subrange(0, k).push(s[k]));
            assert(r@ == r0.insert(pos as int, s[k]));
            vstd::seq_lib::to_multiset_insert(r0, pos as int, s[k]);
            vstd::seq_lib::to_multiset_build(s.subrange(0, k), s[k]);
        }
        assert forall|a: int, b: int| 0 <= a < b < r@.len() implies r@[a].id <= r@[b].id by {
            if b < pos {
            } else if b == pos {
                if a < pos && pos > 0 {
                    assert(r0[pos - 1].id <= id);
                    if a < pos - 1 {
                        assert(r0[a].id <= r0[pos - 1].id);
                    }
                }
            } else if a < pos {
                assert(r@[b] == r0[b - 1]);
            } else if a == pos {
                assert(r@[b] == r0[b - 1]);
            } else {
                assert(r@[a] == r0[a - 1] && r@[b] == r0[b - 1]);
            }
        }
        proof {
            k = k + 1;
        }
        assert(all@ =~= s.subrange(k, s.len() as int));
    }
    assert(s.subrange(0, k) =~= s);
    r
}

/// The cache of a network at startup: the given reduced tree and forks, and
/// for each node (ids distinct), in the order given, an entry with no tips,
/// version `unknown`, time 0, reachable.
pub fn populate_cache(nodes: Vec<NodeInfo>, header_infos_json: Vec<HeaderInfoJson>, forks: Vec<Fork>) -> (r: Cache)
    requires
        forall|a: int, b: int| 0 <= a < b < nodes@.len() ==> (#[trigger] nodes@[a]).id != (#[trigger] nodes@[b]).id,
    ensures
        r.wf(),
        r.header_infos_json == header_infos_json,
        r.forks == forks,
        r.recent_miners@.len() == 0,
        r.node_data@.len() == nodes@.len(),
        forall|k: int| 0 <= k < nodes@.len() ==> {
            let d = #[trigger] r.node_data@[k];
            &&& d.id == nodes@[k].id
            &&& d.name == nodes@[k].name
            &&& d.description == nodes@[k].description
            &&& d.implementation == nodes@[k].implementation
            &&& d.tips@.len() == 0
            &&& d.version@ == version_unknown_spec()
            &&& d.last_changed_timestamp == 0
            &&& d.reachable
        },
{
    let mut node_data: Vec<NodeDataJson> = Vec::new();
    let mut k: usize = 0;
    while k < nodes.len()
        invariant
            k <= nodes@.len(),
            node_data@.len() == k,
            forall|a: int, b: int| 0 <= a < b < nodes@.len() ==> (#[trigger] nodes@[a]).id != (#[trigger] nodes@[b]).id,
            forall|k2: int| 0 <= k2 < k ==> {
                let d = #[trigger] node_data@[k2];
                &&& d.id == nodes@[k2].id
                &&& d.name == nodes@[k2].name
                &&& d.description == nodes@[k2].description
                &&& d.implementation == nodes@[k2].implementation
                &&& d.tips@.len() == 0
                &&& d.version@ == version_unknown_spec()
                &&& d.last_changed_timestamp == 0
                &&& d.reachable
            },
        decreases nodes@.len() - k,
    {
        let info = NodeInfo {
            id: nodes[k].id,
            name: nodes[k].name.clone(),
            description: nodes[k].description.clone(),
            implementation: nodes[k].implementation.clone(),
        };
        node_data.push(initial_node_data(info));
        k = k + 1;
    }
    let r = Cache { header_infos_json, node_data, forks, recent_miners: Vec::new() };
    assert forall|a: int, b: int| 0 <= a < b < r.node_data@.len() implies (#[trigger] r.node_data@[a]).id != (#[trigger] r.node_data@[b]).id by {
        assert(nodes@[a].id != nodes@[b].id);
    }
    r
}

} // verus!
