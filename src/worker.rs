//! The decisions of the per-network tasks: the poller's tick and the
//! pool-identification worker. The tasks themselves (timers, channels,
//! requests) run outside the library and hand their results in here.
use vstd::prelude::*;
use vstd::string::*;

use crate::cache::{tip_heights, Cache, CacheUpdate};
use crate::graph::HeaderGraph;
use crate::headertree::{is_recent_fork_ids, is_stripped, is_top_interesting, keep, recent_forks, strip_tree, is_fork_at};
use crate::error::FetchError;
use crate::types::{miner_unknown, miner_unknown_spec, same_tip, same_tips, tips_equal, ChainTip, HeaderInfo};

verus! {

/// How many forks a cache keeps.
pub const MAX_FORKS_IN_CACHE: usize = 50;

/// Whether a miner still has to be identified: it is empty or `Unknown`.
pub open spec fn needs_identification_spec(miner: Seq<char>) -> bool {
    miner.len() == 0 || miner == miner_unknown_spec()
}

/// Whether a header's miner still has to be identified. A header whose
/// identification failed keeps `Unknown` in the store too, and is asked for
/// again only when its hash is handed to the worker again (a later tip
/// change, or the sweep after startup); a newer pool list alone does not
/// bring it back.
pub fn needs_miner_identification(miner: &String) -> (r: bool)
    ensures
        r == needs_identification_spec(miner@),
{
    miner.unicode_len() == 0 || *miner == miner_unknown()
}

/// The miner that one node's coinbase gave: `None` when the coinbase could
/// not be fetched, else the pool name (`Unknown` when not identified).
/// Returns the name if it settles the search, that is, if it is a pool.
pub fn accept_miner(result: Option<String>) -> (r: Option<String>)
    ensures
        r is Some <==> result is Some && result->Some_0@ != miner_unknown_spec(),
        r is Some ==> r->Some_0 == result->Some_0,
{
    match result {
        Some(name) => {
            if name == miner_unknown() {
                None
            } else {
                Some(name)
            }
        },
        None => None,
    }
}

/// The miner found over the nodes' results in configured order: the first
/// pool name, else `Unknown`.
pub fn settle_miner(results: Vec<Option<String>>) -> (r: String)
    ensures
        (exists|k: int| 0 <= k < results@.len() && (#[trigger] results@[k]) is Some && results@[k]->Some_0@ != miner_unknown_spec()) ==> exists|k: int|
            0 <= k < results@.len() && (#[trigger] results@[k]) is Some && r == results@[k]->Some_0 && r@ != miner_unknown_spec()
                && forall|j: int| 0 <= j < k ==> !((#[trigger] results@[j]) is Some && results@[j]->Some_0@ != miner_unknown_spec()),
        !(exists|k: int| 0 <= k < results@.len() && (#[trigger] results@[k]) is Some && results@[k]->Some_0@ != miner_unknown_spec()) ==> r@ == miner_unknown_spec(),
{
    let ghost rs = results@;
    let mut rest = results;
    let mut k: usize = 0;
    let n = rest.len();
    while k < n
        invariant
            rs == results@,
            n == rs.len(),
            k <= n,
            rest@.len() == n,
            forall|j: int| k <= j < n ==> rest@[j] == rs[j],
            forall|j: int| 0 <= j < k ==> !((#[trigger] rs[j]) is Some && rs[j]->Some_0@ != miner_unknown_spec()),
        decreases n - k,
    {
        let mut x: Option<String> = None;
        rest.set_and_swap(k, &mut x);
        assert(x == rs[k as int]);
        match accept_miner(x) {
            Some(name) => {
                assert(rs[k as int] is Some && name == rs[k as int]->Some_0 && name@ != miner_unknown_spec());
                return name;
            },
            None => {},
        }
        k = k + 1;
    }
    assert(!(exists|k: int| 0 <= k < rs.len() && (#[trigger] rs[k]) is Some && rs[k]->Some_0@ != miner_unknown_spec()));
    miner_unknown()
}

/// Whether the one-off sweep after startup asks for the miner of a header:
/// it is unidentified and kept around the interesting heights `ih`.
pub fn sweep_selects(info: &HeaderInfo, ih: &Vec<u64>) -> (r: bool)
    ensures
        r == (needs_identification_spec(info.miner@) && keep(ih@, info.height)),
{
    needs_miner_identification(&info.miner) && crate::headertree::keeps_height(ih, info.height)
}

/// The reachability update that a tick needs: only when the flag changes
/// (`None` also when the cache has no such node).
pub fn reachability_update(cache: &Cache, node_id: u32, reached: bool) -> (r: Option<CacheUpdate>)
    requires
        cache.wf(),
    ensures
        r is Some <==> exists|k: int|
            0 <= k < cache.node_data@.len() && (#[trigger] cache.node_data@[k]).id == node_id
                && cache.node_data@[k].reachable != reached,
        r is Some ==> r == Some(CacheUpdate::NodeReachability { node_id, reachable: reached }),
{
    match crate::cache::is_node_reachable(cache, node_id) {
        Some(now) => {
            if now != reached {
                Some(CacheUpdate::NodeReachability { node_id, reachable: reached })
            } else {
                proof {
                    assert forall|k: int|
                        0 <= k < cache.node_data@.len() && (#[trigger] cache.node_data@[k]).id == node_id implies cache.node_data@[k].reachable == reached by {
                        let w = choose|w: int| 0 <= w < cache.node_data@.len() && (#[trigger] cache.node_data@[w]).id == node_id
                            && cache.node_data@[w].reachable == now;
                        if w != k {
                            assert(cache.node_data@[w].id != cache.node_data@[k].id);
                        }
                    }
                }
                None
            }
        },
        None => None,
    }
}

/// The heights that a new reduced tree keeps as tips: those of every node
/// in the cache and those of the tips just fetched.
pub fn tick_tip_heights(cache: &Cache, tips: &Vec<ChainTip>) -> (r: Vec<u64>)
    ensures
        forall|h: u64| #[trigger] r@.contains(h) <==> (exists|n: int, t: int|
            0 <= n < cache.node_data@.len() && 0 <= t < cache.node_data@[n].tips@.len()
                && cache.node_data@[n].tips@[t].height == h) || (exists|t: int| 0 <= t < tips@.len() && tips@[t].height == h),
{
    let mut r = tip_heights(cache);
    let ghost r0 = r@;
    let mut t: usize = 0;
    while t < tips.len()
        invariant
            t <= tips@.len(),
            forall|h: u64| #[trigger] r@.contains(h) <==> r0.contains(h) || (exists|t2: int| 0 <= t2 < t && tips@[t2].height == h),
        decreases tips@.len() - t,
    {
        let ghost r1 = r@;
        r.push(tips[t].height);
        assert forall|h: u64| #[trigger] r@.contains(h) <==> r1.contains(h) || h == tips@[t as int].height by {
            if r1.contains(h) {
                let w = choose|w: int| 0 <= w < r1.len() && r1[w] == h;
                assert(r@[w] == h);
            }
            if r@.contains(h) && h != tips@[t as int].height {
                let w = choose|w: int| 0 <= w < r@.len() && r@[w] == h;
                assert(r1[w] == h);
            }
            if h == tips@[t as int].height {
                assert(r@[r@.len() - 1] == h);
            }
        }
        t = t + 1;
    }
    r
}

/// The `HeaderTree` update after the graph changed: the graph reduced
/// around the given tip heights, and its most recent forks.
pub fn tree_update(g: &HeaderGraph, max_interesting_heights: usize, tip_heights: &Vec<u64>) -> (r: CacheUpdate)
    requires
        g.wf(),
    ensures
        r is HeaderTree,
        crate::headertree::prev_ids_name_entries(r->header_infos_json@),
        crate::headertree::one_first(r->header_infos_json@),
        exists|ih: Seq<u64>|
            is_top_interesting(g, tip_heights@, max_interesting_heights as nat, ih) && is_stripped(
                g,
                ih,
                r->header_infos_json@,
            ),
        exists|ids: Seq<int>|
            is_recent_fork_ids(g, MAX_FORKS_IN_CACHE as nat, ids) && ids.len() == r->forks@.len() && forall|k: int|
                0 <= k < ids.len() ==> is_fork_at(g, #[trigger] r->forks@[k], ids[k]),
{
    let header_infos_json = strip_tree(g, max_interesting_heights, tip_heights);
    let forks = recent_forks(g, MAX_FORKS_IN_CACHE);
    let ghost hs = header_infos_json;
    let ghost fs = forks;
    let r = CacheUpdate::HeaderTree { header_infos_json, forks };
    assert(exists|ih: Seq<u64>|
        is_top_interesting(g, tip_heights@, max_interesting_heights as nat, ih) && is_stripped(g, ih, hs@));
    assert(exists|ids: Seq<int>|
        is_recent_fork_ids(g, MAX_FORKS_IN_CACHE as nat, ids) && ids.len() == fs@.len() && forall|k: int|
            0 <= k < ids.len() ==> is_fork_at(g, #[trigger] fs@[k], ids[k]));
    r
}

/// The state of the poller of one node: the tips it acted on last.
#[derive(Debug)]
pub struct Poller {
    pub node_id: u32,
    pub last_tips: Vec<ChainTip>,
}

/// A copy of a list of tips.
fn copy_tips(tips: &Vec<ChainTip>) -> (r: Vec<ChainTip>)
    ensures
        same_tips(r@, tips@),
{
    let mut r: Vec<ChainTip> = Vec::new();
    let mut k: usize = 0;
    while k < tips.len()
        invariant
            k <= tips@.len(),
            r@.len() == k,
            forall|j: int| 0 <= j < k ==> same_tip(#[trigger] r@[j], tips@[j]),
        decreases tips@.len() - k,
    {
        r.push(tips[k].duplicate());
        k = k + 1;
    }
    r
}

impl Poller {
    /// A poller that has not acted on any tips yet.
    pub fn new(node_id: u32) -> (r: Poller)
        ensures
            r.node_id == node_id,
            r.last_tips@.len() == 0,
    {
        Poller { node_id, last_tips: Vec::new() }
    }

    /// What a tick does with the answer to its request for tips: the
    /// reachability update it needs (the node was reached exactly when the
    /// answer is not an error), and the tips to walk for new headers, which
    /// there are only when the answer holds tips other than the last ones
    /// acted on.
    pub fn on_tips(&self, cache: &Cache, fetched: Result<Vec<ChainTip>, FetchError>) -> (r: (
        Option<CacheUpdate>,
        Option<Vec<ChainTip>>,
    ))
        requires
            cache.wf(),
        ensures
            r.0 is Some <==> exists|k: int|
                0 <= k < cache.node_data@.len() && (#[trigger] cache.node_data@[k]).id == self.node_id
                    && cache.node_data@[k].reachable != (fetched is Ok),
            r.0 is Some ==> r.0 == Some(CacheUpdate::NodeReachability { node_id: self.node_id, reachable: fetched is Ok }),
            r.1 is Some <==> fetched is Ok && !same_tips(self.last_tips@, fetched->Ok_0@),
            r.1 is Some ==> r.1->Some_0 == fetched->Ok_0,
    {
        let reached = fetched.is_ok();
        let update = reachability_update(cache, self.node_id, reached);
        let walk = match fetched {
            Ok(tips) => {
                if tips_equal(&self.last_tips, &tips) {
                    None
                } else {
                    Some(tips)
                }
            },
            Err(_) => None,
        };
        (update, walk)
    }

    /// Records the tips whose new headers were fetched.
    pub fn on_headers_fetched(&mut self, tips: &Vec<ChainTip>)
        ensures
            final(self).node_id == old(self).node_id,
            same_tips(final(self).last_tips@, tips@),
    {
        self.last_tips = copy_tips(tips);
    }
}

} // verus!
