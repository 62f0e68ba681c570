//! The items of the RSS feeds: forks, lagging nodes, invalid blocks and
//! unreachable nodes. Rendering them as XML is left to the caller.
use vstd::prelude::*;
use vstd::string::*;

use crate::cache::hash_str_of;
use crate::text::{decimal, push_decimal, push_str};
use crate::types::{status_str, ChainTipStatus, Fork, NodeDataJson, TipInfoJson};

verus! {

/// How many blocks a node's active tip may trail the highest one before it
/// counts as lagging.
pub const THRESHOLD_NODE_LAGGING: u64 = 3;

/// An RSS item.
#[derive(Debug, Clone)]
pub struct Item {
    pub title: String,
    pub description: String,
    pub guid: String,
}

/// The characters of a string literal, for use in contracts.
pub open spec fn lit(s: &str) -> Seq<char> {
    s@
}

/// The description of a lagging node's item.
pub open spec fn lagging_description(height: u64) -> Seq<char> {
    lit("The node's active tip is on height ") + decimal(height as nat) + lit(
        ", while other nodes consider a block with a height at least ",
    ) + decimal(THRESHOLD_NODE_LAGGING as nat) + lit(
        " blocks higher their active tip. The node might still be synchronizing with the network or stuck.",
    )
}

impl Item {
    /// The item for a node whose active tip is at `height`, too far below the
    /// others.
    pub fn lagging_node_item(node: &NodeDataJson, height: u64) -> (r: Item)
        ensures
            r.title@ == lit("Node '") + node.name@ + lit("' is lagging behind"),
            r.description@ == lagging_description(height),
            r.guid@ == lit("lagging-node-") + node.name@ + lit("-on-") + decimal(height as nat),
    {
        let mut title = String::new();
        push_str(&mut title, "Node '");
        push_str(&mut title, node.name.as_str());
        push_str(&mut title, "' is lagging behind");
        let mut description = String::new();
        push_str(&mut description, "The node's active tip is on height ");
        push_decimal(&mut description, height);
        push_str(&mut description, ", while other nodes consider a block with a height at least ");
        push_decimal(&mut description, THRESHOLD_NODE_LAGGING);
        push_str(
            &mut description,
            " blocks higher their active tip. The node might still be synchronizing with the network or stuck.",
        );
        let mut guid = String::new();
        push_str(&mut guid, "lagging-node-");
        push_str(&mut guid, node.name.as_str());
        push_str(&mut guid, "-on-");
        push_decimal(&mut guid, height);
        proof {
            assert(title@ =~= lit("Node '") + node.name@ + lit("' is lagging behind"));
            assert(guid@ =~= lit("lagging-node-") + node.name@ + lit("-on-") + decimal(height as nat));
        }
        Item { title, description, guid }
    }

    /// The item for a fork: `Fork at height H` (`Multi-fork` for more than
    /// two children), identified by the common header's hash.
    pub fn from_fork(fork: &Fork) -> (r: Item)
        ensures
            r.title@ == (if fork.children@.len() <= 2 { lit("Fork") } else { lit("Multi-fork") }) + lit(
                " at height ",
            ) + decimal(fork.common.height as nat),
            r.description@ == lit("There are ") + decimal(fork.children@.len() as nat) + lit(
                " blocks building on-top of block ",
            ) + hash_str_of(fork.common) + lit("."),
            r.guid@ == hash_str_of(fork.common),
    {
        let hash = fork.common.header.block_hash().to_hex_string();
        let mut title = String::new();
        if fork.children.len() <= 2 {
            push_str(&mut title, "Fork");
        } else {
            push_str(&mut title, "Multi-fork");
        }
        push_str(&mut title, " at height ");
        push_decimal(&mut title, fork.common.height);
        let mut description = String::new();
        push_str(&mut description, "There are ");
        push_decimal(&mut description, fork.children.len() as u64);
        push_str(&mut description, " blocks building on-top of block ");
        push_str(&mut description, hash.as_str());
        push_str(&mut description, ".");
        proof {
            assert(description@ =~= lit("There are ") + decimal(fork.children@.len() as nat) + lit(
                " blocks building on-top of block ",
            ) + hash_str_of(fork.common) + lit("."));
        }
        Item { title, description, guid: hash }
    }
}

/// The height of the last active tip, 0 when there is none.
pub open spec fn active_height(tips: Seq<TipInfoJson>) -> u64
    decreases tips.len(),
{
    if tips.len() == 0 {
        0
    } else if tips.last().status@ == status_str(ChainTipStatus::Active) {
        tips.last().height
    } else {
        active_height(tips.drop_last())
    }
}

/// The highest active height among the first `m` nodes, 0 for none.
pub open spec fn max_active_height(nodes: Seq<NodeDataJson>, m: int) -> u64
    decreases m,
{
    if m <= 0 {
        0
    } else {
        let a = active_height(nodes[m - 1].tips@);
        let b = max_active_height(nodes, m - 1);
        if a > b {
            a
        } else {
            b
        }
    }
}

/// Whether node `k` is lagging: its active tip is three or more blocks
/// below the highest one, among more than one node.
pub open spec fn is_lagging(nodes: Seq<NodeDataJson>, k: int) -> bool {
    nodes.len() > 1 && active_height(nodes[k].tips@) + THRESHOLD_NODE_LAGGING <= max_active_height(
        nodes,
        nodes.len() as int,
    )
}

/// The positions of the lagging nodes among the first `m`.
pub open spec fn lagging_positions(nodes: Seq<NodeDataJson>, m: int) -> Seq<int>
    decreases m,
{
    if m <= 0 {
        Seq::empty()
    } else if is_lagging(nodes, m - 1) {
        lagging_positions(nodes, m - 1).push(m - 1)
    } else {
        lagging_positions(nodes, m - 1)
    }
}

/// The height of a node's last active tip, 0 when there is none.
pub fn node_active_height(tips: &Vec<TipInfoJson>) -> (r: u64)
    ensures
        r == active_height(tips@),
{
    let active = ChainTipStatus::Active.to_status_string();
    let mut k: usize = tips.len();
    assert(tips@.subrange(0, tips@.len() as int) =~= tips@);
    while k > 0
        invariant
            k <= tips@.len(),
            active@ == status_str(ChainTipStatus::Active),
            active_height(tips@) == active_height(tips@.subrange(0, k as int)),
        decreases k,
    {
        assert(tips@.subrange(0, k as int).drop_last() =~= tips@.subrange(0, k - 1));
        if tips[k - 1].status == active {
            return tips[k - 1].height;
        }
        k = k - 1;
    }
    assert(tips@.subrange(0, 0) =~= Seq::<TipInfoJson>::empty());
    0
}

/// The items for the lagging nodes, in node order.
pub fn lagging_nodes(nodes: &Vec<NodeDataJson>) -> (r: Vec<Item>)
    ensures
        r@.len() == lagging_positions(nodes@, nodes@.len() as int).len(),
        forall|k: int| 0 <= k < r@.len() ==> {
            let p = lagging_positions(nodes@, nodes@.len() as int)[k];
            (#[trigger] r@[k]).guid@ == lit("lagging-node-") + nodes@[p].name@ + lit("-on-") + decimal(
                active_height(nodes@[p].tips@) as nat,
            ) && r@[k].title@ == lit("Node '") + nodes@[p].name@ + lit("' is lagging behind")
                && r@[k].description@ == lagging_description(active_height(nodes@[p].tips@))
        },
{
    let mut max: u64 = 0;
    let mut k: usize = 0;
    while k < nodes.len()
        invariant
            k <= nodes@.len(),
            max == max_active_height(nodes@, k as int),
        decreases nodes@.len() - k,
    {
        let a = node_active_height(&nodes[k].tips);
        if a > max {
            max = a;
        }
        k = k + 1;
    }
    let mut r: Vec<Item> = Vec::new();
    let mut k: usize = 0;
    while k < nodes.len()
        invariant
            k <= nodes@.len(),
            max == max_active_height(nodes@, nodes@.len() as int),
            r@.len() == lagging_positions(nodes@, k as int).len(),
            forall|j: int| 0 <= j < r@.len() ==> {
                let p = lagging_positions(nodes@, k as int)[j];
                (#[trigger] r@[j]).guid@ == lit("lagging-node-") + nodes@[p].name@ + lit("-on-") + decimal(
                    active_height(nodes@[p].tips@) as nat,
                ) && r@[j].title@ == lit("Node '") + nodes@[p].name@ + lit("' is lagging behind")
                    && r@[j].description@ == lagging_description(active_height(nodes@[p].tips@))
            },
        decreases nodes@.len() - k,
    {
        let a = node_active_height(&nodes[k].tips);
        if nodes.len() > 1 && (a as u128) + (THRESHOLD_NODE_LAGGING as u128) <= max as u128 {
            r.push(Item::lagging_node_item(&nodes[k], a));
        }
        k = k + 1;
    }
    r
}

/// The items for the unreachable nodes, in node order.
pub fn unreachable_nodes(nodes: &Vec<NodeDataJson>) -> (r: Vec<Item>)
    ensures
        r@.len() == nodes@.filter(|n: NodeDataJson| !n.reachable).len(),
        forall|k: int| 0 <= k < r@.len() ==> {
            let n = nodes@.filter(|n: NodeDataJson| !n.reachable)[k];
            &&& (#[trigger] r@[k]).title@ == lit("Node '") + n.name@ + lit("' is unreachable")
            &&& r@[k].guid@ == lit("unreachable-node-") + n.name@ + lit("-since-") + decimal(n.last_changed_timestamp as nat)
        },
{
    let ghost sel = |n: NodeDataJson| !n.reachable;
    let mut r: Vec<Item> = Vec::new();
    let mut k: usize = 0;
    while k < nodes.len()
        invariant
            k <= nodes@.len(),
            sel == (|n: NodeDataJson| !n.reachable),
            r@.len() == nodes@.subrange(0, k as int).filter(sel).len(),
            forall|j: int| 0 <= j < r@.len() ==> {
                let n = nodes@.subrange(0, k as int).filter(sel)[j];
                &&& (#[trigger] r@[j]).title@ == lit("Node '") + n.name@ + lit("' is unreachable")
                &&& r@[j].guid@ == lit("unreachable-node-") + n.name@ + lit("-since-") + decimal(n.last_changed_timestamp as nat)
            },
        decreases nodes@.len() - k,
    {
        proof {
            reveal(Seq::filter);
            assert(nodes@.subrange(0, k + 1).drop_last() =~= nodes@.subrange(0, k as int));
        }
        let n = &nodes[k];
        if !n.reachable {
            let mut title = String::new();
            push_str(&mut title, "Node '");
            push_str(&mut title, n.name.as_str());
            push_str(&mut title, "' is unreachable");
            let mut description = String::new();
            push_str(&mut description, "The node '");
            push_str(&mut description, n.name.as_str());
            push_str(&mut description, "' could not be reached when its chain tips were last requested.");
            let mut guid = String::new();
            push_str(&mut guid, "unreachable-node-");
            push_str(&mut guid, n.name.as_str());
            push_str(&mut guid, "-since-");
            push_decimal(&mut guid, n.last_changed_timestamp);
            proof {
                assert(title@ =~= lit("Node '") + n.name@ + lit("' is unreachable"));
                assert(guid@ =~= lit("unreachable-node-") + n.name@ + lit("-since-") + decimal(n.last_changed_timestamp as nat));
            }
            r.push(Item { title, description, guid });
        }
        k = k + 1;
    }
    assert(nodes@.subrange(0, k as int) =~= nodes@);
    r
}

/// An invalid block and the nodes that report it, as `(id, name)`.
#[derive(Debug, Clone)]
pub struct InvalidBlock {
    pub hash: String,
    pub height: u64,
    pub nodes: Vec<(u32, String)>,
}

/// Whether tip `t` of node `n` reports an invalid block.
pub open spec fn reports_invalid(nodes: Seq<NodeDataJson>, n: int, t: int) -> bool {
    0 <= n < nodes.len() && 0 <= t < nodes[n].tips@.len() && nodes[n].tips@[t].status@ == status_str(
        ChainTipStatus::Invalid,
    )
}

/// Whether node entry `e` reports an invalid block with this hash and
/// height.
pub open spec fn reported_by(nodes: Seq<NodeDataJson>, e: (u32, String), hash: Seq<char>, height: u64) -> bool {
    exists|n: int, t: int|
        #[trigger] reports_invalid(nodes, n, t) && e == (nodes[n].id, nodes[n].name)
            && nodes[n].tips@[t].hash@ == hash && nodes[n].tips@[t].height == height
}

/// Whether some block of `bs` is the one of tip `t` of node `n` and lists
/// that node.
pub open spec fn listed(nodes: Seq<NodeDataJson>, bs: Seq<InvalidBlock>, n: int, t: int) -> bool {
    exists|b: int|
        0 <= b < bs.len() && (#[trigger] bs[b]).hash@ == nodes[n].tips@[t].hash@ && bs[b].height
            == nodes[n].tips@[t].height && bs[b].nodes@.contains((nodes[n].id, nodes[n].name))
}

/// Whether the invalid blocks `bs` group the reports of `nodes`: one block
/// per reported hash and height, highest first, each with the nodes that
/// report it, and at least one such node.
pub open spec fn groups_invalid(nodes: Seq<NodeDataJson>, bs: Seq<InvalidBlock>) -> bool {
    &&& forall|b: int| 0 <= b < bs.len() ==> (#[trigger] bs[b]).nodes@.len() > 0
    &&& forall|a: int, b: int| 0 <= a < b < bs.len() ==> bs[a].height >= bs[b].height
    &&& forall|a: int, b: int|
        0 <= a < b < bs.len() ==> !((#[trigger] bs[a]).hash@ == (#[trigger] bs[b]).hash@ && bs[a].height == bs[b].height)
    &&& forall|n: int, t: int| #[trigger] reports_invalid(nodes, n, t) ==> listed(nodes, bs, n, t)
    &&& forall|b: int, e: int|
        0 <= b < bs.len() && 0 <= e < bs[b].nodes@.len() ==> reported_by(nodes, #[trigger] bs[b].nodes@[e], bs[b].hash@, bs[b].height)
}

/// The invalid blocks that the nodes report, highest first (equally high
/// ones in the order first reported), each with its reporting nodes in node
/// order.
pub fn invalid_blocks(nodes: &Vec<NodeDataJson>) -> (r: Vec<InvalidBlock>)
    ensures
        groups_invalid(nodes@, r@),
{
    let invalid = ChainTipStatus::Invalid.to_status_string();
    let mut groups: Vec<InvalidBlock> = Vec::new();
    let mut n: usize = 0;
    while n < nodes.len()
        invariant
            n <= nodes@.len(),
            invalid@ == status_str(ChainTipStatus::Invalid),
            forall|a: int, b: int| 0 <= a < b < groups@.len() ==> groups@[a].height >= groups@[b].height,
            forall|b: int| 0 <= b < groups@.len() ==> (#[trigger] groups@[b]).nodes@.len() > 0,
            forall|a: int, b: int|
                0 <= a < b < groups@.len() ==> !((#[trigger] groups@[a]).hash@ == (#[trigger] groups@[b]).hash@ && groups@[a].height == groups@[b].height),
            forall|n2: int, t: int| 0 <= n2 < n && #[trigger] reports_invalid(nodes@, n2, t) ==> listed(nodes@, groups@, n2, t),
            forall|b: int, e: int|
                0 <= b < groups@.len() && 0 <= e < groups@[b].nodes@.len() ==> reported_by(nodes@, #[trigger] groups@[b].nodes@[e], groups@[b].hash@, groups@[b].height),
        decreases nodes@.len() - n,
    {
        let node = &nodes[n];
        let mut t: usize = 0;
        while t < node.tips.len()
            invariant
                n < nodes@.len(),
                *node == nodes@[n as int],
                t <= node.tips@.len(),
                invalid@ == status_str(ChainTipStatus::Invalid),
                forall|a: int, b: int| 0 <= a < b < groups@.len() ==> groups@[a].height >= groups@[b].height,
                forall|b: int| 0 <= b < groups@.len() ==> (#[trigger] groups@[b]).nodes@.len() > 0,
                forall|a: int, b: int|
                    0 <= a < b < groups@.len() ==> !((#[trigger] groups@[a]).hash@ == (#[trigger] groups@[b]).hash@ && groups@[a].height == groups@[b].height),
                forall|n2: int, t2: int|
                    (0 <= n2 < n || (n2 == n && t2 < t)) && #[trigger] reports_invalid(nodes@, n2, t2) ==> listed(nodes@, groups@, n2, t2),
                forall|b: int, e: int|
                    0 <= b < groups@.len() && 0 <= e < groups@[b].nodes@.len() ==> reported_by(nodes@, #[trigger] groups@[b].nodes@[e], groups@[b].hash@, groups@[b].height),
            decreases node.tips@.len() - t,
        {
            let tip = &node.tips[t];
            if tip.status == invalid {
                assert(reports_invalid(nodes@, n as int, t as int));
                let ghost g0 = groups@;
                let ghost entry_s = (nodes@[n as int].id, nodes@[n as int].name);
                assert(reported_by(nodes@, entry_s, tip.hash@, tip.height));
                let mut g: usize = 0;
                while g < groups.len() && !(groups[g].hash == tip.hash && groups[g].height == tip.height)
                    invariant
                        g <= groups@.len(),
                        forall|g2: int| 0 <= g2 < g ==> !((#[trigger] groups@[g2]).hash@ == tip.hash@ && groups@[g2].height == tip.height),
                    decreases groups@.len() - g,
                {
                    g = g + 1;
                }
                let entry = (node.id, node.name.clone());
                assert(entry == entry_s);
                if g < groups.len() {
                    let mut b = InvalidBlock { hash: String::new(), height: 0, nodes: Vec::new() };
                    groups.set_and_swap(g, &mut b);
                    b.nodes.push(entry);
                    groups.set_and_swap(g, &mut b);
                    assert(groups@[g as int].nodes@.last() == entry_s);
                    assert forall|b2: int, e: int|
                        0 <= b2 < groups@.len() && 0 <= e < groups@[b2].nodes@.len() implies reported_by(nodes@, #[trigger] groups@[b2].nodes@[e], groups@[b2].hash@, groups@[b2].height) by {
                        if b2 == g && e == groups@[b2].nodes@.len() - 1 {
                        } else {
                            assert(groups@[b2].nodes@[e] == g0[b2].nodes@[e]);
                        }
                    }
                    assert forall|n2: int, t2: int|
                        (0 <= n2 < n || (n2 == n && t2 < t + 1)) && #[trigger] reports_invalid(nodes@, n2, t2) implies listed(nodes@, groups@, n2, t2) by {
                        if n2 == n && t2 == t {
                            assert(groups@[g as int].nodes@.contains(entry_s));
                            assert(groups@[g as int].hash@ == nodes@[n2].tips@[t2].hash@);
                        } else {
                            let b2 = choose|b2: int|
                                0 <= b2 < g0.len() && (#[trigger] g0[b2]).hash@ == nodes@[n2].tips@[t2].hash@ && g0[b2].height
                                    == nodes@[n2].tips@[t2].height && g0[b2].nodes@.contains((nodes@[n2].id, nodes@[n2].name));
                            let e = choose|e: int| 0 <= e < g0[b2].nodes@.len() && g0[b2].nodes@[e] == (nodes@[n2].id, nodes@[n2].name);
                            assert(groups@[b2].nodes@[e] == g0[b2].nodes@[e]);
                            assert(groups@[b2].nodes@.contains((nodes@[n2].id, nodes@[n2].name)));
                        }
                    }
                } else {
                    let h = tip.height;
                    let mut pos: usize = groups.len();
                    while pos > 0 && groups[pos - 1].height < h
                        invariant
                            pos <= groups@.len(),
                            forall|a: int| pos <= a < groups@.len() ==> (#[trigger] groups@[a]).height < h,
                        decreases pos,
                    {
                        pos = pos - 1;
                    }
                    let mut ns: Vec<(u32, String)> = Vec::new();
                    ns.push(entry);
                    groups.insert(pos, InvalidBlock { hash: tip.hash.clone(), height: tip.height, nodes: ns });
                    assert forall|a: int, b: int| 0 <= a < b < groups@.len() implies groups@[a].height >= groups@[b].height by {
                        if b < pos {
                        } else if b == pos {
                            if a < pos && pos > 0 {
                                assert(g0[pos - 1].height >= h);
                                if a < pos - 1 {
                                    assert(g0[a].height >= g0[pos - 1].height);
                                }
                            }
                        } else if a < pos {
                            assert(groups@[b] == g0[b - 1]);
                        } else if a == pos {
                            assert(groups@[b] == g0[b - 1]);
                        } else {
                            assert(groups@[a] == g0[a - 1] && groups@[b] == g0[b - 1]);
                        }
                    }
                    assert forall|a: int, b: int|
                        0 <= a < b < groups@.len() implies !((#[trigger] groups@[a]).hash@ == (#[trigger] groups@[b]).hash@ && groups@[a].height == groups@[b].height) by {
                        if a == pos {
                            assert(groups@[b] == g0[b - 1]);
                        } else if b == pos {
                            assert(groups@[a] == g0[a]);
                        } else {
                            let a0 = if a < pos { a } else { a - 1 };
                            let b0 = if b < pos { b } else { b - 1 };
                            assert(groups@[a] == g0[a0] && groups@[b] == g0[b0]);
                        }
                    }
                    assert forall|b2: int, e: int|
                        0 <= b2 < groups@.len() && 0 <= e < groups@[b2].nodes@.len() implies reported_by(nodes@, #[trigger] groups@[b2].nodes@[e], groups@[b2].hash@, groups@[b2].height) by {
                        if b2 == pos {
                        } else {
                            let b0 = if b2 < pos { b2 } else { b2 - 1 };
                            assert(groups@[b2] == g0[b0]);
                        }
                    }
                    assert forall|n2: int, t2: int|
                        (0 <= n2 < n || (n2 == n && t2 < t + 1)) && #[trigger] reports_invalid(nodes@, n2, t2) implies listed(nodes@, groups@, n2, t2) by {
                        if n2 == n && t2 == t {
                            assert(groups@[pos as int].nodes@[0] == entry_s);
                            assert(groups@[pos as int].nodes@.contains(entry_s));
                        } else {
                            let b2 = choose|b2: int|
                                0 <= b2 < g0.len() && (#[trigger] g0[b2]).hash@ == nodes@[n2].tips@[t2].hash@ && g0[b2].height
                                    == nodes@[n2].tips@[t2].height && g0[b2].nodes@.contains((nodes@[n2].id, nodes@[n2].name));
                            let b1 = if b2 < pos { b2 } else { b2 + 1 };
                            assert(groups@[b1] == g0[b2]);
                        }
                    }
                }
            }
            t = t + 1;
        }
        n = n + 1;
    }
    groups
}

/// When no node reports an invalid tip, there is no invalid block.
pub proof fn lemma_no_reports_no_blocks(nodes: Seq<NodeDataJson>, bs: Seq<InvalidBlock>)
    requires
        groups_invalid(nodes, bs),
        forall|n: int, t: int| !#[trigger] reports_invalid(nodes, n, t),
    ensures
        bs.len() == 0,
{
    if bs.len() > 0 {
        assert(bs[0].nodes@.len() > 0);
        assert(reported_by(nodes, bs[0].nodes@[0], bs[0].hash@, bs[0].height));
    }
}

/// An invalid tip that nodes report with one height gives exactly one block
/// with its hash, and that block lists the reporting node.
pub proof fn lemma_one_block_per_report(nodes: Seq<NodeDataJson>, bs: Seq<InvalidBlock>, n: int, t: int)
    requires
        groups_invalid(nodes, bs),
        reports_invalid(nodes, n, t),
        forall|n2: int, t2: int|
            #[trigger] reports_invalid(nodes, n2, t2) && nodes[n2].tips@[t2].hash@ == nodes[n].tips@[t].hash@
                ==> nodes[n2].tips@[t2].height == nodes[n].tips@[t].height,
    ensures
        exists|b: int|
            0 <= b < bs.len() && bs[b].hash@ == nodes[n].tips@[t].hash@ && bs[b].height == nodes[n].tips@[t].height
                && bs[b].nodes@.contains((nodes[n].id, nodes[n].name)) && forall|b2: int|
                0 <= b2 < bs.len() && #[trigger] bs[b2].hash@ == nodes[n].tips@[t].hash@ ==> b2 == b,
{
    assert(listed(nodes, bs, n, t));
    let b = choose|b: int|
        0 <= b < bs.len() && (#[trigger] bs[b]).hash@ == nodes[n].tips@[t].hash@ && bs[b].height
            == nodes[n].tips@[t].height && bs[b].nodes@.contains((nodes[n].id, nodes[n].name));
    assert forall|b2: int| 0 <= b2 < bs.len() && #[trigger] bs[b2].hash@ == nodes[n].tips@[t].hash@ implies b2 == b by {
        assert(bs[b2].nodes@.len() > 0);
        assert(reported_by(nodes, bs[b2].nodes@[0], bs[b2].hash@, bs[b2].height));
        let (n2, t2) = choose|n2: int, t2: int|
            #[trigger] reports_invalid(nodes, n2, t2) && bs[b2].nodes@[0] == (nodes[n2].id, nodes[n2].name)
                && nodes[n2].tips@[t2].hash@ == bs[b2].hash@ && nodes[n2].tips@[t2].height == bs[b2].height;
        assert(bs[b2].height == bs[b].height);
        if b2 != b {
            if b2 < b {
                assert(!(bs[b2].hash@ == bs[b].hash@ && bs[b2].height == bs[b].height));
            } else {
                assert(!(bs[b].hash@ == bs[b2].hash@ && bs[b].height == bs[b2].height));
            }
        }
    }
}

/// The reporting nodes written out: `name (id=ID)`, separated by `, `.
pub open spec fn node_list(ns: Seq<(u32, String)>) -> Seq<char>
    decreases ns.len(),
{
    if ns.len() == 0 {
        Seq::empty()
    } else if ns.len() == 1 {
        ns[0].1@ + lit(" (id=") + decimal(ns[0].0 as nat) + lit(")")
    } else {
        node_list(ns.drop_last()) + lit(", ") + ns.last().1@ + lit(" (id=") + decimal(ns.last().0 as nat) + lit(")")
    }
}

/// Whether the entries are ordered by node id.
pub open spec fn ids_ascending(ns: Seq<(u32, String)>) -> bool {
    forall|a: int, b: int| 0 <= a < b < ns.len() ==> ns[a].0 <= ns[b].0
}

/// The entries ordered by node id; equal ids keep their order.
pub fn sort_by_id(ns: &Vec<(u32, String)>) -> (r: Vec<(u32, String)>)
    ensures
        r@.to_multiset() == ns@.to_multiset(),
        ids_ascending(r@),
{
    let ghost s = ns@;
    let mut r: Vec<(u32, String)> = Vec::new();
    let mut k: usize = 0;
    assert(s.subrange(0, 0) =~= Seq::<(u32, String)>::empty());
    assert(r@ =~= Seq::<(u32, String)>::empty());
    while k < ns.len()
        invariant
            s == ns@,
            k <= s.len(),
            r@.to_multiset() == s.subrange(0, k as int).to_multiset(),
            ids_ascending(r@),
        decreases s.len() - k,
    {
        let x = (ns[k].0, ns[k].1.clone());
        assert(x == s[k as int]);
        let id = x.0;
        let mut pos: usize = r.len();
        while pos > 0 && r[pos - 1].0 > id
            invariant
                pos <= r@.len(),
                forall|a: int| pos <= a < r@.len() ==> (#[trigger] r@[a]).0 > id,
            decreases pos,
        {
            pos = pos - 1;
        }
        let ghost r0 = r@;
        r.insert(pos, x);
        proof {
            assert(s.subrange(0, k + 1) =~= s.subrange(0, k as int).push(s[k as int]));
            assert(r@ == r0.insert(pos as int, s[k as int]));
            vstd::seq_lib::to_multiset_insert(r0, pos as int, s[k as int]);
            vstd::seq_lib::to_multiset_build(s.subrange(0, k as int), s[k as int]);
        }
        assert forall|a: int, b: int| 0 <= a < b < r@.len() implies r@[a].0 <= r@[b].0 by {
            if b < pos {
            } else if b == pos {
                if a < pos && pos > 0 {
                    assert(r0[pos - 1].0 <= id);
                    if a < pos - 1 {
                        assert(r0[a].0 <= r0[pos - 1].0);
                    }
                }
            } else if a < pos {
                assert(r@[b] == r0[b - 1]);
            } else if a == pos {
                assert(r@[b] == r0[b - 1]);
            } else {
                assert(r@[a] == r0[a - 1] && r@[b] == r0[b - 1]);
            }
        }
        k = k + 1;
    }
    assert(s.subrange(0, k as int) =~= s);
    r
}

impl InvalidBlock {
    /// The item for an invalid block, identified by its hash; the reporting
    /// nodes are listed by id.
    pub fn to_item(&self) -> (r: Item)
        ensures
            r.title@ == lit("Invalid block at height ") + decimal(self.height as nat),
            exists|ns: Seq<(u32, String)>|
                #[trigger] ns.to_multiset() == self.nodes@.to_multiset() && ids_ascending(ns) && r.description@
                    == lit("Invalid block ") + self.hash@ + lit(" at height ") + decimal(self.height as nat) + lit(
                    " seen by node",
                ) + (if self.nodes@.len() > 1 { lit("s") } else { lit("") }) + lit(": ") + node_list(ns),
            r.guid@ == self.hash@,
    {
        let ns = sort_by_id(&self.nodes);
        let mut title = String::new();
        push_str(&mut title, "Invalid block at height ");
        push_decimal(&mut title, self.height);
        let mut d = String::new();
        push_str(&mut d, "Invalid block ");
        push_str(&mut d, self.hash.as_str());
        push_str(&mut d, " at height ");
        push_decimal(&mut d, self.height);
        push_str(&mut d, " seen by node");
        if self.nodes.len() > 1 {
            push_str(&mut d, "s");
        } else {
            push_str(&mut d, "");
        }
        push_str(&mut d, ": ");
        let ghost prefix = d@;
        let mut k: usize = 0;
        while k < ns.len()
            invariant
                k <= ns@.len(),
                d@ == prefix + node_list(ns@.subrange(0, k as int)),
            decreases ns@.len() - k,
        {
            assert(ns@.subrange(0, k + 1).drop_last() =~= ns@.subrange(0, k as int));
            if k > 0 {
                push_str(&mut d, ", ");
            }
            push_str(&mut d, ns[k].1.as_str());
            push_str(&mut d, " (id=");
            push_decimal(&mut d, ns[k].0 as u64);
            push_str(&mut d, ")");
            proof {
                let sub = ns@.subrange(0, k + 1);
                if k == 0 {
                    assert(d@ =~= prefix + node_list(sub));
                } else {
                    assert(d@ =~= prefix + node_list(sub));
                }
            }
            k = k + 1;
        }
        assert(ns@.subrange(0, k as int) =~= ns@);
        Item { title, description: d, guid: self.hash.clone() }
    }
}

} // verus!
