use forkobserver::graph::HeaderGraph;
use forkobserver::headertree::{recent_forks, sorted_interesting_heights, strip_tree};
use forkobserver::primitives::{BlockHash, Header};
use forkobserver::rss::Item;
use forkobserver::types::HeaderInfo;

fn header(prev: &[u8], nonce: u32) -> Header {
    let mut b: Vec<u8> = Vec::new();
    b.extend_from_slice(&0x2000_0000u32.to_le_bytes());
    b.extend_from_slice(prev);
    b.extend_from_slice(&[7u8; 32]);
    b.extend_from_slice(&1_700_000_000u32.to_le_bytes());
    b.extend_from_slice(&0x1d00_ffffu32.to_le_bytes());
    b.extend_from_slice(&nonce.to_le_bytes());
    Header::from_bytes(b).unwrap()
}

fn info(height: u64, h: Header) -> HeaderInfo {
    HeaderInfo { height, header: h, miner: String::new() }
}

/// `n` headers on top of `prev`, from `height` up.
fn chain(prev: &[u8], height: u64, n: usize, tag: u32) -> Vec<HeaderInfo> {
    let mut out = Vec::new();
    let mut p = prev.to_vec();
    for i in 0..n {
        let h = header(&p, tag * 1_000_000 + i as u32);
        p = h.block_hash().bytes.clone();
        out.push(info(height + i as u64, h));
    }
    out
}

fn hash_of(hi: &HeaderInfo) -> BlockHash {
    hi.header.block_hash()
}

#[test]
fn index_resolves_every_vertex() {
    let hs = chain(&[0u8; 32], 100, 10, 1);
    let g = HeaderGraph::from_headers(&hs);
    assert_eq!(g.node_count(), 10);
    for (i, h) in hs.iter().enumerate() {
        assert_eq!(g.lookup(&hash_of(h)), Some(i));
    }
    assert_eq!(g.lookup(&BlockHash { bytes: vec![1u8; 32] }), None);
}

#[test]
fn edges_follow_prev_hash_and_height() {
    let hs = chain(&[0u8; 32], 100, 5, 2);
    let g = HeaderGraph::from_headers(&hs);
    assert_eq!(g.parent[0], None);
    for c in 1..5 {
        let p = g.parent[c].unwrap();
        assert_eq!(p, c - 1);
        assert!(g.vertices[c].header.prev_blockhash().same(&hash_of(&g.vertices[p])));
        assert_eq!(g.vertices[c].height, g.vertices[p].height + 1);
    }
    assert_eq!(g.root_count(), 1);
}

#[test]
fn wrong_height_makes_no_edge() {
    let a = chain(&[0u8; 32], 100, 1, 3);
    let b = header(&hash_of(&a[0]).bytes, 99);
    let mut g = HeaderGraph::from_headers(&a);
    assert!(g.insert(info(105, b)));
    assert_eq!(g.parent[1], None);
    assert_eq!(g.root_count(), 2);
}

#[test]
fn child_inserted_before_parent_is_connected() {
    let hs = chain(&[0u8; 32], 100, 3, 4);
    let mut g = HeaderGraph::new();
    assert!(g.insert(hs[2].duplicate()));
    assert!(g.insert(hs[0].duplicate()));
    assert_eq!(g.root_count(), 2);
    assert!(g.insert(hs[1].duplicate()));
    assert_eq!(g.root_count(), 1);
    assert!(!g.insert(hs[1].duplicate()));
    assert_eq!(g.node_count(), 3);
}

#[test]
fn batch_insert_reports_change() {
    let hs = chain(&[0u8; 32], 100, 4, 5);
    let mut g = HeaderGraph::new();
    assert!(g.insert_headers(&hs));
    assert!(!g.insert_headers(&hs));
    assert_eq!(g.node_count(), 4);
}

#[test]
fn rebuild_in_other_order_has_same_edges() {
    let hs = chain(&[0u8; 32], 100, 6, 6);
    let fork = chain(&hash_of(&hs[2]).bytes, 103, 2, 7);
    let mut all: Vec<HeaderInfo> = hs.iter().map(|h| h.duplicate()).collect();
    all.extend(fork.iter().map(|h| h.duplicate()));
    let g1 = HeaderGraph::from_headers(&all);
    let mut reversed: Vec<HeaderInfo> = all.iter().map(|h| h.duplicate()).collect();
    reversed.reverse();
    let g2 = HeaderGraph::from_headers(&reversed);
    for c in 0..g1.node_count() {
        let c_other = g2.lookup(&hash_of(&g1.vertices[c])).unwrap();
        match g1.parent[c] {
            Some(p) => {
                let p_other = g2.lookup(&hash_of(&g1.vertices[p])).unwrap();
                assert_eq!(g2.parent[c_other], Some(p_other));
            }
            None => assert_eq!(g2.parent[c_other], None),
        }
    }
}

#[test]
fn multiple_roots_are_counted() {
    let a = chain(&[1u8; 32], 100, 3, 8);
    let b = chain(&[2u8; 32], 200, 3, 9);
    let mut all = a;
    all.extend(b);
    let mut g = HeaderGraph::from_headers(&all);
    assert_eq!(g.root_count(), 2);
    let more = chain(&hash_of(&g.vertices[5]).bytes, 203, 1, 10);
    assert!(g.insert_headers(&more));
    assert_eq!(g.root_count(), 2);
}

#[test]
fn strip_with_zero_heights_is_empty() {
    let hs = chain(&[0u8; 32], 100, 20, 11);
    let g = HeaderGraph::from_headers(&hs);
    assert!(strip_tree(&g, 0, &vec![110]).is_empty());
    assert!(sorted_interesting_heights(&g, 0, &vec![110]).is_empty());
}

#[test]
fn strip_empty_graph() {
    let g = HeaderGraph::new();
    assert!(strip_tree(&g, 10, &vec![5]).is_empty());
}

#[test]
fn interesting_heights_are_top_ones_ascending() {
    let hs = chain(&[0u8; 32], 100, 30, 12);
    let g = HeaderGraph::from_headers(&hs);
    assert_eq!(sorted_interesting_heights(&g, 10, &vec![110, 120, 105]), vec![105, 110, 120, 129]);
    assert_eq!(sorted_interesting_heights(&g, 2, &vec![110, 120, 105]), vec![120, 129]);
}

#[test]
fn strip_keeps_windows_and_reconnects() {
    // a linear chain 100..=129 with a tip reported at 110
    let hs = chain(&[0u8; 32], 100, 30, 13);
    let g = HeaderGraph::from_headers(&hs);
    let r = strip_tree(&g, 10, &vec![110]);
    let heights: Vec<u64> = r.iter().map(|h| h.height).collect();
    // around 110: 108..=111; around 129: 127..=129 (nothing above)
    assert_eq!(heights, vec![108, 109, 110, 111, 127, 128, 129]);
    for (k, h) in r.iter().enumerate() {
        assert_eq!(h.id, k);
    }
    assert_eq!(r[0].prev_id, usize::MAX);
    assert_eq!(r[1].prev_id, 0);
    // the second window's root joins the deepest header of the first
    assert_eq!(r[4].prev_id, 3);
    assert_eq!(r[6].prev_id, 5);
    assert_eq!(r[0].hash, hash_of(&hs[8]).to_hex_string());
}

#[test]
fn fork_detection_two_tips_same_height() {
    let base = chain(&[0u8; 32], 799_990, 10, 14);
    let a = header(&hash_of(&base[9]).bytes, 1);
    let b = header(&hash_of(&base[9]).bytes, 2);
    let mut g = HeaderGraph::from_headers(&base);
    assert!(g.insert(info(800_000, a)));
    assert!(g.insert(info(800_000, b)));
    let forks = recent_forks(&g, 50);
    assert_eq!(forks.len(), 1);
    assert_eq!(forks[0].common.height, 799_999);
    assert_eq!(forks[0].children.len(), 2);
    let item = Item::from_fork(&forks[0]);
    assert_eq!(item.title, "Fork at height 799999");
    assert_eq!(item.guid, hash_of(&base[9]).to_hex_string());
    assert_eq!(
        item.description,
        format!("There are 2 blocks building on-top of block {}.", hash_of(&base[9]).to_hex_string())
    );
    let r = strip_tree(&g, 100, &vec![800_000]);
    assert_eq!(r.iter().filter(|h| h.height == 800_000).count(), 2);
    assert!(r.iter().filter(|h| h.height == 800_000).all(|h| h.prev_id != usize::MAX));
}

#[test]
fn recent_forks_takes_most_recent() {
    let base = chain(&[0u8; 32], 100, 10, 15);
    let mut g = HeaderGraph::from_headers(&base);
    for (k, i) in [2usize, 5, 8].iter().enumerate() {
        let side = header(&hash_of(&base[*i]).bytes, 50 + k as u32);
        assert!(g.insert(info(101 + *i as u64, side)));
    }
    let forks = recent_forks(&g, 2);
    assert_eq!(forks.len(), 2);
    assert_eq!(forks[0].common.height, 108);
    assert_eq!(forks[1].common.height, 105);
    let three = chain(&hash_of(&base[1]).bytes, 102, 1, 16);
    let four = chain(&hash_of(&base[1]).bytes, 102, 1, 17);
    assert!(g.insert_headers(&three));
    assert!(g.insert_headers(&four));
    let all = recent_forks(&g, 50);
    assert_eq!(all.len(), 4);
    assert_eq!(Item::from_fork(&all[3]).title, "Multi-fork at height 101");
}

#[test]
fn long_chain_with_late_parents() {
    // every second header arrives before its parent
    let hs = chain(&[0u8; 32], 1000, 400, 18);
    let mut g = HeaderGraph::new();
    let odd: Vec<HeaderInfo> = hs.iter().skip(1).step_by(2).map(|h| h.duplicate()).collect();
    let even: Vec<HeaderInfo> = hs.iter().step_by(2).map(|h| h.duplicate()).collect();
    assert!(g.insert_headers(&odd));
    assert_eq!(g.root_count(), 200);
    assert!(g.insert_headers(&even));
    assert_eq!(g.root_count(), 1);
    for h in hs.iter() {
        let i = g.lookup(&hash_of(h)).unwrap();
        assert_eq!(g.vertices[i].height, h.height);
    }
}

#[test]
fn stripped_tree_has_one_start() {
    let a = chain(&[1u8; 32], 100, 5, 19);
    let b = chain(&[2u8; 32], 200, 5, 20);
    let mut all = a;
    all.extend(b);
    let g = HeaderGraph::from_headers(&all);
    let r = strip_tree(&g, 10, &vec![102, 204]);
    assert!(!r.is_empty());
    assert_eq!(r.iter().filter(|h| h.prev_id == usize::MAX).count(), 1);
    assert!(r.iter().all(|h| h.prev_id == usize::MAX || h.prev_id < r.len()));
}
