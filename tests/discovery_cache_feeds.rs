use forkobserver::cache::{populate_cache, update_cache, CacheUpdate, RECENT_MINERS_CAPACITY};
use forkobserver::discovery::{
    headers_needing_miners, merge_new_headers, ActiveWalk, Capabilities, FetchRequest, HeaderFetchType,
    InactiveWalk,
};
use forkobserver::error::{FetchError, JsonRPCError};
use forkobserver::graph::HeaderGraph;
use forkobserver::jsonrpc::{btcd_blockhash, btcd_blockheader, btcd_chaintips, Response, RpcErrorObject};
use forkobserver::primitives::{difficulty_int, BlockHash, Header};
use forkobserver::rss::{invalid_blocks, lagging_nodes, unreachable_nodes};
use forkobserver::store::{header_info_from_row, header_row};
use forkobserver::text::to_decimal;
use forkobserver::types::{ChainTip, ChainTipStatus, HeaderInfo, HeaderInfoJson, NodeInfo, TipInfoJson};
use forkobserver::worker::{needs_miner_identification, reachability_update, settle_miner, tree_update};

fn header(prev: &[u8], nonce: u32) -> Header {
    let mut b: Vec<u8> = Vec::new();
    b.extend_from_slice(&1u32.to_le_bytes());
    b.extend_from_slice(prev);
    b.extend_from_slice(&[3u8; 32]);
    b.extend_from_slice(&1_600_000_000u32.to_le_bytes());
    b.extend_from_slice(&0x1d00_ffffu32.to_le_bytes());
    b.extend_from_slice(&nonce.to_le_bytes());
    Header::from_bytes(b).unwrap()
}

fn chain(prev: &[u8], height: u64, n: usize, tag: u32) -> Vec<HeaderInfo> {
    let mut out = Vec::new();
    let mut p = prev.to_vec();
    for i in 0..n {
        let h = header(&p, tag * 1_000_000 + i as u32);
        p = h.block_hash().bytes.clone();
        out.push(HeaderInfo { height: height + i as u64, header: h, miner: String::new() });
    }
    out
}

fn tip(height: u64, hash: &str, status: ChainTipStatus, branchlen: usize) -> ChainTip {
    ChainTip { height, hash: hash.to_string(), branchlen, status }
}

fn core_caps(batch: bool) -> Capabilities {
    Capabilities { header_fetch_type: HeaderFetchType::Hash, batch_header_fetch: batch }
}

fn node(id: u32, name: &str) -> NodeInfo {
    NodeInfo { id, name: name.to_string(), description: String::new(), implementation: "Bitcoin Core".to_string() }
}

fn json(hi: &HeaderInfo, id: usize) -> HeaderInfoJson {
    HeaderInfoJson::new(hi, id, usize::MAX)
}

const HASH_A: &str = "00000000000000000002a7c4c1e48d76c5a37902165a270156b7a8d72728a054";

#[test]
fn no_tips_is_a_data_error() {
    assert!(matches!(ActiveWalk::start(&vec![], core_caps(true), 0), Err(FetchError::DataError(_))));
    let only_fork = vec![tip(10, HASH_A, ChainTipStatus::ValidFork, 1)];
    assert!(matches!(ActiveWalk::start(&only_fork, core_caps(false), 0), Err(FetchError::DataError(_))));
}

#[test]
fn tip_below_min_fork_height_fetches_nothing() {
    let tips = vec![tip(100, HASH_A, ChainTipStatus::Active, 0)];
    let (w, req) = ActiveWalk::start(&tips, core_caps(true), 500).unwrap();
    assert!(w.done);
    assert!(req.is_none());
    assert!(w.into_headers().is_empty());
}

#[test]
fn cold_start_batch_fetch() {
    let tips = vec![tip(800_000, HASH_A, ChainTipStatus::Active, 0)];
    let g = HeaderGraph::new();
    let hs = chain(&[0u8; 32], 798_000, 2001, 1);
    let (mut w, req) = ActiveWalk::start(&tips, core_caps(true), 798_000).unwrap();
    assert!(matches!(req, Some(FetchRequest::BlockHash { height: 798_001 })));
    let req = w.on_block_hash(&g, hs[1].header.block_hash());
    match req {
        Some(FetchRequest::Batch { start_height, count, .. }) => {
            assert_eq!(start_height, 798_001);
            assert_eq!(count, 2000);
        }
        _ => panic!("expected a batch request"),
    }
    let batch: Vec<Header> = hs[1..].iter().map(|h| h.header.duplicate()).collect();
    let req = w.on_batch(&g, &batch);
    assert!(matches!(req, Some(FetchRequest::BlockHash { height: 798_000 })));
    let req = w.on_block_hash(&g, hs[0].header.block_hash());
    assert!(matches!(req, Some(FetchRequest::Batch { start_height: 798_000, count: 1, .. })));
    let batch: Vec<Header> = hs[0..100].iter().map(|h| h.header.duplicate()).collect();
    assert!(w.on_batch(&g, &batch).is_none());
    let new = w.into_headers();
    assert_eq!(new.len(), 2001);
    assert_eq!(new[0].height, 798_000);
    assert_eq!(new[2000].height, 800_000);
    assert!(new.windows(2).all(|p| p[0].height < p[1].height));
    let mut graph = HeaderGraph::new();
    assert!(graph.insert_headers(&new));
    assert_eq!(graph.node_count(), 2001);
    assert_eq!(graph.root_count(), 1);
}

#[test]
fn single_step_walk_stops_at_known_hash() {
    let hs = chain(&[0u8; 32], 100, 10, 2);
    let g = HeaderGraph::from_headers(&hs[..7].iter().map(|h| h.duplicate()).collect());
    let tips = vec![tip(109, HASH_A, ChainTipStatus::Active, 0)];
    let (mut w, req) = ActiveWalk::start(&tips, core_caps(false), 0).unwrap();
    assert!(matches!(req, Some(FetchRequest::BlockHash { height: 109 })));
    for h in [9usize, 8, 7] {
        let req = w.on_block_hash(&g, hs[h].header.block_hash());
        assert!(matches!(req, Some(FetchRequest::HeaderByHash { height, .. }) if height == 100 + h as u64));
        let next = w.on_header(hs[h].header.duplicate());
        assert!(matches!(next, Some(FetchRequest::BlockHash { height }) if height == 99 + h as u64));
    }
    assert!(w.on_block_hash(&g, hs[6].header.block_hash()).is_none());
    let new = w.into_headers();
    let heights: Vec<u64> = new.iter().map(|h| h.height).collect();
    assert_eq!(heights, vec![107, 108, 109]);
}

#[test]
fn electrum_skips_inactive_branches() {
    let tips = vec![
        tip(800_000, HASH_A, ChainTipStatus::Active, 0),
        tip(799_000, HASH_A, ChainTipStatus::Invalid, 1),
    ];
    let caps = Capabilities { header_fetch_type: HeaderFetchType::Height, batch_header_fetch: true };
    let mut w = InactiveWalk::start(&tips, caps, 0).unwrap();
    assert!(w.branches.is_empty());
    assert!(w.next_request(&HeaderGraph::new()).is_none());
}

#[test]
fn inactive_branch_walk() {
    let base = chain(&[0u8; 32], 100, 5, 3);
    let g = HeaderGraph::from_headers(&base);
    let side = chain(&base[4].header.block_hash().bytes, 105, 2, 4);
    let tip_hash = side[1].header.block_hash().to_hex_string();
    let tips = vec![
        tip(104, &base[4].header.block_hash().to_hex_string(), ChainTipStatus::Active, 0),
        tip(106, &tip_hash, ChainTipStatus::ValidFork, 2),
        tip(50, HASH_A, ChainTipStatus::Invalid, 1),
    ];
    let mut w = InactiveWalk::start(&tips, core_caps(false), 60).unwrap();
    assert_eq!(w.branches.len(), 1);
    match w.next_request(&g) {
        Some(FetchRequest::HeaderByHash { hash, height }) => {
            assert_eq!(height, 106);
            assert!(hash.same(&side[1].header.block_hash()));
        }
        _ => panic!("expected a header request"),
    }
    w.on_header(side[1].header.duplicate());
    assert!(matches!(w.next_request(&g), Some(FetchRequest::HeaderByHash { height: 105, .. })));
    w.on_header(side[0].header.duplicate());
    assert!(w.next_request(&g).is_none());
    assert_eq!(w.new_headers.len(), 2);
    let needing = headers_needing_miners(&vec![], &w.new_headers);
    assert_eq!(needing.len(), 2);
}

#[test]
fn miner_requests_only_for_small_advances() {
    let small = chain(&[0u8; 32], 10, 20, 5);
    let big = chain(&[0u8; 32], 10, 21, 6);
    let side = chain(&[9u8; 32], 12, 1, 7);
    assert_eq!(headers_needing_miners(&small, &side).len(), 21);
    let r = headers_needing_miners(&big, &side);
    assert_eq!(r.len(), 1);
    assert!(r[0].same(&side[0].header.block_hash()));
}

#[test]
fn merged_headers_are_sorted() {
    let active = chain(&[0u8; 32], 10, 5, 8);
    let inactive = vec![chain(&[1u8; 32], 14, 1, 9).remove(0), chain(&[2u8; 32], 11, 1, 10).remove(0)];
    let merged = merge_new_headers(active, inactive);
    let heights: Vec<u64> = merged.iter().map(|h| h.height).collect();
    assert_eq!(heights, vec![10, 11, 11, 12, 13, 14, 14]);
}

#[test]
fn node_tips_filtered_by_lowest_tree_height() {
    let hs = chain(&[0u8; 32], 1000, 3, 11);
    let list = vec![json(&hs[0], 0), json(&hs[1], 1), json(&hs[2], 2)];
    let mut cache = populate_cache(vec![node(1, "a")], list, vec![]);
    let tips = vec![
        tip(1002, HASH_A, ChainTipStatus::Active, 0),
        tip(999, HASH_A, ChainTipStatus::ValidFork, 1),
        tip(1000, HASH_A, ChainTipStatus::Invalid, 1),
    ];
    update_cache(&mut cache, CacheUpdate::NodeTips { node_id: 1, tips }, 1234);
    let t = &cache.node_data[0].tips;
    assert_eq!(t.len(), 2);
    assert_eq!(t[0].height, 1002);
    assert_eq!(t[0].status, "active");
    assert_eq!(t[1].height, 1000);
    assert_eq!(t[1].status, "invalid");
    assert_eq!(cache.node_data[0].last_changed_timestamp, 1234);
}

#[test]
fn recent_miners_bounded_and_distinct() {
    let hs = chain(&[0u8; 32], 10, 8, 12);
    let mut cache = populate_cache(vec![node(1, "a")], vec![], vec![]);
    for h in hs.iter() {
        let mut hi = h.duplicate();
        hi.update_miner("Pool".to_string());
        update_cache(&mut cache, CacheUpdate::HeaderMiner { header_info: hi }, 0);
        assert!(cache.recent_miners.len() <= RECENT_MINERS_CAPACITY);
    }
    assert_eq!(cache.recent_miners.len(), 5);
    assert_eq!(cache.recent_miners[4].0, hs[7].header.block_hash().to_hex_string());
    let mut again = hs[5].duplicate();
    again.update_miner("Other".to_string());
    update_cache(&mut cache, CacheUpdate::HeaderMiner { header_info: again }, 0);
    assert_eq!(cache.recent_miners.len(), 5);
    let hashes: Vec<&String> = cache.recent_miners.iter().map(|m| &m.0).collect();
    for i in 0..hashes.len() {
        for j in i + 1..hashes.len() {
            assert_ne!(hashes[i], hashes[j]);
        }
    }
    assert_eq!(cache.recent_miners[4].1, "Other");
}

#[test]
fn miner_splice_survives_new_tree() {
    let hs = chain(&[0u8; 32], 10, 3, 13);
    let list = vec![json(&hs[0], 0), json(&hs[1], 1), json(&hs[2], 2)];
    let mut cache = populate_cache(vec![node(1, "a")], list, vec![]);
    let mut z = hs[1].duplicate();
    z.update_miner("Foundry".to_string());
    update_cache(&mut cache, CacheUpdate::HeaderMiner { header_info: z }, 0);
    assert_eq!(cache.header_infos_json[1].miner, "Foundry");
    let lacking = vec![json(&hs[0], 0), json(&hs[1], 1), json(&hs[2], 2)];
    update_cache(&mut cache, CacheUpdate::HeaderTree { header_infos_json: lacking, forks: vec![] }, 0);
    assert_eq!(cache.header_infos_json[1].miner, "Foundry");
    assert_eq!(cache.header_infos_json[0].miner, "");
}

#[test]
fn node_goes_down_and_comes_back() {
    let mut cache = populate_cache(vec![node(1, "a"), node(2, "b")], vec![], vec![]);
    assert!(reachability_update(&cache, 1, true).is_none());
    let down = reachability_update(&cache, 1, false).unwrap();
    update_cache(&mut cache, down, 0);
    assert!(!cache.node_data[0].reachable);
    let items = unreachable_nodes(&cache.node_data);
    assert_eq!(items.len(), 1);
    assert_eq!(items[0].title, "Node 'a' is unreachable");
    let up = reachability_update(&cache, 1, true).unwrap();
    update_cache(&mut cache, up, 0);
    assert!(cache.node_data[0].reachable);
    assert!(unreachable_nodes(&cache.node_data).is_empty());
}

#[test]
fn version_update() {
    let mut cache = populate_cache(vec![node(1, "a")], vec![], vec![]);
    assert_eq!(cache.node_data[0].version, "unknown");
    update_cache(&mut cache, CacheUpdate::NodeVersion { node_id: 1, version: "/Satoshi:27.0.0/".to_string() }, 0);
    assert_eq!(cache.node_data[0].version, "/Satoshi:27.0.0/");
}

#[test]
fn lagging_node_feed() {
    let mut cache = populate_cache(vec![node(1, "a"), node(2, "b"), node(3, "c")], vec![], vec![]);
    for (id, h) in [(1u32, 800_000u64), (2, 800_000), (3, 799_995)] {
        let tips = vec![tip(h, HASH_A, ChainTipStatus::Active, 0)];
        update_cache(&mut cache, CacheUpdate::NodeTips { node_id: id, tips }, 0);
    }
    let items = lagging_nodes(&cache.node_data);
    assert_eq!(items.len(), 1);
    assert_eq!(items[0].title, "Node 'c' is lagging behind");
    assert_eq!(items[0].guid, "lagging-node-c-on-799995");
    assert!(items[0].description.starts_with("The node's active tip is on height 799995"));
}

#[test]
fn invalid_block_feed() {
    let mut cache = populate_cache(vec![node(1, "a"), node(2, "b")], vec![], vec![]);
    let tips = vec![tip(800_001, HASH_A, ChainTipStatus::Active, 0), tip(800_000, "X", ChainTipStatus::Invalid, 1)];
    update_cache(&mut cache, CacheUpdate::NodeTips { node_id: 1, tips }, 0);
    let blocks = invalid_blocks(&cache.node_data);
    assert_eq!(blocks.len(), 1);
    let item = blocks[0].to_item();
    assert_eq!(item.guid, "X");
    assert_eq!(item.title, "Invalid block at height 800000");
    assert_eq!(item.description, "Invalid block X at height 800000 seen by node: a (id=1)");
    let tips = vec![tip(800_000, "X", ChainTipStatus::Invalid, 1)];
    update_cache(&mut cache, CacheUpdate::NodeTips { node_id: 2, tips }, 0);
    let blocks = invalid_blocks(&cache.node_data);
    assert_eq!(blocks.len(), 1);
    assert_eq!(blocks[0].to_item().description, "Invalid block X at height 800000 seen by nodes: a (id=1), b (id=2)");
}

#[test]
fn tree_update_after_change() {
    let hs = chain(&[0u8; 32], 100, 5, 14);
    let g = HeaderGraph::from_headers(&hs);
    match tree_update(&g, 10, &vec![104]) {
        CacheUpdate::HeaderTree { header_infos_json, forks } => {
            assert_eq!(header_infos_json.len(), 3);
            assert!(forks.is_empty());
        }
        _ => panic!("expected a tree update"),
    }
}

#[test]
fn miner_identification_rules() {
    assert!(needs_miner_identification(&String::new()));
    assert!(needs_miner_identification(&"Unknown".to_string()));
    assert!(!needs_miner_identification(&"Foundry USA".to_string()));
    assert_eq!(settle_miner(vec![None, Some("Unknown".to_string()), Some("F2Pool".to_string()), Some("ViaBTC".to_string())]), "F2Pool");
    assert_eq!(settle_miner(vec![None, Some("Unknown".to_string())]), "Unknown");
}

#[test]
fn hashes_and_fields() {
    let genesis_hex = "0100000000000000000000000000000000000000000000000000000000000000000000003ba3edfd7a7b12b27ac72c3e67768f617fc81bc3888a51323a9fb8aa4b1e5e4a29ab5f49ffff001d1dac2b7c";
    let bytes = hex_bytes(genesis_hex);
    let h = Header::from_bytes(bytes).unwrap();
    assert_eq!(h.block_hash().to_hex_string(), "000000000019d6689c085ae165831e934ff763ae46a2a6c172b3f1b60a8ce26f");
    assert_eq!(h.version(), 1);
    assert_eq!(h.time(), 1231006505);
    assert_eq!(h.bits(), 0x1d00ffff);
    assert_eq!(h.nonce(), 2083236893);
    assert_eq!(difficulty_int(0x1d00ffff), 1);
    assert_eq!(difficulty_int(0), u64::MAX);
    let hi = HeaderInfo { height: 0, header: h, miner: String::new() };
    let j = HeaderInfoJson::new(&hi, 3, 2);
    assert_eq!(j.merkle_root, "4a5e1e4baab89f3a32518a88c31bc87f618f76673e2cc77ab2127b7afdeda33b");
    assert_eq!(j.prev_blockhash, "0000000000000000000000000000000000000000000000000000000000000000");
    assert_eq!(j.difficulty_int, 1);
    let parsed = BlockHash::from_hex_string("000000000019d6689c085ae165831e934ff763ae46a2a6c172b3f1b60a8ce26f").unwrap();
    assert!(parsed.same(&hi.header.block_hash()));
    assert!(BlockHash::from_hex_string("xyz").is_none());
    assert!(Header::from_bytes(vec![0u8; 79]).is_none());
    assert_eq!(to_decimal(0), "0");
    assert_eq!(to_decimal(1234567), "1234567");
}

fn hex_bytes(s: &str) -> Vec<u8> {
    (0..s.len()).step_by(2).map(|i| u8::from_str_radix(&s[i..i + 2], 16).unwrap()).collect()
}

#[test]
fn store_row_round_trip() {
    let hs = chain(&[0u8; 32], 42, 1, 15);
    let mut hi = hs[0].duplicate();
    hi.update_miner("Foundry".to_string());
    let row = header_row(1, &hi);
    assert_eq!(row.header.len(), 160);
    assert_eq!(row.hash, hi.header.block_hash().to_hex_string());
    let back = header_info_from_row(&row).unwrap();
    assert_eq!(back.height, 42);
    assert_eq!(back.miner, "Foundry");
    assert_eq!(back.header.to_bytes(), hi.header.to_bytes());
    let mut bad = row.clone();
    bad.header = "zz".to_string();
    assert!(header_info_from_row(&bad).is_err());
}

#[test]
fn btcd_responses() {
    let hs = chain(&[0u8; 32], 1, 1, 16);
    let hex: String = hs[0].header.to_bytes().iter().map(|b| format!("{:02x}", b)).collect();
    let ok = Response { jsonrpc: "1.0".to_string(), result: Some(hex), error: None, id: 45324 };
    let h = btcd_blockheader(ok).unwrap();
    assert_eq!(h.to_bytes(), hs[0].header.to_bytes());
    let short = Response { jsonrpc: "1.0".to_string(), result: Some("00".to_string()), error: None, id: 45324 };
    assert!(matches!(btcd_blockheader(short), Err(JsonRPCError::RpcUnexpectedResponseContents(_))));
    let err: Response<String> = Response {
        jsonrpc: "1.0".to_string(),
        result: None,
        error: Some(RpcErrorObject { code: -8, message: "Block height out of range".to_string() }),
        id: 45324,
    };
    match btcd_blockhash(err) {
        Err(JsonRPCError::JsonRpc(m)) => assert!(m.contains("code=-8")),
        _ => panic!("expected a JSON-RPC error"),
    }
    let hash = Response { jsonrpc: "1.0".to_string(), result: Some(HASH_A.to_string()), error: None, id: 1 };
    assert_eq!(btcd_blockhash(hash).unwrap().to_hex_string(), HASH_A);
    let empty: Response<Vec<ChainTip>> = Response { jsonrpc: "1.0".to_string(), result: None, error: None, id: 1 };
    assert!(matches!(btcd_chaintips(empty), Err(JsonRPCError::JsonRpc(_))));
    let tips = Response { jsonrpc: "1.0".to_string(), result: Some(vec![tip(5, HASH_A, ChainTipStatus::Active, 0)]), error: None, id: 1 };
    assert_eq!(btcd_chaintips(tips).unwrap().len(), 1);
}

#[test]
fn tip_json_strings() {
    let t = TipInfoJson::new(&tip(7, HASH_A, ChainTipStatus::HeadersOnly, 0));
    assert_eq!(t.status, "headers-only");
    assert!(matches!(ChainTipStatus::from_status_str("valid-fork"), ChainTipStatus::ValidFork));
    assert!(matches!(ChainTipStatus::from_status_str("weird"), ChainTipStatus::Unknown));
}

#[test]
fn text_and_byte_parsing() {
    use_parsers();
}

fn use_parsers() {
    assert_eq!(forkobserver::text::parse_u64("800000"), Some(800_000));
    assert_eq!(forkobserver::text::parse_u64("18446744073709551615"), Some(u64::MAX));
    assert_eq!(forkobserver::text::parse_u64("18446744073709551616"), None);
    assert_eq!(forkobserver::text::parse_u64(""), None);
    assert_eq!(forkobserver::text::parse_u64("12a"), None);
    let hs = chain(&[0u8; 32], 5, 3, 20);
    let mut bytes = Vec::new();
    for h in hs.iter() {
        bytes.extend(h.header.to_bytes());
    }
    let parsed = forkobserver::primitives::headers_from_bytes(&bytes).unwrap();
    assert_eq!(parsed.len(), 3);
    assert_eq!(parsed[2].to_bytes(), hs[2].header.to_bytes());
    bytes.push(0);
    assert!(forkobserver::primitives::headers_from_bytes(&bytes).is_none());
    let hex: String = hs[0].header.to_bytes().iter().map(|b| format!("{:02X}", b)).collect();
    let h = forkobserver::primitives::header_from_hex(&hex).unwrap();
    assert_eq!(h.to_bytes(), hs[0].header.to_bytes());
    assert!(forkobserver::primitives::header_from_hex("00").is_none());
    assert_eq!(forkobserver::primitives::capped_difficulty(u128::MAX), u64::MAX);
    assert_eq!(forkobserver::primitives::capped_difficulty(7), 7);
    assert!(forkobserver::config::Backend::from_lowercase_name("bitcoin core").is_ok());
    assert!(forkobserver::config::Backend::from_lowercase_name("Bitcoin Core").is_err());
}

#[test]
fn poller_acts_only_on_changed_tips() {
    use_poller();
}

fn use_poller() {
    let mut cache = populate_cache(vec![node(1, "a")], vec![], vec![]);
    let mut poller = forkobserver::worker::Poller::new(1);
    let tips = vec![tip(10, HASH_A, ChainTipStatus::Active, 0)];
    let (update, walk) = poller.on_tips(&cache, Ok(tips.iter().map(|t| t.duplicate()).collect()));
    assert!(update.is_none());
    assert_eq!(walk.unwrap().len(), 1);
    poller.on_headers_fetched(&tips);
    let (_, walk) = poller.on_tips(&cache, Ok(tips.iter().map(|t| t.duplicate()).collect()));
    assert!(walk.is_none());
    let (update, walk) = poller.on_tips(&cache, Err(FetchError::MinReq("connection refused".to_string())));
    assert!(walk.is_none());
    let update = update.unwrap();
    assert!(matches!(update, CacheUpdate::NodeReachability { node_id: 1, reachable: false }));
    update_cache(&mut cache, update, 0);
    let (update, _) = poller.on_tips(&cache, Ok(vec![tip(11, HASH_A, ChainTipStatus::Active, 0)]));
    assert!(matches!(update, Some(CacheUpdate::NodeReachability { node_id: 1, reachable: true })));
}

#[test]
fn invalid_feed_empty_without_invalid_tips() {
    let mut cache = populate_cache(vec![node(1, "electrum")], vec![], vec![]);
    let tips = vec![tip(800_001, HASH_A, ChainTipStatus::Active, 0)];
    update_cache(&mut cache, CacheUpdate::NodeTips { node_id: 1, tips }, 0);
    assert!(invalid_blocks(&cache.node_data).is_empty());
}

#[test]
fn difficulty_of_small_exponents() {
    // exponent 3: the target is the mantissa itself, far below the maximum
    assert_eq!(difficulty_int(0x0300_ffff), u64::MAX);
    // exponent 0 and a negative mantissa give the zero target
    assert_eq!(difficulty_int(0x0000_ffff), u64::MAX);
    assert_eq!(difficulty_int(0x1d80_0000), u64::MAX);
    // a target shifted beyond 256 bits
    assert_eq!(difficulty_int(0x2100_0001), 0);
    // half the maximum target: difficulty 2
    assert_eq!(difficulty_int(0x1c7f_ff80), 2);
}

#[test]
fn inactive_walk_fails_only_on_a_bad_selected_hash() {
    let caps = core_caps(false);
    let low = vec![tip(100, HASH_A, ChainTipStatus::Active, 0), tip(90, "not a hash", ChainTipStatus::ValidFork, 1)];
    let w = InactiveWalk::start(&low, caps, 500).unwrap();
    assert!(w.branches.is_empty());
    let bad = vec![tip(1000, "not a hash", ChainTipStatus::ValidFork, 1)];
    assert!(matches!(InactiveWalk::start(&bad, caps, 500), Err(FetchError::DataError(_))));
}

#[test]
fn lagging_at_exactly_three_blocks() {
    let mut cache = populate_cache(vec![node(1, "a"), node(2, "b")], vec![], vec![]);
    for (id, h) in [(1u32, 100u64), (2, 97)] {
        let tips = vec![tip(h, HASH_A, ChainTipStatus::Active, 0)];
        update_cache(&mut cache, CacheUpdate::NodeTips { node_id: id, tips }, 0);
    }
    let items = lagging_nodes(&cache.node_data);
    assert_eq!(items.len(), 1);
    assert_eq!(items[0].guid, "lagging-node-b-on-97");
}

#[test]
fn invalid_block_nodes_listed_by_id() {
    let mut cache = populate_cache(vec![node(7, "late"), node(2, "early")], vec![], vec![]);
    for id in [7u32, 2] {
        let tips = vec![tip(500, "X", ChainTipStatus::Invalid, 1)];
        update_cache(&mut cache, CacheUpdate::NodeTips { node_id: id, tips }, 0);
    }
    let blocks = invalid_blocks(&cache.node_data);
    assert_eq!(blocks[0].to_item().description, "Invalid block X at height 500 seen by nodes: early (id=2), late (id=7)");
}

#[test]
fn nodes_sorted_by_id() {
    let sorted = forkobserver::cache::sort_nodes_by_id(vec![node(9, "c"), node(1, "a"), node(4, "b")]);
    let ids: Vec<u32> = sorted.iter().map(|n| n.id).collect();
    assert_eq!(ids, vec![1, 4, 9]);
}
