//! The values that the graph, the cache and the HTTP handlers exchange.
use vstd::prelude::*;
use vstd::string::*;

use crate::primitives::{
    difficulty_int, difficulty_int_of, hash_string_of, le_u32_at, merkle_root_of, prev_hash_of,
    block_hash_of, BlockHash, Header, hex_of,
};

verus! {

/// The miner of a header whose identification failed.
pub open spec fn miner_unknown_spec() -> Seq<char> {
    seq!['U', 'n', 'k', 'n', 'o', 'w', 'n']
}

/// The miner of a header whose identification failed: `Unknown`.
pub fn miner_unknown() -> (r: String)
    ensures
        r@ == miner_unknown_spec(),
{
    let r = String::from_str("Unknown");
    proof {
        reveal_strlit("Unknown");
    }
    r
}

/// The version of a node before it is known.
pub open spec fn version_unknown_spec() -> Seq<char> {
    seq!['u', 'n', 'k', 'n', 'o', 'w', 'n']
}

/// The version of a node before it is known: `unknown`.
pub fn version_unknown() -> (r: String)
    ensures
        r@ == version_unknown_spec(),
{
    let r = String::from_str("unknown");
    proof {
        reveal_strlit("unknown");
    }
    r
}

/// A header as the graph keeps it: its height, its bytes and who mined it
/// (empty before identification, `Unknown` after a failed one).
#[derive(Debug)]
pub struct HeaderInfo {
    pub height: u64,
    pub header: Header,
    pub miner: String,
}

impl HeaderInfo {
    /// A copy of this header info.
    pub fn duplicate(&self) -> (r: HeaderInfo)
        ensures
            r.height == self.height,
            r.header@ == self.header@,
            r.miner@ == self.miner@,
    {
        HeaderInfo { height: self.height, header: self.header.duplicate(), miner: self.miner.clone() }
    }

    /// Sets the miner.
    pub fn update_miner(&mut self, miner: String)
        ensures
            final(self).height == old(self).height,
            final(self).header@ == old(self).header@,
            final(self).miner@ == miner@,
    {
        self.miner = miner;
    }
}

/// A header as the web client sees it, with an id in the reduced tree and the
/// id of its predecessor there (`usize::MAX` for none).
#[derive(Debug, Clone)]
pub struct HeaderInfoJson {
    pub id: usize,
    pub prev_id: usize,
    pub height: u64,
    pub hash: String,
    pub version: u32,
    pub prev_blockhash: String,
    pub merkle_root: String,
    pub time: u32,
    pub bits: u32,
    pub difficulty_int: u64,
    pub nonce: u32,
    pub miner: String,
}

/// Whether `j` is the client form of `hi` with the given ids.
pub open spec fn is_json_of(j: HeaderInfoJson, hi: HeaderInfo, id: usize, prev_id: usize) -> bool {
    let b = hi.header@;
    &&& j.id == id
    &&& j.prev_id == prev_id
    &&& j.height == hi.height
    &&& j.hash@ == hash_string_of(block_hash_of(b))
    &&& j.version == le_u32_at(b, 0)
    &&& j.prev_blockhash@ == hash_string_of(prev_hash_of(b))
    &&& j.merkle_root@ == hex_of(merkle_root_of(b).reverse())
    &&& j.time == le_u32_at(b, 68)
    &&& j.bits == le_u32_at(b, 72)
    &&& j.difficulty_int == difficulty_int_of(le_u32_at(b, 72))
    &&& j.nonce == le_u32_at(b, 76)
    &&& j.miner@ == hi.miner@
}

impl HeaderInfoJson {
    /// The client form of a header, with its id and its predecessor's.
    pub fn new(hi: &HeaderInfo, id: usize, prev_id: usize) -> (r: HeaderInfoJson)
        ensures
            is_json_of(r, *hi, id, prev_id),
    {
        let bits = hi.header.bits();
        let merkle = BlockHash { bytes: hi.header.merkle_root() };
        HeaderInfoJson {
            id,
            prev_id,
            height: hi.height,
            hash: hi.header.block_hash().to_hex_string(),
            version: hi.header.version(),
            prev_blockhash: hi.header.prev_blockhash().to_hex_string(),
            merkle_root: merkle.to_hex_string(),
            time: hi.header.time(),
            bits,
            difficulty_int: difficulty_int(bits),
            nonce: hi.header.nonce(),
            miner: hi.miner.clone(),
        }
    }

    /// A copy with another miner.
    pub fn with_miner(&self, miner: String) -> (r: HeaderInfoJson)
        ensures
            r == (HeaderInfoJson { miner, ..*self }),
    {
        HeaderInfoJson {
            id: self.id,
            prev_id: self.prev_id,
            height: self.height,
            hash: self.hash.clone(),
            version: self.version,
            prev_blockhash: self.prev_blockhash.clone(),
            merkle_root: self.merkle_root.clone(),
            time: self.time,
            bits: self.bits,
            difficulty_int: self.difficulty_int,
            nonce: self.nonce,
            miner,
        }
    }

    /// Sets the miner.
    pub fn update_miner(&mut self, miner: String)
        ensures
            *final(self) == (HeaderInfoJson { miner, ..*old(self) }),
    {
        self.miner = miner;
    }
}


/// Whether two strings hold the same characters.
pub fn str_equal(a: &str, b: &str) -> (r: bool)
    ensures
        r == (a@ == b@),
{
    String::from_str(a) == String::from_str(b)
}

/// The state of a chain tip as a node reports it.
#[derive(Debug, Clone, Copy, PartialEq, Eq, Structural)]
pub enum ChainTipStatus {
    Active,
    Invalid,
    ValidFork,
    HeadersOnly,
    ValidHeaders,
    Unknown,
}

/// How a tip status is written.
pub open spec fn status_str(s: ChainTipStatus) -> Seq<char> {
    match s {
        ChainTipStatus::Active => seq!['a', 'c', 't', 'i', 'v', 'e'],
        ChainTipStatus::Invalid => seq!['i', 'n', 'v', 'a', 'l', 'i', 'd'],
        ChainTipStatus::ValidFork => seq!['v', 'a', 'l', 'i', 'd', '-', 'f', 'o', 'r', 'k'],
        ChainTipStatus::HeadersOnly => seq![
            'h', 'e', 'a', 'd', 'e', 'r', 's', '-', 'o', 'n', 'l', 'y'
        ],
        ChainTipStatus::ValidHeaders => seq![
            'v', 'a', 'l', 'i', 'd', '-', 'h', 'e', 'a', 'd', 'e', 'r', 's'
        ],
        ChainTipStatus::Unknown => seq!['u', 'n', 'k', 'n', 'o', 'w', 'n'],
    }
}

/// The status that a written status stands for; any other text is `Unknown`.
pub open spec fn parse_status(s: Seq<char>) -> ChainTipStatus {
    if s == status_str(ChainTipStatus::Active) {
        ChainTipStatus::Active
    } else if s == status_str(ChainTipStatus::Invalid) {
        ChainTipStatus::Invalid
    } else if s == status_str(ChainTipStatus::HeadersOnly) {
        ChainTipStatus::HeadersOnly
    } else if s == status_str(ChainTipStatus::ValidHeaders) {
        ChainTipStatus::ValidHeaders
    } else if s == status_str(ChainTipStatus::ValidFork) {
        ChainTipStatus::ValidFork
    } else {
        ChainTipStatus::Unknown
    }
}

impl ChainTipStatus {
    /// The status as it is written (`active`, `valid-fork`, ...).
    pub fn to_status_string(&self) -> (r: String)
        ensures
            r@ == status_str(*self),
    {
        let r = match self {
            ChainTipStatus::Active => String::from_str("active"),
            ChainTipStatus::Invalid => String::from_str("invalid"),
            ChainTipStatus::ValidFork => String::from_str("valid-fork"),
            ChainTipStatus::HeadersOnly => String::from_str("headers-only"),
            ChainTipStatus::ValidHeaders => String::from_str("valid-headers"),
            ChainTipStatus::Unknown => String::from_str("unknown"),
        };
        proof {
            reveal_strlit("active");
            reveal_strlit("invalid");
            reveal_strlit("valid-fork");
            reveal_strlit("headers-only");
            reveal_strlit("valid-headers");
            reveal_strlit("unknown");
        }
        r
    }

    /// The status a written status stands for.
    pub fn from_status_str(s: &str) -> (r: ChainTipStatus)
        ensures
            r == parse_status(s@),
    {
        proof {
            reveal_strlit("active");
            reveal_strlit("invalid");
            reveal_strlit("valid-fork");
            reveal_strlit("headers-only");
            reveal_strlit("valid-headers");
            assert("active"@ =~= status_str(ChainTipStatus::Active));
            assert("invalid"@ =~= status_str(ChainTipStatus::Invalid));
            assert("valid-fork"@ =~= status_str(ChainTipStatus::ValidFork));
            assert("headers-only"@ =~= status_str(ChainTipStatus::HeadersOnly));
            assert("valid-headers"@ =~= status_str(ChainTipStatus::ValidHeaders));
        }
        if str_equal(s, "active") {
            ChainTipStatus::Active
        } else if str_equal(s, "invalid") {
            ChainTipStatus::Invalid
        } else if str_equal(s, "headers-only") {
            ChainTipStatus::HeadersOnly
        } else if str_equal(s, "valid-headers") {
            ChainTipStatus::ValidHeaders
        } else if str_equal(s, "valid-fork") {
            ChainTipStatus::ValidFork
        } else {
            ChainTipStatus::Unknown
        }
    }
}

/// One chain tip of one node at one instant.
#[derive(Debug, Clone)]
pub struct ChainTip {
    pub height: u64,
    pub hash: String,
    pub branchlen: usize,
    pub status: ChainTipStatus,
}

/// Whether two tips hold the same values.
pub open spec fn same_tip(a: ChainTip, b: ChainTip) -> bool {
    a.height == b.height && a.hash@ == b.hash@ && a.branchlen == b.branchlen && a.status == b.status
}

/// Whether two tip lists hold the same tips in the same order.
pub open spec fn same_tips(a: Seq<ChainTip>, b: Seq<ChainTip>) -> bool {
    a.len() == b.len() && forall|i: int| 0 <= i < a.len() ==> same_tip(#[trigger] a[i], b[i])
}

impl ChainTip {
    /// A copy of this tip.
    pub fn duplicate(&self) -> (r: ChainTip)
        ensures
            same_tip(r, *self),
    {
        ChainTip { height: self.height, hash: self.hash.clone(), branchlen: self.branchlen, status: self.status }
    }

    /// The hash of the tip, if it is written as 64 hex digits.
    pub fn block_hash(&self) -> (r: Option<BlockHash>)
        ensures
            r is Some <==> (crate::primitives::is_hex_string(self.hash@) && self.hash@.len() == 64),
            r is Some ==> r->Some_0@ == crate::primitives::unhex(self.hash@).reverse(),
    {
        BlockHash::from_hex_string(self.hash.as_str())
    }
}

/// Whether two tip lists hold the same tips in the same order.
pub fn tips_equal(a: &Vec<ChainTip>, b: &Vec<ChainTip>) -> (r: bool)
    ensures
        r == same_tips(a@, b@),
{
    if a.len() != b.len() {
        return false;
    }
    let mut i: usize = 0;
    while i < a.len()
        invariant
            a@.len() == b@.len(),
            i <= a@.len(),
            forall|k: int| 0 <= k < i ==> same_tip(#[trigger] a@[k], b@[k]),
        decreases a@.len() - i,
    {
        let x = &a[i];
        let y = &b[i];
        if !(x.height == y.height && x.hash == y.hash && x.branchlen == y.branchlen
            && x.status == y.status) {
            return false;
        }
        i = i + 1;
    }
    true
}

/// A tip as the web client sees it.
#[derive(Debug, Clone)]
pub struct TipInfoJson {
    pub hash: String,
    pub status: String,
    pub height: u64,
}

/// Whether `j` is the client form of tip `t`.
pub open spec fn is_tip_json_of(j: TipInfoJson, t: ChainTip) -> bool {
    j.hash@ == t.hash@ && j.status@ == status_str(t.status) && j.height == t.height
}

/// Whether `js` is the client form of the tips `ts`, one for one.
pub open spec fn are_tips_json_of(js: Seq<TipInfoJson>, ts: Seq<ChainTip>) -> bool {
    js.len() == ts.len() && forall|i: int| 0 <= i < js.len() ==> is_tip_json_of(#[trigger] js[i], ts[i])
}

impl TipInfoJson {
    /// The client form of a tip.
    pub fn new(tip: &ChainTip) -> (r: TipInfoJson)
        ensures
            is_tip_json_of(r, *tip),
    {
        TipInfoJson { hash: tip.hash.clone(), status: tip.status.to_status_string(), height: tip.height }
    }

    /// A copy of this tip.
    pub fn duplicate(&self) -> (r: TipInfoJson)
        ensures
            r.hash@ == self.hash@ && r.status@ == self.status@ && r.height == self.height,
    {
        TipInfoJson { hash: self.hash.clone(), status: self.status.clone(), height: self.height }
    }
}

/// The client form of each tip.
pub fn tips_to_json(tips: &[ChainTip]) -> (r: Vec<TipInfoJson>)
    ensures
        are_tips_json_of(r@, tips@),
{
    let mut r: Vec<TipInfoJson> = Vec::new();
    let mut i: usize = 0;
    while i < tips.len()
        invariant
            i <= tips@.len(),
            are_tips_json_of(r@, tips@.subrange(0, i as int)),
        decreases tips@.len() - i,
    {
        r.push(TipInfoJson::new(&tips[i]));
        i = i + 1;
    }
    assert(tips@.subrange(0, tips@.len() as int) =~= tips@);
    r
}

/// Who a node is.
#[derive(Debug, Clone)]
pub struct NodeInfo {
    pub id: u32,
    pub name: String,
    pub description: String,
    pub implementation: String,
}

/// What the web client sees of one node.
#[derive(Debug, Clone)]
pub struct NodeDataJson {
    pub id: u32,
    pub name: String,
    pub description: String,
    pub implementation: String,
    pub tips: Vec<TipInfoJson>,
    /// Seconds since the UNIX epoch when the tips last changed.
    pub last_changed_timestamp: u64,
    /// The node's version as it advertises it.
    pub version: String,
    /// Whether the last request for tips reached the node.
    pub reachable: bool,
}

impl NodeDataJson {
    pub fn new(
        info: NodeInfo,
        tips: &Vec<ChainTip>,
        version: String,
        last_changed_timestamp: u64,
        reachable: bool,
    ) -> (r: NodeDataJson)
        ensures
            r.id == info.id,
            r.name == info.name,
            r.description == info.description,
            r.implementation == info.implementation,
            are_tips_json_of(r.tips@, tips@),
            r.last_changed_timestamp == last_changed_timestamp,
            r.version == version,
            r.reachable == reachable,
    {
        NodeDataJson {
            id: info.id,
            name: info.name,
            description: info.description,
            implementation: info.implementation,
            tips: tips_to_json(tips.as_slice()),
            last_changed_timestamp,
            version,
            reachable,
        }
    }

    /// Sets whether the node is reachable.
    pub fn reachable(&mut self, r: bool)
        ensures
            *final(self) == (NodeDataJson { reachable: r, ..*old(self) }),
    {
        self.reachable = r;
    }

    /// Sets the version.
    pub fn version(&mut self, v: String)
        ensures
            *final(self) == (NodeDataJson { version: v, ..*old(self) }),
    {
        self.version = v;
    }

    /// Replaces the tips, stamped with the time `now` (seconds since the
    /// UNIX epoch).
    pub fn tips(&mut self, tips: &[ChainTip], now: u64)
        ensures
            are_tips_json_of(final(self).tips@, tips@),
            *final(self) == (NodeDataJson {
                tips: final(self).tips,
                last_changed_timestamp: now,
                ..*old(self)
            }),
    {
        self.tips = tips_to_json(tips);
        self.last_changed_timestamp = now;
    }
}

/// A network as the web client lists it.
#[derive(Debug, Clone)]
pub struct NetworkJson {
    pub id: u32,
    pub name: String,
    pub description: String,
}

/// The list of networks.
#[derive(Debug, Clone)]
pub struct NetworksJsonResponse {
    pub networks: Vec<NetworkJson>,
}

/// The footer text.
#[derive(Debug, Clone)]
pub struct InfoJsonResponse {
    pub footer: String,
}

/// The reduced tree and the nodes of a network.
#[derive(Debug, Clone)]
pub struct DataJsonResponse {
    pub header_infos: Vec<HeaderInfoJson>,
    pub nodes: Vec<NodeDataJson>,
}

/// The event that a network's cache changed.
#[derive(Debug, Clone, Copy)]
pub struct DataChanged {
    pub network_id: u32,
}

/// A header with more than one child, and its children.
#[derive(Debug)]
pub struct Fork {
    pub common: HeaderInfo,
    pub children: Vec<HeaderInfo>,
}

} // verus!
