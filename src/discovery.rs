//! Differential header discovery: which headers a node knows that the graph
//! does not. The walks are state machines: each step names the request to
//! make of the node, and the caller hands back the answer.
use vstd::prelude::*;

use crate::error::FetchError;
use crate::graph::HeaderGraph;
use crate::primitives::{block_hash_of, BlockHash, Header};
use crate::types::{ChainTip, ChainTipStatus, HeaderInfo};

verus! {

/// How many headers one batch request asks for.
pub const STEP_SIZE: u64 = 2000;

/// Up to how many new active-chain headers get their miner identified.
pub const MAX_MINER_REQUESTS: usize = 20;

/// Whether a backend fetches headers by height (active chain only) or by
/// hash.
#[derive(Debug, Clone, Copy, PartialEq, Eq, Structural)]
pub enum HeaderFetchType {
    Height,
    Hash,
}

/// What a backend can do.
#[derive(Debug, Clone, Copy, PartialEq, Eq, Structural)]
pub struct Capabilities {
    /// Whether headers are fetched by hash, or only by height.
    pub header_fetch_type: HeaderFetchType,
    /// Whether consecutive active-chain headers can be fetched in one request.
    pub batch_header_fetch: bool,
}

/// A request to make of a node.
#[derive(Debug)]
pub enum FetchRequest {
    /// The hash of the active-chain block at `height`.
    BlockHash { height: u64 },
    /// The header with hash `hash`, which stands at `height`.
    HeaderByHash { hash: BlockHash, height: u64 },
    /// The active-chain header at `height`.
    HeaderByHeight { height: u64 },
    /// Up to `count` consecutive active-chain headers from `start_hash`,
    /// which stands at `start_height`.
    Batch { start_hash: BlockHash, start_height: u64, count: u64 },
}

/// Whether tip `i` is the last active one.
pub open spec fn is_last_active(tips: Seq<ChainTip>, i: int) -> bool {
    &&& 0 <= i < tips.len()
    &&& tips[i].status == ChainTipStatus::Active
    &&& forall|j: int| i < j < tips.len() ==> (#[trigger] tips[j]).status != ChainTipStatus::Active
}

/// Whether some tip is active.
pub open spec fn has_active(tips: Seq<ChainTip>) -> bool {
    exists|i: int| 0 <= i < tips.len() && (#[trigger] tips[i]).status == ChainTipStatus::Active
}

/// The lower end of the chunk whose top is `q`.
pub open spec fn chunk_start(q: u64, min: u64) -> u64 {
    if q as int - (STEP_SIZE - 1) > min as int {
        (q - (STEP_SIZE - 1)) as u64
    } else {
        min
    }
}

/// The positions of the headers among the first `cnt` whose hash the graph
/// does not hold, in order.
pub open spec fn fresh_positions(g: &HeaderGraph, hs: Seq<Header>, cnt: int) -> Seq<int>
    decreases cnt,
{
    if cnt <= 0 {
        Seq::empty()
    } else if g.has_hash(block_hash_of(hs[cnt - 1]@)) {
        fresh_positions(g, hs, cnt - 1)
    } else {
        fresh_positions(g, hs, cnt - 1).push(cnt - 1)
    }
}

/// The lower end of the chunk whose top is `q`.
fn lower_chunk_end(q: u64, min: u64) -> (r: u64)
    ensures
        r == chunk_start(q, min),
{
    if q >= STEP_SIZE - 1 && q - (STEP_SIZE - 1) > min {
        q - (STEP_SIZE - 1)
    } else {
        min
    }
}

/// The walk down the active chain, from the active tip towards
/// `min_fork_height`, that stops at the first header the graph holds.
pub struct ActiveWalk {
    /// Whether the node fetches batches.
    pub batch: bool,
    /// Whether the node fetches headers only by height.
    pub by_height: bool,
    pub min_fork_height: u64,
    pub tip_height: u64,
    /// The highest height not walked yet.
    pub query_height: u64,
    /// In batch mode, the lower end of the current chunk.
    pub start_height: u64,
    /// The new headers found so far, by ascending height.
    pub new_headers: Vec<HeaderInfo>,
    pub done: bool,
}

impl ActiveWalk {
    /// The walk is consistent: the new headers are strictly ascending, above
    /// the height still to walk, and at most the tip height; while it goes
    /// on, the height to walk is at least `min_fork_height`, and in batch
    /// mode the chunk starts where `chunk_start` says.
    pub open spec fn wf(&self) -> bool {
        &&& forall|a: int, b: int|
            0 <= a < b < self.new_headers@.len() ==> self.new_headers@[a].height
                < self.new_headers@[b].height
        &&& forall|k: int|
            0 <= k < self.new_headers@.len() ==> (!self.done ==> self.query_height < (
            #[trigger] self.new_headers@[k]).height) && self.new_headers@[k].height <= self.tip_height
                && self.new_headers@[k].height >= self.min_fork_height
        &&& !self.done ==> self.min_fork_height <= self.query_height <= self.tip_height
        &&& !self.done && self.batch ==> self.start_height == chunk_start(
            self.query_height,
            self.min_fork_height,
        )
    }

    /// The first request of the walk: the hash at the top of the first chunk
    /// (batch mode) or at the active tip. Nothing is requested when the
    /// active tip is below `min_fork_height`; a report without an active tip
    /// is a data error.
    pub fn start(tips: &Vec<ChainTip>, caps: Capabilities, min_fork_height: u64) -> (r: Result<
        (ActiveWalk, Option<FetchRequest>),
        FetchError,
    >)
        ensures
            r is Err <==> !has_active(tips@),
            r is Err ==> r->Err_0 is DataError,
            r is Ok ==> {
                let (w, req) = r->Ok_0;
                &&& w.wf()
                &&& w.new_headers@.len() == 0
                &&& w.batch == caps.batch_header_fetch
                &&& w.by_height == (caps.header_fetch_type == HeaderFetchType::Height)
                &&& w.min_fork_height == min_fork_height
                &&& exists|i: int| is_last_active(tips@, i) && w.tip_height == tips@[i].height
                &&& w.done <==> w.tip_height < min_fork_height
                &&& w.done ==> req is None
                &&& !w.done ==> w.query_height == w.tip_height && req == Some(FetchRequest::BlockHash {
                    height: if w.batch { w.start_height } else { w.query_height },
                })
            },
    {
        let mut i: usize = tips.len();
        while i > 0 && tips[i - 1].status != ChainTipStatus::Active
            invariant
                i <= tips@.len(),
                forall|j: int| i <= j < tips@.len() ==> (#[trigger] tips@[j]).status != ChainTipStatus::Active,
            decreases i,
        {
            i = i - 1;
        }
        if i == 0 {
            return Err(FetchError::DataError(String::from_str("No 'active' chain tip returned")));
        }
        let tip_height = tips[i - 1].height;
        let batch = caps.batch_header_fetch;
        let by_height = match caps.header_fetch_type {
            HeaderFetchType::Height => true,
            HeaderFetchType::Hash => false,
        };
        let start_height = lower_chunk_end(tip_height, min_fork_height);
        let done = tip_height < min_fork_height;
        let w = ActiveWalk {
            batch,
            by_height,
            min_fork_height,
            tip_height,
            query_height: tip_height,
            start_height,
            new_headers: Vec::new(),
            done,
        };
        let req = if done {
            None
        } else {
            Some(FetchRequest::BlockHash { height: if batch { start_height } else { tip_height } })
        };
        assert(is_last_active(tips@, i - 1));
        Ok((w, req))
    }

    /// The walk with the answer to `BlockHash` for the height it asked:
    /// in batch mode the chunk is requested; otherwise the walk stops if the
    /// graph holds the hash, and else asks for the header.
    pub fn on_block_hash(&mut self, g: &HeaderGraph, hash: BlockHash) -> (r: Option<FetchRequest>)
        requires
            g.wf(),
            old(self).wf(),
            !old(self).done,
        ensures
            final(self).wf(),
            old(self).batch ==> *final(self) == *old(self) && r == Some(FetchRequest::Batch {
                start_hash: hash,
                start_height: old(self).start_height,
                count: (old(self).query_height - old(self).start_height + 1) as u64,
            }),
            !old(self).batch && g.has_hash(hash@) ==> *final(self) == (ActiveWalk { done: true, ..*old(self) }) && r is None,
            !old(self).batch && !g.has_hash(hash@) ==> *final(self) == *old(self) && r == Some(
                if old(self).by_height {
                    FetchRequest::HeaderByHeight { height: old(self).query_height }
                } else {
                    FetchRequest::HeaderByHash { hash, height: old(self).query_height }
                },
            ),
    {
        if self.batch {
            let count = self.query_height - self.start_height + 1;
            return Some(FetchRequest::Batch { start_hash: hash, start_height: self.start_height, count });
        }
        if g.contains(&hash) {
            self.done = true;
            return None;
        }
        if self.by_height {
            Some(FetchRequest::HeaderByHeight { height: self.query_height })
        } else {
            Some(FetchRequest::HeaderByHash { hash, height: self.query_height })
        }
    }

    /// The walk with the header it asked for (one at a time): the header is
    /// new; the walk goes one block down, or stops below `min_fork_height`.
    pub fn on_header(&mut self, header: Header) -> (r: Option<FetchRequest>)
        requires
            old(self).wf(),
            !old(self).done,
            !old(self).batch,
        ensures
            final(self).wf(),
            final(self).new_headers@.len() == old(self).new_headers@.len() + 1,
            final(self).new_headers@[0].height == old(self).query_height,
            final(self).new_headers@[0].header@ == header@,
            final(self).new_headers@[0].miner@.len() == 0,
            final(self).new_headers@.subrange(1, final(self).new_headers@.len() as int) == old(self).new_headers@,
            final(self).done <==> (old(self).query_height == 0 || old(self).query_height - 1 < old(self).min_fork_height),
            final(self).done ==> r is None,
            !final(self).done ==> final(self).query_height == old(self).query_height - 1
                && r == Some(FetchRequest::BlockHash { height: final(self).query_height }),
            final(self).batch == old(self).batch,
            final(self).by_height == old(self).by_height,
            final(self).min_fork_height == old(self).min_fork_height,
            final(self).tip_height == old(self).tip_height,
    {
        let q = self.query_height;
        let mut front: Vec<HeaderInfo> = Vec::new();
        front.push(HeaderInfo { height: q, header, miner: String::new() });
        let ghost old_h = self.new_headers@;
        front.append(&mut self.new_headers);
        self.new_headers = front;
        assert(self.new_headers@.subrange(1, self.new_headers@.len() as int) =~= old_h);
        assert forall|k: int| 1 <= k < self.new_headers@.len() implies #[trigger] self.new_headers@[k] == old_h[k - 1] by {}
        assert forall|a: int, b: int| 0 <= a < b < self.new_headers@.len() implies self.new_headers@[a].height
                < self.new_headers@[b].height by {
            assert(self.new_headers@[b] == old_h[b - 1]);
            if a > 0 {
                assert(self.new_headers@[a] == old_h[a - 1]);
            }
        }
        if q == 0 || q - 1 < self.min_fork_height {
            self.done = true;
            None
        } else {
            self.query_height = q - 1;
            Some(FetchRequest::BlockHash { height: q - 1 })
        }
    }

    /// The walk with the batch it asked for: of the first `count` headers
    /// (heights from the chunk's start), those whose hash the graph does not
    /// hold are new. The walk stops when the graph held one, or at
    /// `min_fork_height`; else it asks for the hash at the next chunk's start.
    pub fn on_batch(&mut self, g: &HeaderGraph, headers: &Vec<Header>) -> (r: Option<FetchRequest>)
        requires
            g.wf(),
            old(self).wf(),
            !old(self).done,
            old(self).batch,
        ensures
            final(self).wf(),
            ({
                let s = old(self).start_height as int;
                let q = old(self).query_height as int;
                let cnt = if headers@.len() < q - s + 1 { headers@.len() as int } else { q - s + 1 };
                let fresh = fresh_positions(g, headers@, cnt);
                let knew = fresh.len() < cnt;
                &&& final(self).new_headers@.len() == fresh.len() + old(self).new_headers@.len()
                &&& forall|k: int| 0 <= k < fresh.len() ==> {
                    &&& (#[trigger] final(self).new_headers@[k]).height == s + fresh[k]
                    &&& final(self).new_headers@[k].header@ == headers@[fresh[k]]@
                    &&& final(self).new_headers@[k].miner@.len() == 0
                }
                &&& final(self).new_headers@.subrange(fresh.len() as int, final(self).new_headers@.len() as int) == old(self).new_headers@
                &&& final(self).done <==> (knew || s <= old(self).min_fork_height)
                &&& final(self).done ==> r is None
                &&& !final(self).done ==> final(self).query_height == s - 1 && r == Some(
                    FetchRequest::BlockHash { height: final(self).start_height },
                )
            }),
            final(self).batch == old(self).batch,
            final(self).by_height == old(self).by_height,
            final(self).min_fork_height == old(self).min_fork_height,
            final(self).tip_height == old(self).tip_height,
    {
        let s = self.start_height;
        let q = self.query_height;
        let span = q - s + 1;
        let cnt: usize = if (headers.len() as u64) < span { headers.len() } else { span as usize };
        let mut fresh: Vec<HeaderInfo> = Vec::new();
        let mut knew = false;
        let mut i: usize = 0;
        while i < cnt
            invariant
                g.wf(),
                i <= cnt <= headers@.len(),
                cnt <= span == q - s + 1,
                s <= q,
                fresh@.len() == fresh_positions(g, headers@, i as int).len(),
                forall|k: int| 0 <= k < fresh@.len() ==> {
                    &&& (#[trigger] fresh@[k]).height == s + fresh_positions(g, headers@, i as int)[k]
                    &&& fresh@[k].header@ == headers@[fresh_positions(g, headers@, i as int)[k]]@
                    &&& fresh@[k].miner@.len() == 0
                },
                forall|k: int| 0 <= k < fresh_positions(g, headers@, i as int).len() ==> 0 <= #[trigger] fresh_positions(g, headers@, i as int)[k] < i,
                forall|a: int, b: int| 0 <= a < b < fresh_positions(g, headers@, i as int).len() ==> fresh_positions(g, headers@, i as int)[a] < fresh_positions(g, headers@, i as int)[b],
                knew <==> fresh@.len() < i,
                fresh@.len() <= i,
            decreases cnt - i,
        {
            let hash = headers[i].block_hash();
            proof {
                let fpn = fresh_positions(g, headers@, i + 1);
                let fpo = fresh_positions(g, headers@, i as int);
                if g.has_hash(block_hash_of(headers@[i as int]@)) {
                    assert(fpn == fpo);
                } else {
                    assert(fpn == fpo.push(i as int));
                }
            }
            if g.contains(&hash) {
                knew = true;
            } else {
                fresh.push(HeaderInfo { height: s + i as u64, header: headers[i].duplicate(), miner: String::new() });
            }
            i = i + 1;
        }
        let ghost fp = fresh_positions(g, headers@, cnt as int);
        let ghost old_h = self.new_headers@;
        fresh.append(&mut self.new_headers);
        self.new_headers = fresh;
        assert(self.new_headers@.subrange(fp.len() as int, self.new_headers@.len() as int) =~= old_h);
        assert forall|a: int, b: int| 0 <= a < b < self.new_headers@.len() implies self.new_headers@[a].height
                < self.new_headers@[b].height by {
            if b < fp.len() {
                assert(fp[a] < fp[b]);
            } else if a < fp.len() {
                assert(self.new_headers@[b] == old_h[b - fp.len()]);
            } else {
                assert(self.new_headers@[a] == old_h[a - fp.len()]);
                assert(self.new_headers@[b] == old_h[b - fp.len()]);
            }
        }
        assert forall|k: int| 0 <= k < self.new_headers@.len() implies s - 1 < (#[trigger] self.new_headers@[k]).height && self.new_headers@[k].height <= self.tip_height
            && self.new_headers@[k].height >= self.min_fork_height by {
            if k >= fp.len() {
                assert(self.new_headers@[k] == old_h[k - fp.len()]);
            }
        }
        if knew || s <= self.min_fork_height {
            self.done = true;
            None
        } else {
            self.query_height = s - 1;
            self.start_height = lower_chunk_end(s - 1, self.min_fork_height);
            Some(FetchRequest::BlockHash { height: self.start_height })
        }
    }

    /// The new headers found, by ascending height.
    pub fn into_headers(self) -> (r: Vec<HeaderInfo>)
        requires
            self.wf(),
        ensures
            r == self.new_headers,
            forall|a: int, b: int| 0 <= a < b < r@.len() ==> r@[a].height < r@[b].height,
    {
        self.new_headers
    }
}

/// Whether tip `t` starts an inactive branch worth walking: it is not the
/// active tip and its branch leaves the active chain above
/// `min_fork_height`.
pub open spec fn walks_branch(t: ChainTip, min: u64) -> bool {
    t.status != ChainTipStatus::Active && t.height >= t.branchlen && t.height - t.branchlen > min
}

/// When every tip is below `min_fork_height`, no branch is walked.
pub proof fn lemma_low_tips_no_branches(tips: Seq<ChainTip>, min: u64)
    requires
        forall|i: int| 0 <= i < tips.len() ==> (#[trigger] tips[i]).height < min,
    ensures
        tips.filter(|t: ChainTip| walks_branch(t, min)).len() == 0,
        forall|k: int| 0 <= k < tips.len() ==> !#[trigger] walks_branch(tips[k], min),
    decreases tips.len(),
{
    reveal(Seq::filter);
    if tips.len() > 0 {
        lemma_low_tips_no_branches(tips.drop_last(), min);
        assert(!walks_branch(tips.last(), min));
    }
}

/// Whether a tip's hash is written as 64 hex digits.
pub open spec fn has_tip_hash(t: ChainTip) -> bool {
    crate::primitives::is_hex_string(t.hash@) && t.hash@.len() == 64
}

/// One inactive branch to walk: its tip's hash and height and its length.
#[derive(Debug)]
pub struct Branch {
    pub hash: BlockHash,
    pub height: u64,
    pub branchlen: usize,
}

/// The walk down each inactive branch from its tip, `branchlen + 1`
/// headers at most, that stops at the first hash the graph holds.
pub struct InactiveWalk {
    pub branches: Vec<Branch>,
    /// The branch being walked.
    pub branch: usize,
    /// How many headers of it have been fetched.
    pub step: u64,
    /// The hash to fetch next.
    pub next_hash: BlockHash,
    pub new_headers: Vec<HeaderInfo>,
}

impl InactiveWalk {
    /// The walk is consistent: the step stays within the branch and the
    /// branch heights leave room for it.
    pub open spec fn wf(&self) -> bool {
        &&& self.branch <= self.branches@.len()
        &&& forall|k: int| 0 <= k < self.branches@.len() ==> (#[trigger] self.branches@[k]).branchlen < self.branches@[k].height
        &&& self.branch < self.branches@.len() ==> self.step <= self.branches@[self.branch as int].branchlen + 1
    }

    /// The branches to walk: the tips that `walks_branch` selects, in order.
    /// A backend that fetches only by height cannot walk them, and gets
    /// none; a selected tip whose hash is not 64 hex digits is a data error.
    pub fn start(tips: &Vec<ChainTip>, caps: Capabilities, min_fork_height: u64) -> (r: Result<InactiveWalk, FetchError>)
        ensures
            caps.header_fetch_type == HeaderFetchType::Height ==> r is Ok && r->Ok_0.branches@.len() == 0,
            r is Ok ==> r->Ok_0.wf() && r->Ok_0.new_headers@.len() == 0 && r->Ok_0.branch == 0 && r->Ok_0.step == 0,
            r is Ok && caps.header_fetch_type == HeaderFetchType::Hash ==> {
                let bs = r->Ok_0.branches@;
                &&& bs.len() == tips@.filter(|t: ChainTip| walks_branch(t, min_fork_height)).len()
                &&& forall|k: int| 0 <= k < bs.len() ==> {
                    let t = tips@.filter(|t: ChainTip| walks_branch(t, min_fork_height))[k];
                    &&& (#[trigger] bs[k]).height == t.height
                    &&& bs[k].branchlen == t.branchlen
                    &&& bs[k].hash@ == crate::primitives::unhex(t.hash@).reverse()
                }
                &&& bs.len() > 0 ==> r->Ok_0.next_hash@ == bs[0].hash@
            },
            r is Err <==> caps.header_fetch_type == HeaderFetchType::Hash && exists|k: int|
                0 <= k < tips@.len() && #[trigger] walks_branch(tips@[k], min_fork_height) && !has_tip_hash(tips@[k]),
            r is Err ==> r->Err_0 is DataError,
    {
        let empty = InactiveWalk {
            branches: Vec::new(),
            branch: 0,
            step: 0,
            next_hash: BlockHash { bytes: Vec::new() },
            new_headers: Vec::new(),
        };
        match caps.header_fetch_type {
            HeaderFetchType::Height => {
                return Ok(empty);
            },
            HeaderFetchType::Hash => {},
        }
        assert(caps.header_fetch_type == HeaderFetchType::Hash);
        let ghost sel = |t: ChainTip| walks_branch(t, min_fork_height);
        let mut branches: Vec<Branch> = Vec::new();
        let mut k: usize = 0;
        while k < tips.len()
            invariant
                k <= tips@.len(),
                sel == (|t: ChainTip| walks_branch(t, min_fork_height)),
                caps.header_fetch_type == HeaderFetchType::Hash,
                branches@.len() == tips@.subrange(0, k as int).filter(sel).len(),
                forall|j: int| 0 <= j < branches@.len() ==> {
                    let t = tips@.subrange(0, k as int).filter(sel)[j];
                    &&& (#[trigger] branches@[j]).height == t.height
                    &&& branches@[j].branchlen == t.branchlen
                    &&& branches@[j].hash@ == crate::primitives::unhex(t.hash@).reverse()
                    &&& branches@[j].branchlen < branches@[j].height
                },
                forall|j: int| 0 <= j < k && #[trigger] walks_branch(tips@[j], min_fork_height) ==> has_tip_hash(tips@[j]),
            decreases tips@.len() - k,
        {
            proof {
                reveal(Seq::filter);
                assert(tips@.subrange(0, k + 1).drop_last() =~= tips@.subrange(0, k as int));
            }
            let t = &tips[k];
            let active = match t.status {
                ChainTipStatus::Active => true,
                _ => false,
            };
            if !active && t.height >= t.branchlen as u64 && t.height - t.branchlen as u64 > min_fork_height {
                match t.block_hash() {
                    Some(h) => {
                        branches.push(Branch { hash: h, height: t.height, branchlen: t.branchlen });
                    },
                    None => {
                        assert(walks_branch(tips@[k as int], min_fork_height) && !has_tip_hash(tips@[k as int]));
                        return Err(FetchError::DataError(String::from_str("invalid chain tip hash")));
                    },
                }
            }
            k = k + 1;
        }
        assert(tips@.subrange(0, tips@.len() as int) =~= tips@);
        let next_hash = if branches.len() > 0 {
            branches[0].hash.duplicate()
        } else {
            BlockHash { bytes: Vec::new() }
        };
        Ok(InactiveWalk { branches, branch: 0, step: 0, next_hash, new_headers: Vec::new() })
    }

    /// The next header to fetch: past the branches whose walk is over (all
    /// its headers fetched, or the next hash already in the graph), the one
    /// with `next_hash` at its height. `None` when every branch is walked.
    pub fn next_request(&mut self, g: &HeaderGraph) -> (r: Option<FetchRequest>)
        requires
            g.wf(),
            old(self).wf(),
        ensures
            final(self).wf(),
            final(self).branches == old(self).branches,
            final(self).new_headers == old(self).new_headers,
            final(self).branch >= old(self).branch,
            final(self).branch == old(self).branch ==> final(self).step == old(self).step
                && final(self).next_hash@ == old(self).next_hash@,
            final(self).branch > old(self).branch ==> old(self).step > old(self).branches@[old(self).branch as int].branchlen
                || g.has_hash(old(self).next_hash@),
            forall|b: int| old(self).branch < b < final(self).branch ==> g.has_hash(
                (#[trigger] final(self).branches@[b]).hash@,
            ),
            final(self).branch > old(self).branch && final(self).branch < final(self).branches@.len() ==> final(self).step == 0
                && final(self).next_hash@ == final(self).branches@[final(self).branch as int].hash@,
            r is None <==> final(self).branch == final(self).branches@.len(),
            r is Some ==> {
                let b = final(self).branches@[final(self).branch as int];
                &&& final(self).step <= b.branchlen
                &&& !g.has_hash(final(self).next_hash@)
                &&& match r {
                    Some(FetchRequest::HeaderByHash { hash, height }) => hash@ == final(self).next_hash@
                        && height == b.height - final(self).step,
                    _ => false,
                }
            },
    {
        while self.branch < self.branches.len()
            invariant
                g.wf(),
                self.wf(),
                self.branches == old(self).branches,
                self.new_headers == old(self).new_headers,
                self.branch >= old(self).branch,
                self.branch == old(self).branch ==> self.step == old(self).step
                    && self.next_hash@ == old(self).next_hash@,
                self.branch > old(self).branch ==> old(self).step > old(self).branches@[old(self).branch as int].branchlen
                    || g.has_hash(old(self).next_hash@),
                forall|b: int| old(self).branch < b < self.branch ==> g.has_hash(
                    (#[trigger] self.branches@[b]).hash@,
                ),
                self.branch > old(self).branch && self.branch < self.branches@.len() ==> self.step == 0
                    && self.next_hash@ == self.branches@[self.branch as int].hash@,
            decreases self.branches@.len() - self.branch,
        {
            let b = self.branch;
            if self.step <= self.branches[b].branchlen as u64 && !g.contains(&self.next_hash) {
                let height = self.branches[b].height - self.step;
                return Some(FetchRequest::HeaderByHash { hash: self.next_hash.duplicate(), height });
            }
            self.branch = b + 1;
            self.step = 0;
            if b + 1 < self.branches.len() {
                self.next_hash = self.branches[b + 1].hash.duplicate();
            }
        }
        None
    }

    /// The walk with the header it asked for: it is new, at the branch's
    /// height less the step, and the walk goes on to its parent.
    pub fn on_header(&mut self, header: Header)
        requires
            old(self).wf(),
            old(self).branch < old(self).branches@.len(),
            old(self).step <= old(self).branches@[old(self).branch as int].branchlen,
        ensures
            final(self).wf(),
            final(self).branches == old(self).branches,
            final(self).branch == old(self).branch,
            final(self).step == old(self).step + 1,
            final(self).next_hash@ == crate::primitives::prev_hash_of(header@),
            final(self).new_headers@.len() == old(self).new_headers@.len() + 1,
            final(self).new_headers@.drop_last() == old(self).new_headers@,
            final(self).new_headers@.last().height == old(self).branches@[old(self).branch as int].height - old(self).step,
            final(self).new_headers@.last().header@ == header@,
            final(self).new_headers@.last().miner@.len() == 0,
    {
        let b = self.branch;
        let height = self.branches[b].height - self.step;
        self.next_hash = header.prev_blockhash();
        self.new_headers.push(HeaderInfo { height, header, miner: String::new() });
        self.step = self.step + 1;
        assert(self.new_headers@.drop_last() =~= old(self).new_headers@);
    }
}

/// The hashes of the headers whose miner is to be identified: those of the
/// new active-chain headers when there are at most twenty of them (a tip
/// advance, not a catch-up), then those of all new inactive-branch headers.
pub fn headers_needing_miners(active: &Vec<HeaderInfo>, inactive: &Vec<HeaderInfo>) -> (r: Vec<BlockHash>)
    ensures
        ({
            let na = if active@.len() <= MAX_MINER_REQUESTS { active@.len() as int } else { 0 };
            &&& r@.len() == na + inactive@.len()
            &&& forall|k: int| 0 <= k < na ==> (#[trigger] r@[k])@ == block_hash_of(active@[k].header@)
            &&& forall|k: int| 0 <= k < inactive@.len() ==> (#[trigger] r@[na + k])@ == block_hash_of(inactive@[k].header@)
        }),
{
    let mut r: Vec<BlockHash> = Vec::new();
    let na: usize = if active.len() <= MAX_MINER_REQUESTS { active.len() } else { 0 };
    let mut k: usize = 0;
    while k < na
        invariant
            k <= na <= active@.len(),
            r@.len() == k,
            forall|j: int| 0 <= j < k ==> (#[trigger] r@[j])@ == block_hash_of(active@[j].header@),
        decreases na - k,
    {
        r.push(active[k].header.block_hash());
        k = k + 1;
    }
    let mut k: usize = 0;
    while k < inactive.len()
        invariant
            k <= inactive@.len(),
            r@.len() == na + k,
            forall|j: int| 0 <= j < na ==> (#[trigger] r@[j])@ == block_hash_of(active@[j].header@),
            forall|j: int| 0 <= j < k ==> (#[trigger] r@[na + j])@ == block_hash_of(inactive@[j].header@),
        decreases inactive@.len() - k,
    {
        r.push(inactive[k].header.block_hash());
        k = k + 1;
    }
    r
}

/// All new headers of both walks, by ascending height (equal heights in the
/// order given, active-chain ones first).
pub fn merge_new_headers(active: Vec<HeaderInfo>, inactive: Vec<HeaderInfo>) -> (r: Vec<HeaderInfo>)
    ensures
        r@.to_multiset() == (active@ + inactive@).to_multiset(),
        forall|a: int, b: int| 0 <= a < b < r@.len() ==> r@[a].height <= r@[b].height,
{
    broadcast use vstd::seq_lib::to_multiset_insert, vstd::seq_lib::to_multiset_build, vstd::multiset::group_multiset_axioms;
    let ghost a0 = active@;
    let ghost b0 = inactive@;
    let mut r: Vec<HeaderInfo> = Vec::new();
    let mut all = active;
    let mut rest = inactive;
    all.append(&mut rest);
    let ghost s = all@;
    assert(s == a0 + b0);
    // insertion sort, stable
    let ghost mut k: int = 0;
    assert(s.subrange(0, 0) =~= Seq::<HeaderInfo>::empty());
    assert(r@ =~= Seq::<HeaderInfo>::empty());
    while all.len() > 0
        invariant
            0 <= k <= s.len(),
            k + all@.len() == s.len(),
            all@ == s.subrange(k, s.len() as int),
            r@.to_multiset() == s.subrange(0, k).to_multiset(),
            forall|a: int, b: int| 0 <= a < b < r@.len() ==> r@[a].height <= r@[b].height,
        decreases all@.len(),
    {
        let x = all.remove(0);
        let h = x.height;
        let mut pos: usize = r.len();
        while pos > 0 && r[pos - 1].height > h
            invariant
                pos <= r@.len(),
                forall|a: int| pos <= a < r@.len() ==> (#[trigger] r@[a]).height > h,
            decreases pos,
        {
            pos = pos - 1;
        }
        let ghost r0 = r@;
        r.insert(pos, x);
        proof {
            assert(s.subrange(0, k + 1) =~= s.subrange(0, k).push(s[k]));
            assert(r@ == r0.insert(pos as int, s[k]));
            vstd::seq_lib::to_multiset_insert(r0, pos as int, s[k]);
            vstd::seq_lib::to_multiset_build(s.subrange(0, k), s[k]);
        }
        assert forall|a: int, b: int| 0 <= a < b < r@.len() implies r@[a].height <= r@[b].height by {
            if b < pos {
            } else if b == pos {
                if a < pos && pos > 0 {
                    assert(r0[pos - 1].height <= h);
                    if a < pos - 1 {
                        assert(r0[a].height <= r0[pos - 1].height);
                    }
                }
            } else if a < pos {
                assert(r@[b] == r0[b - 1]);
            } else if a == pos {
                assert(r@[b] == r0[b - 1]);
            } else {
                assert(r@[a] == r0[a - 1] && r@[b] == r0[b - 1]);
            }
        }
        proof {
            k = k + 1;
        }
        assert(all@ =~= s.subrange(k, s.len() as int));
    }
    assert(s.subrange(0, k) =~= s);
    r
}

} // verus!
