//! The node backends as data: who a node is, where it is reached and what
//! it can do. Their requests are made outside the library.
use vstd::prelude::*;

use crate::config::RpcAuth;
use crate::discovery::{Capabilities, HeaderFetchType};
use crate::types::NodeInfo;

verus! {

/// A Bitcoin Core node, reached over RPC and, with `use_rest`, over REST.
#[derive(Debug, Clone)]
pub struct BitcoinCoreNode {
    pub info: NodeInfo,
    pub rpc_url: String,
    pub rpc_auth: RpcAuth,
    pub use_rest: bool,
}

impl BitcoinCoreNode {
    pub fn new(info: NodeInfo, rpc_url: String, rpc_auth: RpcAuth, use_rest: bool) -> (r: BitcoinCoreNode)
        ensures
            r == (BitcoinCoreNode { info, rpc_url, rpc_auth, use_rest }),
    {
        BitcoinCoreNode { info, rpc_url, rpc_auth, use_rest }
    }

    /// Headers by hash; batches over REST when it is used.
    pub fn capabilities(&self) -> (r: Capabilities)
        ensures
            r == (Capabilities { header_fetch_type: HeaderFetchType::Hash, batch_header_fetch: self.use_rest }),
    {
        Capabilities { header_fetch_type: HeaderFetchType::Hash, batch_header_fetch: self.use_rest }
    }
}

/// A btcd node, reached over JSON-RPC with user and password.
#[derive(Debug, Clone)]
pub struct BtcdNode {
    pub info: NodeInfo,
    pub rpc_url: String,
    pub rpc_user: String,
    pub rpc_password: String,
}

impl BtcdNode {
    pub fn new(info: NodeInfo, rpc_url: String, rpc_user: String, rpc_password: String) -> (r: BtcdNode)
        ensures
            r == (BtcdNode { info, rpc_url, rpc_user, rpc_password }),
    {
        BtcdNode { info, rpc_url, rpc_user, rpc_password }
    }

    /// Headers by hash, one at a time.
    pub fn capabilities(&self) -> (r: Capabilities)
        ensures
            r == (Capabilities { header_fetch_type: HeaderFetchType::Hash, batch_header_fetch: false }),
    {
        Capabilities { header_fetch_type: HeaderFetchType::Hash, batch_header_fetch: false }
    }
}

/// An Esplora server, reached over its REST API.
#[derive(Debug, Clone)]
pub struct Esplora {
    pub info: NodeInfo,
    pub api_url: String,
}

impl Esplora {
    pub fn new(info: NodeInfo, api_url: String) -> (r: Esplora)
        ensures
            r == (Esplora { info, api_url }),
    {
        Esplora { info, api_url }
    }

    /// Headers by hash, one at a time.
    pub fn capabilities(&self) -> (r: Capabilities)
        ensures
            r == (Capabilities { header_fetch_type: HeaderFetchType::Hash, batch_header_fetch: false }),
    {
        Capabilities { header_fetch_type: HeaderFetchType::Hash, batch_header_fetch: false }
    }
}

/// What an Electrum server can do: headers by height only, in batches.
pub fn electrum_capabilities() -> (r: Capabilities)
    ensures
        r == (Capabilities { header_fetch_type: HeaderFetchType::Height, batch_header_fetch: true }),
{
    Capabilities { header_fetch_type: HeaderFetchType::Height, batch_header_fetch: true }
}

} // verus!
