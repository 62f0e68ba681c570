//! The checks and defaults that turn a parsed configuration file into the
//! networks and nodes to watch.
use vstd::prelude::*;
use vstd::string::*;

use crate::error::ConfigError;
use crate::text::{decimal, push_decimal, push_str};
use crate::types::{str_equal, NetworkJson, NodeInfo};

verus! {

/// The RPC port of a node whose configuration gives none.
pub const DEFAULT_RPC_PORT: u16 = 8332;

/// The port of an Electrum server whose configuration gives none.
pub const DEFAULT_ELECTRUM_PORT: u16 = 50002;

/// The chain whose pool data identifies miners.
#[derive(Debug, Clone, Copy, PartialEq, Eq, Structural)]
pub enum PoolIdentificationNetwork {
    Mainnet,
    Testnet,
    Signet,
    Regtest,
}

/// Whether and how miners are identified on a network.
#[derive(Debug, Clone, Copy, PartialEq, Eq, Structural)]
pub struct PoolIdentification {
    pub enable: bool,
    pub network: Option<PoolIdentificationNetwork>,
}

impl PoolIdentification {
    /// Identification disabled, as when the configuration says nothing.
    pub fn disabled() -> (r: PoolIdentification)
        ensures
            !r.enable && r.network is None,
    {
        PoolIdentification { enable: false, network: None }
    }
}

/// The implementation behind a node.
#[derive(Debug, Clone, Copy, PartialEq, Eq, Structural)]
pub enum Backend {
    BitcoinCore,
    Btcd,
    /// An Esplora based backend.
    Esplora,
    /// An Electrum server.
    Electrum,
}

/// What a lower-cased string is.
pub uninterp spec fn lower_of(s: Seq<char>) -> Seq<char>;

/// Relies on `str::to_lowercase`: the result depends on the characters
/// alone.
#[verifier::external_body]
fn lowercase(s: &str) -> (r: String)
    ensures
        r@ == lower_of(s@),
{
    s.to_lowercase()
}

/// The backend that a lower-case implementation name stands for.
pub open spec fn backend_of(s: Seq<char>) -> Option<Backend> {
    if s == seq!['b', 'i', 't', 'c', 'o', 'i', 'n', 'c', 'o', 'r', 'e']
        || s == seq!['b', 'i', 't', 'c', 'o', 'i', 'n', ' ', 'c', 'o', 'r', 'e']
        || s == seq!['c', 'o', 'r', 'e'] {
        Some(Backend::BitcoinCore)
    } else if s == seq!['b', 't', 'c', 'd'] {
        Some(Backend::Btcd)
    } else if s == seq!['e', 's', 'p', 'l', 'o', 'r', 'a'] {
        Some(Backend::Esplora)
    } else if s == seq!['e', 'l', 'e', 'c', 't', 'r', 'u', 'm'] {
        Some(Backend::Electrum)
    } else {
        None
    }
}

/// How a backend is named.
pub open spec fn backend_name(b: Backend) -> Seq<char> {
    match b {
        Backend::BitcoinCore => seq!['B', 'i', 't', 'c', 'o', 'i', 'n', ' ', 'C', 'o', 'r', 'e'],
        Backend::Btcd => seq!['b', 't', 'c', 'd'],
        Backend::Esplora => seq!['e', 's', 'p', 'l', 'o', 'r', 'a'],
        Backend::Electrum => seq!['e', 'l', 'e', 'c', 't', 'r', 'u', 'm'],
    }
}

/// The backend an implementation name stands for, whatever its case
/// (`bitcoincore`, `bitcoin core` or `core`; `btcd`; `esplora`; `electrum`).
pub open spec fn parse_backend(s: Seq<char>) -> Option<Backend> {
    backend_of(lower_of(s))
}

impl Backend {
    /// The backend an implementation name stands for, in any case; any other
    /// name is `UnknownImplementation`.
    pub fn from_name(s: &str) -> (r: Result<Backend, ConfigError>)
        ensures
            r is Ok <==> parse_backend(s@) is Some,
            r is Ok ==> r->Ok_0 == parse_backend(s@)->Some_0,
            r is Err ==> r->Err_0 is UnknownImplementation,
    {
        let l = lowercase(s);
        Backend::from_lowercase_name(l.as_str())
    }

    /// The backend a lower-case implementation name stands for
    /// (`bitcoincore`, `bitcoin core` or `core`; `btcd`; `esplora`;
    /// `electrum`); any other name is `UnknownImplementation`.
    pub fn from_lowercase_name(l: &str) -> (r: Result<Backend, ConfigError>)
        ensures
            r is Ok <==> backend_of(l@) is Some,
            r is Ok ==> r->Ok_0 == backend_of(l@)->Some_0,
            r is Err ==> r->Err_0 is UnknownImplementation,
    {
        proof {
            reveal_strlit("bitcoincore");
            reveal_strlit("bitcoin core");
            reveal_strlit("core");
            reveal_strlit("btcd");
            reveal_strlit("esplora");
            reveal_strlit("electrum");
            assert("bitcoincore"@ =~= seq!['b', 'i', 't', 'c', 'o', 'i', 'n', 'c', 'o', 'r', 'e']);
            assert("bitcoin core"@ =~= seq!['b', 'i', 't', 'c', 'o', 'i', 'n', ' ', 'c', 'o', 'r', 'e']);
            assert("core"@ =~= seq!['c', 'o', 'r', 'e']);
            assert("btcd"@ =~= seq!['b', 't', 'c', 'd']);
            assert("esplora"@ =~= seq!['e', 's', 'p', 'l', 'o', 'r', 'a']);
            assert("electrum"@ =~= seq!['e', 'l', 'e', 'c', 't', 'r', 'u', 'm']);
        }
        if str_equal(l, "bitcoincore") || str_equal(l, "bitcoin core") || str_equal(l, "core") {
            Ok(Backend::BitcoinCore)
        } else if str_equal(l, "btcd") {
            Ok(Backend::Btcd)
        } else if str_equal(l, "esplora") {
            Ok(Backend::Esplora)
        } else if str_equal(l, "electrum") {
            Ok(Backend::Electrum)
        } else {
            Err(ConfigError::UnknownImplementation)
        }
    }

    /// The backend's name: `Bitcoin Core`, `btcd`, `esplora`, `electrum`.
    pub fn name(&self) -> (r: String)
        ensures
            r@ == backend_name(*self),
    {
        proof {
            reveal_strlit("Bitcoin Core");
            reveal_strlit("btcd");
            reveal_strlit("esplora");
            reveal_strlit("electrum");
        }
        let r = match self {
            Backend::BitcoinCore => String::from_str("Bitcoin Core"),
            Backend::Btcd => String::from_str("btcd"),
            Backend::Esplora => String::from_str("esplora"),
            Backend::Electrum => String::from_str("electrum"),
        };
        assert(r@ =~= backend_name(*self));
        r
    }
}

/// How a node authenticates over RPC.
#[derive(Debug, Clone)]
pub enum RpcAuth {
    CookieFile(String),
    UserPass(String, String),
}

/// A node's entry in the configuration file, with whether its cookie file
/// exists.
#[derive(Debug, Clone)]
pub struct NodeConfig {
    pub id: u32,
    pub name: String,
    pub description: String,
    pub rpc_host: String,
    pub rpc_port: Option<u16>,
    pub rpc_cookie_file: Option<String>,
    pub rpc_cookie_file_exists: bool,
    pub rpc_user: Option<String>,
    pub rpc_password: Option<String>,
    pub use_rest: Option<bool>,
    pub implementation: Option<String>,
}

/// A node to watch: who it is, its backend, where to reach it and how to
/// authenticate.
#[derive(Debug, Clone)]
pub struct NodeSetup {
    pub info: NodeInfo,
    pub backend: Backend,
    pub url: String,
    pub auth: Option<RpcAuth>,
    pub use_rest: bool,
}

/// The backend of a node entry: `bitcoincore` when none is named.
pub open spec fn node_backend(n: NodeConfig) -> Option<Backend> {
    match n.implementation {
        Some(s) => parse_backend(s@),
        None => Some(Backend::BitcoinCore),
    }
}

/// What is wrong with a node entry, if anything.
pub open spec fn node_error(n: NodeConfig) -> Option<ConfigError> {
    match node_backend(n) {
        None => Some(ConfigError::UnknownImplementation),
        Some(Backend::BitcoinCore) => if n.rpc_cookie_file is Some {
            if n.rpc_cookie_file_exists {
                None
            } else {
                Some(ConfigError::CookieFileDoesNotExist)
            }
        } else if n.rpc_user is Some && n.rpc_password is Some {
            None
        } else {
            Some(ConfigError::NoBitcoinCoreRpcAuth)
        },
        Some(Backend::Btcd) => if n.rpc_user is Some && n.rpc_password is Some {
            None
        } else {
            Some(ConfigError::NoBtcdRpcAuth)
        },
        Some(_) => None,
    }
}

/// `host:port`.
pub open spec fn host_port(host: Seq<char>, port: u16) -> Seq<char> {
    host + seq![':'] + decimal(port as nat)
}

/// Whether `s` is the node to watch that entry `n` describes.
pub open spec fn is_setup_of(s: NodeSetup, n: NodeConfig) -> bool {
    let b = node_backend(n)->Some_0;
    &&& s.backend == b
    &&& s.info.id == n.id
    &&& s.info.name == n.name
    &&& s.info.description == n.description
    &&& s.info.implementation@ == backend_name(b)
    &&& s.url@ == match b {
        Backend::Esplora => n.rpc_host@,
        Backend::Electrum => host_port(n.rpc_host@, n.rpc_port.unwrap_or(DEFAULT_ELECTRUM_PORT)),
        _ => host_port(n.rpc_host@, n.rpc_port.unwrap_or(DEFAULT_RPC_PORT)),
    }
    &&& s.use_rest == (b == Backend::BitcoinCore && n.use_rest.unwrap_or(true))
    &&& match b {
        Backend::BitcoinCore => match s.auth {
            Some(RpcAuth::CookieFile(p)) => n.rpc_cookie_file == Some(p),
            Some(RpcAuth::UserPass(u, p)) => n.rpc_cookie_file is None && n.rpc_user == Some(u)
                && n.rpc_password == Some(p),
            None => false,
        },
        Backend::Btcd => s.auth == Some(RpcAuth::UserPass(n.rpc_user->Some_0, n.rpc_password->Some_0)),
        _ => s.auth is None,
    }
}

/// How a Bitcoin Core node authenticates: with its cookie file, which must
/// exist, or else with user and password.
pub fn parse_rpc_auth(node: &NodeConfig) -> (r: Result<RpcAuth, ConfigError>)
    ensures
        node.rpc_cookie_file is Some ==> if node.rpc_cookie_file_exists {
            r == Ok::<RpcAuth, ConfigError>(RpcAuth::CookieFile(node.rpc_cookie_file->Some_0))
        } else {
            r is Err && r->Err_0 is CookieFileDoesNotExist
        },
        node.rpc_cookie_file is None ==> if node.rpc_user is Some && node.rpc_password is Some {
            r == Ok::<RpcAuth, ConfigError>(RpcAuth::UserPass(node.rpc_user->Some_0, node.rpc_password->Some_0))
        } else {
            r is Err && r->Err_0 is NoBitcoinCoreRpcAuth
        },
{
    match &node.rpc_cookie_file {
        Some(path) => {
            if !node.rpc_cookie_file_exists {
                return Err(ConfigError::CookieFileDoesNotExist);
            }
            Ok(RpcAuth::CookieFile(path.clone()))
        },
        None => match (&node.rpc_user, &node.rpc_password) {
            (Some(user), Some(password)) => Ok(RpcAuth::UserPass(user.clone(), password.clone())),
            _ => Err(ConfigError::NoBitcoinCoreRpcAuth),
        },
    }
}

/// `host:port`.
fn join_host_port(host: &String, port: u16) -> (r: String)
    ensures
        r@ == host_port(host@, port),
{
    let mut r = host.clone();
    proof {
        reveal_strlit(":");
    }
    push_str(&mut r, ":");
    push_decimal(&mut r, port as u64);
    assert(r@ =~= host_port(host@, port));
    r
}

/// The node to watch that a configuration entry describes, or what is
/// wrong with the entry.
pub fn parse_toml_node(node: &NodeConfig) -> (r: Result<NodeSetup, ConfigError>)
    ensures
        r is Err <==> node_error(*node) is Some,
        r is Err ==> r->Err_0 == node_error(*node)->Some_0,
        r is Ok ==> is_setup_of(r->Ok_0, *node),
{
    let backend = match &node.implementation {
        Some(s) => Backend::from_name(s.as_str())?,
        None => Backend::BitcoinCore,
    };
    let info = NodeInfo {
        id: node.id,
        name: node.name.clone(),
        description: node.description.clone(),
        implementation: backend.name(),
    };
    match backend {
        Backend::BitcoinCore => {
            let auth = parse_rpc_auth(node)?;
            let use_rest = match node.use_rest {
                Some(u) => u,
                None => true,
            };
            let port = match node.rpc_port {
                Some(p) => p,
                None => DEFAULT_RPC_PORT,
            };
            Ok(NodeSetup { info, backend, url: join_host_port(&node.rpc_host, port), auth: Some(auth), use_rest })
        },
        Backend::Btcd => {
            match (&node.rpc_user, &node.rpc_password) {
                (Some(user), Some(password)) => {
                    let port = match node.rpc_port {
                        Some(p) => p,
                        None => DEFAULT_RPC_PORT,
                    };
                    Ok(NodeSetup {
                        info,
                        backend,
                        url: join_host_port(&node.rpc_host, port),
                        auth: Some(RpcAuth::UserPass(user.clone(), password.clone())),
                        use_rest: false,
                    })
                },
                _ => Err(ConfigError::NoBtcdRpcAuth),
            }
        },
        Backend::Esplora => Ok(NodeSetup { info, backend, url: node.rpc_host.clone(), auth: None, use_rest: false }),
        Backend::Electrum => {
            let port = match node.rpc_port {
                Some(p) => p,
                None => DEFAULT_ELECTRUM_PORT,
            };
            Ok(NodeSetup { info, backend, url: join_host_port(&node.rpc_host, port), auth: None, use_rest: false })
        },
    }
}

/// A network's entry in the configuration file.
#[derive(Debug, Clone)]
pub struct NetworkConfig {
    pub id: u32,
    pub name: String,
    pub description: String,
    pub min_fork_height: u64,
    pub max_interesting_heights: usize,
    pub nodes: Vec<NodeConfig>,
    pub pool_identification: Option<PoolIdentification>,
}

/// A network to watch.
#[derive(Debug, Clone)]
pub struct Network {
    pub id: u32,
    pub name: String,
    pub description: String,
    pub min_fork_height: u64,
    pub max_interesting_heights: usize,
    pub nodes: Vec<NodeSetup>,
    pub pool_identification: PoolIdentification,
}

/// The first thing wrong among the first `j` node entries of a network: a
/// bad entry, or an id that an earlier entry has.
pub open spec fn nodes_error(nodes: Seq<NodeConfig>, j: int) -> Option<ConfigError>
    decreases j,
{
    if j <= 0 {
        None
    } else {
        match nodes_error(nodes, j - 1) {
            Some(e) => Some(e),
            None => if node_error(nodes[j - 1]) is Some {
                node_error(nodes[j - 1])
            } else if exists|i: int| 0 <= i < j - 1 && (#[trigger] nodes[i]).id == nodes[j - 1].id {
                Some(ConfigError::DuplicateNodeId)
            } else {
                None
            },
        }
    }
}

/// The first thing wrong among the first `k` network entries: something
/// wrong with its nodes, or an id that an earlier network has.
pub open spec fn networks_error(ns: Seq<NetworkConfig>, k: int) -> Option<ConfigError>
    decreases k,
{
    if k <= 0 {
        None
    } else {
        match networks_error(ns, k - 1) {
            Some(e) => Some(e),
            None => if nodes_error(ns[k - 1].nodes@, ns[k - 1].nodes@.len() as int) is Some {
                nodes_error(ns[k - 1].nodes@, ns[k - 1].nodes@.len() as int)
            } else if exists|i: int| 0 <= i < k - 1 && (#[trigger] ns[i]).id == ns[k - 1].id {
                Some(ConfigError::DuplicateNetworkId)
            } else {
                None
            },
        }
    }
}

/// What is wrong with the network entries, if anything; no network at all
/// is `NoNetworks`.
pub open spec fn config_error(ns: Seq<NetworkConfig>) -> Option<ConfigError> {
    match networks_error(ns, ns.len() as int) {
        Some(e) => Some(e),
        None => if ns.len() == 0 {
            Some(ConfigError::NoNetworks)
        } else {
            None
        },
    }
}

/// Whether `w` is the network to watch that entry `n` describes.
pub open spec fn is_network_of(w: Network, n: NetworkConfig) -> bool {
    &&& w.id == n.id
    &&& w.name == n.name
    &&& w.description == n.description
    &&& w.min_fork_height == n.min_fork_height
    &&& w.max_interesting_heights == n.max_interesting_heights
    &&& w.pool_identification == n.pool_identification.unwrap_or(
        PoolIdentification { enable: false, network: None },
    )
    &&& w.nodes@.len() == n.nodes@.len()
    &&& forall|j: int| 0 <= j < w.nodes@.len() ==> is_setup_of(#[trigger] w.nodes@[j], n.nodes@[j])
}

/// The nodes of a network entry.
fn parse_nodes(nodes: &Vec<NodeConfig>) -> (r: Result<Vec<NodeSetup>, ConfigError>)
    ensures
        r is Err <==> nodes_error(nodes@, nodes@.len() as int) is Some,
        r is Err ==> r->Err_0 == nodes_error(nodes@, nodes@.len() as int)->Some_0,
        r is Ok ==> r->Ok_0@.len() == nodes@.len() && forall|j: int|
            0 <= j < nodes@.len() ==> is_setup_of(#[trigger] r->Ok_0@[j], nodes@[j]),
{
    let mut out: Vec<NodeSetup> = Vec::new();
    let mut j: usize = 0;
    while j < nodes.len()
        invariant
            j <= nodes@.len(),
            nodes_error(nodes@, j as int) is None,
            out@.len() == j,
            forall|i: int| 0 <= i < j ==> is_setup_of(#[trigger] out@[i], nodes@[i]),
        decreases nodes@.len() - j,
    {
        let setup = match parse_toml_node(&nodes[j]) {
            Ok(setup) => setup,
            Err(e) => {
                proof {
                    assert(nodes_error(nodes@, j as int + 1) == node_error(nodes@[j as int]));
                    lemma_nodes_error_stays(nodes@, j as int + 1, nodes@.len() as int);
                }
                return Err(e);
            },
        };
        let mut i: usize = 0;
        while i < j
            invariant
                i <= j < nodes@.len(),
                node_error(nodes@[j as int]) is None,
                nodes_error(nodes@, j as int) is None,
                forall|i2: int| 0 <= i2 < i ==> (#[trigger] nodes@[i2]).id != nodes@[j as int].id,
            decreases j - i,
        {
            if nodes[i].id == nodes[j].id {
                proof {
                    assert(nodes@[i as int].id == nodes@[j as int].id);
                    assert(nodes_error(nodes@, j as int + 1) == Some(ConfigError::DuplicateNodeId));
                    lemma_nodes_error_stays(nodes@, j as int + 1, nodes@.len() as int);
                }
                return Err(ConfigError::DuplicateNodeId);
            }
            i = i + 1;
        }
        assert(nodes_error(nodes@, j as int + 1) is None);
        out.push(setup);
        j = j + 1;
    }
    Ok(out)
}

/// Once something is wrong among the first `j` node entries, it is the
/// first thing wrong among more of them.
proof fn lemma_nodes_error_stays(nodes: Seq<NodeConfig>, j: int, m: int)
    requires
        j <= m,
        nodes_error(nodes, j) is Some,
    ensures
        nodes_error(nodes, m) == nodes_error(nodes, j),
    decreases m - j,
{
    if j < m {
        lemma_nodes_error_stays(nodes, j, m - 1);
    }
}

/// Once something is wrong among the first `k` network entries, it is the
/// first thing wrong among more of them.
proof fn lemma_networks_error_stays(ns: Seq<NetworkConfig>, k: int, m: int)
    requires
        k <= m,
        networks_error(ns, k) is Some,
    ensures
        networks_error(ns, m) == networks_error(ns, k),
    decreases m - k,
{
    if k < m {
        lemma_networks_error_stays(ns, k, m - 1);
    }
}

/// The networks to watch, or the first thing wrong with the entries: in
/// entry order, a bad node entry or a repeated node id within a network,
/// then a repeated network id; no entries at all is `NoNetworks`.
pub fn parse_networks(networks: &Vec<NetworkConfig>) -> (r: Result<Vec<Network>, ConfigError>)
    ensures
        r is Err <==> config_error(networks@) is Some,
        r is Err ==> r->Err_0 == config_error(networks@)->Some_0,
        r is Ok ==> r->Ok_0@.len() == networks@.len() && forall|k: int|
            0 <= k < networks@.len() ==> is_network_of(#[trigger] r->Ok_0@[k], networks@[k]),
{
    let mut out: Vec<Network> = Vec::new();
    let mut k: usize = 0;
    while k < networks.len()
        invariant
            k <= networks@.len(),
            networks_error(networks@, k as int) is None,
            out@.len() == k,
            forall|i: int| 0 <= i < k ==> is_network_of(#[trigger] out@[i], networks@[i]),
        decreases networks@.len() - k,
    {
        let n = &networks[k];
        let nodes = match parse_nodes(&n.nodes) {
            Ok(nodes) => nodes,
            Err(e) => {
                proof {
                    assert(networks_error(networks@, k as int + 1) == nodes_error(n.nodes@, n.nodes@.len() as int));
                    lemma_networks_error_stays(networks@, k as int + 1, networks@.len() as int);
                }
                return Err(e);
            },
        };
        let mut i: usize = 0;
        while i < k
            invariant
                i <= k < networks@.len(),
                *n == networks@[k as int],
                nodes_error(n.nodes@, n.nodes@.len() as int) is None,
                networks_error(networks@, k as int) is None,
                forall|i2: int| 0 <= i2 < i ==> (#[trigger] networks@[i2]).id != networks@[k as int].id,
            decreases k - i,
        {
            if networks[i].id == networks[k].id {
                proof {
                    assert(networks@[i as int].id == networks@[k as int].id);
                    assert(networks_error(networks@, k as int + 1) == Some(ConfigError::DuplicateNetworkId));
                    lemma_networks_error_stays(networks@, k as int + 1, networks@.len() as int);
                }
                return Err(ConfigError::DuplicateNetworkId);
            }
            i = i + 1;
        }
        let pool_identification = match n.pool_identification {
            Some(p) => p,
            None => PoolIdentification::disabled(),
        };
        assert(networks_error(networks@, k as int + 1) is None);
        out.push(Network {
            id: n.id,
            name: n.name.clone(),
            description: n.description.clone(),
            min_fork_height: n.min_fork_height,
            max_interesting_heights: n.max_interesting_heights,
            nodes,
            pool_identification,
        });
        k = k + 1;
    }
    if networks.len() == 0 {
        return Err(ConfigError::NoNetworks);
    }
    Ok(out)
}

impl NetworkJson {
    /// The client form of a network.
    pub fn new(network: &Network) -> (r: NetworkJson)
        ensures
            r.id == network.id,
            r.name == network.name,
            r.description == network.description,
    {
        NetworkJson { id: network.id, name: network.name.clone(), description: network.description.clone() }
    }
}

} // verus!
