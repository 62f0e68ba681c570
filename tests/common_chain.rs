use forkobserver::backend::{electrum_capabilities, BitcoinCoreNode, BtcdNode, Esplora};
use forkobserver::config::RpcAuth;
use forkobserver::discovery::HeaderFetchType;
use forkobserver::cache::{populate_cache, update_cache, is_node_reachable, Cache, CacheUpdate};
use forkobserver::config::{parse_networks, Backend, NetworkConfig, NodeConfig, PoolIdentification};
use forkobserver::error::ConfigError;
use forkobserver::types::{NodeInfo};

fn node_info(id: u32) -> NodeInfo {
    NodeInfo {
        id,
        name: "".to_string(),
        description: "".to_string(),
        implementation: "".to_string(),
    }
}

fn node_config(id: u32, name: &str) -> NodeConfig {
    NodeConfig {
        id,
        name: name.to_string(),
        description: "".to_string(),
        rpc_host: "127.0.0.1".to_string(),
        rpc_port: Some(0),
        rpc_cookie_file: None,
        rpc_cookie_file_exists: false,
        rpc_user: Some("".to_string()),
        rpc_password: Some("".to_string()),
        use_rest: None,
        implementation: None,
    }
}

fn network_config(id: u32, nodes: Vec<NodeConfig>) -> NetworkConfig {
    NetworkConfig {
        id,
        name: "".to_string(),
        description: "".to_string(),
        min_fork_height: 0,
        max_interesting_heights: 0,
        nodes,
        pool_identification: None,
    }
}

fn reachable_of(cache: &Cache, node_id: u32) -> bool {
    is_node_reachable(cache, node_id).expect("node id should be there")
}

#[test]
fn test_node_reachable() {
    let node = node_info(0);
    let mut cache = populate_cache(vec![node.clone()], vec![], vec![]);
    assert_eq!(reachable_of(&cache, node.id), true);
    update_cache(&mut cache, CacheUpdate::NodeReachability { node_id: node.id, reachable: false }, 0);
    assert_eq!(reachable_of(&cache, node.id), false);
    update_cache(&mut cache, CacheUpdate::NodeReachability { node_id: node.id, reachable: true }, 0);
    assert_eq!(reachable_of(&cache, node.id), true);
}

#[test]
fn error_on_duplicate_node_id_test() {
    let networks = vec![network_config(1, vec![node_config(0, "Node A"), node_config(0, "Node B")])];
    if let Err(ConfigError::DuplicateNodeId) = parse_networks(&networks) {
        // expected
    } else {
        panic!("Test did not error!");
    }
}

#[test]
fn error_on_duplicate_network_id_test() {
    let networks = vec![
        network_config(1, vec![node_config(0, "Node B")]),
        network_config(1, vec![node_config(0, "Node B")]),
    ];
    if let Err(ConfigError::DuplicateNetworkId) = parse_networks(&networks) {
        // expected
    } else {
        panic!("Test did not error!");
    }
}

#[test]
fn config_esplora_backend_test() {
    let mut node = node_config(123, "Esplora Node");
    node.description = "A test explora node".to_string();
    node.rpc_host = "https://esplora.example.org/api".to_string();
    node.rpc_port = None;
    node.rpc_user = None;
    node.rpc_password = None;
    node.implementation = Some("esplora".to_string());
    match parse_networks(&vec![network_config(1, vec![node])]) {
        Ok(networks) => {
            let info = &networks[0].nodes[0].info;
            assert_eq!(info.name, "Esplora Node");
            assert_eq!(info.id, 123);
            assert_eq!(info.implementation, "esplora");
            assert!(matches!(networks[0].nodes[0].backend, Backend::Esplora));
            assert_eq!(networks[0].nodes[0].url, "https://esplora.example.org/api");
        }
        Err(e) => panic!("Esplora backend config invalid: {:?}", e),
    }
}

#[test]
fn config_electrum_backend_test() {
    let mut node = node_config(421, "Electrum");
    node.description = "electrum".to_string();
    node.rpc_host = "tcp://localhost".to_string();
    node.rpc_port = Some(1337);
    node.rpc_user = None;
    node.rpc_password = None;
    node.implementation = Some("electrum".to_string());
    match parse_networks(&vec![network_config(1, vec![node])]) {
        Ok(networks) => {
            let info = &networks[0].nodes[0].info;
            assert_eq!(info.name, "Electrum");
            assert_eq!(info.id, 421);
            assert_eq!(info.implementation, "electrum");
            assert_eq!(networks[0].nodes[0].url, "tcp://localhost:1337");
        }
        Err(e) => panic!("Electrum backend config invalid: {:?}", e),
    }
}

#[test]
fn config_errors_each_kind() {
    assert!(matches!(parse_networks(&vec![]), Err(ConfigError::NoNetworks)));
    let mut unknown = node_config(0, "A");
    unknown.implementation = Some("bcoin".to_string());
    assert!(matches!(parse_networks(&vec![network_config(1, vec![unknown])]), Err(ConfigError::UnknownImplementation)));
    let mut no_auth = node_config(0, "A");
    no_auth.rpc_user = None;
    assert!(matches!(parse_networks(&vec![network_config(1, vec![no_auth])]), Err(ConfigError::NoBitcoinCoreRpcAuth)));
    let mut btcd = node_config(0, "A");
    btcd.implementation = Some("btcd".to_string());
    btcd.rpc_password = None;
    assert!(matches!(parse_networks(&vec![network_config(1, vec![btcd])]), Err(ConfigError::NoBtcdRpcAuth)));
    let mut cookie = node_config(0, "A");
    cookie.rpc_cookie_file = Some("/nowhere/.cookie".to_string());
    assert!(matches!(parse_networks(&vec![network_config(1, vec![cookie])]), Err(ConfigError::CookieFileDoesNotExist)));
}

#[test]
fn config_defaults_and_case() {
    let mut core = node_config(7, "Core");
    core.rpc_port = None;
    core.implementation = Some("Bitcoin Core".to_string());
    let mut net = network_config(3, vec![core]);
    net.pool_identification = Some(PoolIdentification { enable: true, network: None });
    let networks = parse_networks(&vec![net]).unwrap();
    let n = &networks[0].nodes[0];
    assert_eq!(n.url, "127.0.0.1:8332");
    assert!(n.use_rest);
    assert_eq!(n.info.implementation, "Bitcoin Core");
    assert!(networks[0].pool_identification.enable);
    assert!(matches!(Backend::from_name("ELECTRUM"), Ok(Backend::Electrum)));
    assert!(matches!(Backend::from_name("core"), Ok(Backend::BitcoinCore)));
    assert!(matches!(Backend::from_name("knots"), Err(ConfigError::UnknownImplementation)));
}

#[test]
fn backend_constructors_and_capabilities() {
    let btcd = BtcdNode::new(node_info(4), "127.0.0.1:8334".to_string(), "u".to_string(), "p".to_string());
    assert_eq!(btcd.rpc_url, "127.0.0.1:8334");
    assert!(!btcd.capabilities().batch_header_fetch);
    let esplora = Esplora::new(node_info(5), "https://blockstream.info/api".to_string());
    assert_eq!(esplora.api_url, "https://blockstream.info/api");
    assert!(matches!(esplora.capabilities().header_fetch_type, HeaderFetchType::Hash));
    let core = BitcoinCoreNode::new(node_info(6), "127.0.0.1:8332".to_string(), RpcAuth::UserPass("a".to_string(), "b".to_string()), true);
    assert!(core.capabilities().batch_header_fetch);
    assert!(matches!(electrum_capabilities().header_fetch_type, HeaderFetchType::Height));
}
