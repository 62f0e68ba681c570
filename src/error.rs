//! The errors of the library. Errors that outside crates report are carried
//! as their messages.
use vstd::prelude::*;

verus! {

/// A failed request to a node.
#[derive(Debug)]
pub enum FetchError {
    TokioJoin(String),
    BitcoinCoreRPC(String),
    BitcoinCoreREST(String),
    BtcdRPC(JsonRPCError),
    EsploraREST(EsploraRESTError),
    ElectrumClient(String),
    MinReq(String),
    /// The node answered, but with data that cannot be used.
    DataError(String),
}

/// A failed request to an Esplora server.
#[derive(Debug)]
pub enum EsploraRESTError {
    Http(String),
    NotImplemented,
}

/// A failed access to the header store.
#[derive(Debug)]
pub enum DbError {
    Rusqlite(String),
    DecodeHex(hex::FromHexError),
    BitcoinDeserialize(String),
}

/// A configuration that cannot be loaded.
#[derive(Debug)]
pub enum ConfigError {
    CookieFileDoesNotExist,
    NoBitcoinCoreRpcAuth,
    NoBtcdRpcAuth,
    NoNetworks,
    UnknownImplementation,
    DuplicateNodeId,
    DuplicateNetworkId,
    TomlError(String),
    ReadError(String),
    AddrError(String),
}

/// A failure that ends the program.
#[derive(Debug)]
pub enum MainError {
    Db(DbError),
    Fetch(FetchError),
    Config(ConfigError),
}

/// A failed JSON-RPC request.
#[derive(Debug)]
pub enum JsonRPCError {
    Http(String),
    JsonRpc(String),
    RpcUnexpectedResponseContents(String),
    MinReq(String),
    FromHex(hex::FromHexError),
    BitcoinFromHex(String),
    BitcoinDeserializeError(String),
    NotImplemented,
}

} // verus!
