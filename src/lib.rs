//! A multi-node Bitcoin block-tree observatory: the header graph that the
//! reports of many nodes are merged into, the reducer that turns it into a
//! small view, the discovery of headers a node knows and the graph does not,
//! and the snapshot cache that the HTTP handlers read.

pub mod error;
pub mod primitives;
pub mod rss;
pub mod store;
pub mod text;
pub mod types;
pub mod config;
pub mod discovery;
pub mod graph;
pub mod headertree;
pub mod jsonrpc;
pub mod backend;
pub mod cache;
pub mod worker;
