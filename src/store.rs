//! The rows of the header store: one per `(network, hash, header)`, the
//! header kept as hex so that any SQL engine can hold it.
use vstd::prelude::*;

use crate::cache::hash_str_of;
use crate::error::DbError;
use crate::primitives::{hex_decode_bytes, hex_encode_bytes, hex_of, is_hex_string, lemma_hex_round_trip, lemma_unhex_len, unhex, Header, HEADER_LEN};
use crate::types::HeaderInfo;

verus! {

/// A row of the header store.
#[derive(Debug, Clone)]
pub struct HeaderRow {
    pub network: u32,
    pub height: u64,
    pub hash: String,
    pub header: String,
    pub miner: String,
}

/// Whether `r` is the row of `info` on `network`.
pub open spec fn is_row_of(r: HeaderRow, network: u32, info: HeaderInfo) -> bool {
    &&& r.network == network
    &&& r.height == info.height
    &&& r.hash@ == hash_str_of(info)
    &&& r.header@ == hex_of(info.header@)
    &&& r.miner@ == info.miner@
}

/// The row that stores a header of a network.
pub fn header_row(network: u32, info: &HeaderInfo) -> (r: HeaderRow)
    ensures
        is_row_of(r, network, *info),
{
    HeaderRow {
        network,
        height: info.height,
        hash: info.header.block_hash().to_hex_string(),
        header: hex_encode_bytes(&info.header.to_bytes()),
        miner: info.miner.clone(),
    }
}

/// The header that a stored row holds; a row whose header is not 160 hex
/// digits is an error.
pub fn header_info_from_row(row: &HeaderRow) -> (r: Result<HeaderInfo, DbError>)
    ensures
        r is Ok <==> is_hex_string(row.header@) && row.header@.len() == 2 * HEADER_LEN,
        r is Ok ==> r->Ok_0.height == row.height && r->Ok_0.header@ == unhex(row.header@)
            && r->Ok_0.miner@ == row.miner@,
{
    match hex_decode_bytes(row.header.as_str()) {
        Ok(bytes) => {
            proof {
                lemma_unhex_len(row.header@);
            }
            match Header::from_bytes(bytes) {
                Some(header) => Ok(HeaderInfo { height: row.height, header, miner: row.miner.clone() }),
                None => Err(DbError::BitcoinDeserialize(String::new())),
            }
        },
        Err(e) => Err(DbError::DecodeHex(e)),
    }
}

/// A header read back from the row it was stored in is the header stored:
/// height, bytes and miner.
pub proof fn lemma_row_round_trip(network: u32, info: HeaderInfo, row: HeaderRow)
    requires
        is_row_of(row, network, info),
        info.header@.len() == HEADER_LEN,
    ensures
        is_hex_string(row.header@) && row.header@.len() == 2 * HEADER_LEN,
        unhex(row.header@) == info.header@,
        row.height == info.height,
        row.miner@ == info.miner@,
{
    lemma_hex_round_trip(info.header@);
}

} // verus!
