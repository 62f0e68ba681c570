//! Reading the answers of a btcd node's JSON-RPC interface. The request
//! itself and the JSON decoding are the caller's.
use vstd::prelude::*;
use vstd::string::*;

use crate::error::JsonRPCError;
use crate::primitives::{hex_decode_bytes, is_hex_string, unhex, BlockHash, Header, HASH_LEN, HEADER_LEN};
use crate::text::{push_decimal, push_str};
use crate::types::ChainTip;

verus! {

/// The error object of a JSON-RPC response.
#[derive(Debug, Clone)]
pub struct RpcErrorObject {
    pub code: i32,
    pub message: String,
}

/// A JSON-RPC response.
#[derive(Debug)]
pub struct Response<T> {
    pub jsonrpc: String,
    pub result: Option<T>,
    pub error: Option<RpcErrorObject>,
    pub id: u64,
}

/// The error that a response reports, as the error of request `method`.
pub fn check_error(error: &Option<RpcErrorObject>, method: &str) -> (r: Option<JsonRPCError>)
    ensures
        r is Some <==> error is Some,
        r is Some ==> r->Some_0 is JsonRpc,
{
    match error {
        Some(e) => {
            let mut m = String::new();
            push_str(&mut m, "JSON RPC response for request '");
            push_str(&mut m, method);
            push_str(&mut m, "' contains error: Error(code=");
            if e.code < 0 {
                push_str(&mut m, "-");
                push_decimal(&mut m, (0i64 - e.code as i64) as u64);
            } else {
                push_decimal(&mut m, e.code as u64);
            }
            push_str(&mut m, ", message='");
            push_str(&mut m, e.message.as_str());
            push_str(&mut m, "')");
            Some(JsonRPCError::JsonRpc(m))
        },
        None => None,
    }
}

/// The chain tips of a `getchaintips` response: its error if it reports
/// one, else its result; a response without result is an error too.
pub fn btcd_chaintips(response: Response<Vec<ChainTip>>) -> (r: Result<Vec<ChainTip>, JsonRPCError>)
    ensures
        response.error is Some ==> r is Err && r->Err_0 is JsonRpc,
        response.error is None && response.result is Some ==> r == Ok::<Vec<ChainTip>, JsonRPCError>(response.result->Some_0),
        response.error is None && response.result is None ==> r is Err && r->Err_0 is JsonRpc,
{
    if let Some(e) = check_error(&response.error, "getchaintips") {
        return Err(e);
    }
    match response.result {
        Some(tips) => Ok(tips),
        None => Err(JsonRPCError::JsonRpc(String::from_str("JSON RPC response for request 'getchaintips' was empty."))),
    }
}

/// The header of a `getblockheader` response (serialised, as 160 hex
/// digits): its error if it reports one; a result of another length is an
/// unexpected content, one that is not hex a hex error.
pub fn btcd_blockheader(response: Response<String>) -> (r: Result<Header, JsonRPCError>)
    ensures
        response.error is Some ==> r is Err && r->Err_0 is JsonRpc,
        response.error is None ==> {
            let hex = match response.result { Some(s) => s@, None => Seq::empty() };
            &&& hex.len() != 2 * HEADER_LEN ==> r is Err && r->Err_0 is RpcUnexpectedResponseContents
            &&& hex.len() == 2 * HEADER_LEN && !is_hex_string(hex) ==> r is Err && r->Err_0 is FromHex
            &&& hex.len() == 2 * HEADER_LEN && is_hex_string(hex) ==> r is Ok && r->Ok_0@ == unhex(hex)
        },
{
    if let Some(e) = check_error(&response.error, "getblockheader") {
        return Err(e);
    }
    let hex = match response.result {
        Some(s) => s,
        None => String::new(),
    };
    if hex.unicode_len() != 2 * HEADER_LEN {
        let mut m = String::new();
        push_str(&mut m, "JSON RPC response for request 'getblockheader' has not the correct length for a Bitcoin block header. Expected 160 hex chars but got ");
        push_decimal(&mut m, hex.unicode_len() as u64);
        push_str(&mut m, " chars. Content: ");
        push_str(&mut m, hex.as_str());
        return Err(JsonRPCError::RpcUnexpectedResponseContents(m));
    }
    match hex_decode_bytes(hex.as_str()) {
        Ok(bytes) => {
            proof {
                crate::primitives::lemma_unhex_len(hex@);
            }
            match Header::from_bytes(bytes) {
                Some(h) => Ok(h),
                None => Err(JsonRPCError::RpcUnexpectedResponseContents(String::from_str("block header of the wrong length"))),
            }
        },
        Err(e) => Err(JsonRPCError::FromHex(e)),
    }
}

/// The hash of a `getblockhash` response (64 hex digits, displayed order):
/// its error if it reports one; a result of another length is an
/// unexpected content, one that is not hex a hex error.
pub fn btcd_blockhash(response: Response<String>) -> (r: Result<BlockHash, JsonRPCError>)
    ensures
        response.error is Some ==> r is Err && r->Err_0 is JsonRpc,
        response.error is None ==> {
            let hex = match response.result { Some(s) => s@, None => Seq::empty() };
            &&& hex.len() != 2 * HASH_LEN ==> r is Err && r->Err_0 is RpcUnexpectedResponseContents
            &&& hex.len() == 2 * HASH_LEN && !is_hex_string(hex) ==> r is Err && r->Err_0 is BitcoinFromHex
            &&& hex.len() == 2 * HASH_LEN && is_hex_string(hex) ==> r is Ok && r->Ok_0@ == unhex(hex).reverse()
        },
{
    if let Some(e) = check_error(&response.error, "getblockhash") {
        return Err(e);
    }
    let hex = match response.result {
        Some(s) => s,
        None => String::new(),
    };
    if hex.unicode_len() != 2 * HASH_LEN {
        let mut m = String::new();
        push_str(&mut m, "JSON RPC response for request 'getblockhash' has not the correct length for a Bitcoin block hash. Expected 64 hex chars but got ");
        push_decimal(&mut m, hex.unicode_len() as u64);
        push_str(&mut m, " chars. Content: ");
        push_str(&mut m, hex.as_str());
        return Err(JsonRPCError::RpcUnexpectedResponseContents(m));
    }
    match BlockHash::from_hex_string(hex.as_str()) {
        Some(h) => Ok(h),
        None => Err(JsonRPCError::BitcoinFromHex(String::from_str("invalid hex in block hash"))),
    }
}

} // verus!
