//! Shapes of the JSON payloads a remote node returns: block headers, block
//! hashes, and transaction script data. These are plain data carriers with
//! no behaviour of their own.

use vstd::prelude::*;

verus! {

/// The chain-tip block count of a node.
#[derive(Debug, PartialEq, Eq)]
pub struct BlockInfoResult {
    pub blocks: u32,
}

/// A node-information reply.
#[derive(Debug, PartialEq, Eq)]
pub struct NodeInfo {
    pub result: BlockInfoResult,
}

/// A block-hash reply.
#[derive(Debug, PartialEq, Eq)]
pub struct RpcJsonBlockhash {
    pub result: String,
}

/// One block header with the identifiers of its transactions.
#[derive(Debug, PartialEq, Eq)]
pub struct RpcJsonBlockResult {
    pub height: i64,
    pub hash: String,
    pub merkleroot: String,
    pub nextblockhash: String,
    pub previousblockhash: String,
    pub nonce: i64,
    pub size: i32,
    pub time: i32,
    pub version: i32,
    pub tx: Vec<String>,
}

/// A block reply.
#[derive(Debug, PartialEq, Eq)]
pub struct RpcJsonBlock {
    pub result: RpcJsonBlockResult,
}

/// The unlocking script of a transaction input.
#[derive(Debug, PartialEq, Eq)]
pub struct TransactionScriptSig {
    pub script_asm: String,
    pub hex: String,
}

/// One transaction input: coinbase data or a reference to a spent output.
#[derive(Debug, PartialEq, Eq)]
pub struct TransactionVin {
    pub sequence: u32,
    /// The raw unlocking data of a coinbase input.
    pub coinbase: Option<String>,
    pub txid: Option<String>,
    pub vout: Option<u32>,
    /// The unlocking script of a non-coinbase input.
    pub script_sig: Option<TransactionScriptSig>,
    pub txinwitness: Option<Vec<String>>,
}

/// The locking script of a coinbase output.
#[derive(Debug, PartialEq, Eq)]
pub struct CoinbaseTransactionScriptPubKey {
    pub script_asm: String,
    pub desc: String,
    pub hex: String,
}

/// The locking script of a transfer output.
#[derive(Debug, PartialEq, Eq)]
pub struct TransferTransactionScriptPubKey {
    pub script_asm: String,
    pub desc: String,
    pub hex: String,
    pub pub_type: String,
    pub txid: String,
    pub vout: i16,
    pub req_sigs: i64,
    pub addresses: Vec<String>,
}

/// The locking script of an output of a raw transaction, with the optional
/// fields a node may omit.
#[derive(Debug, PartialEq, Eq)]
pub struct RawTransactionResultVoutScriptPubKey {
    pub script_asm: String,
    pub desc: String,
    pub hex: String,
    pub pub_type: Option<String>,
    pub req_sigs: Option<i64>,
    pub addresses: Option<Vec<String>>,
}

} // verus!
