//! The wallet of a node and the coins in it.

use crate::digest::YDigest64;
use crate::time::YTime;
use vstd::prelude::*;

verus! {

/// An output of a transaction that the wallet's owner can spend.
///
/// Keys and amounts are kept as the bytes that encode them: what they mean
/// is the concern of the cryptography around this library.
#[derive(Clone, Debug, PartialEq, Eq)]
pub struct YCoin {
    /// When the coin was received.
    pub date: YTime,
    /// The secret key that spends the coin, encoded.
    pub sk: Vec<u8>,
    /// The transaction that holds the output.
    pub tx_id: YDigest64,
    /// The place of the output in that transaction.
    pub idx: u32,
    /// The amount of the coin, encoded.
    pub amount: Vec<u8>,
    /// Whether the output carries data.
    pub has_data: bool,
}

/// A named set of coins, spent and unspent.
#[derive(Clone, Debug, PartialEq, Eq)]
pub struct YWallet {
    pub name: String,
    /// The sum of the unspent coins, encoded.
    pub balance: Vec<u8>,
    /// The coins that were spent.
    pub scoins: Vec<YCoin>,
    /// The coins that are left to spend.
    pub ucoins: Vec<YCoin>,
}

} // verus!
