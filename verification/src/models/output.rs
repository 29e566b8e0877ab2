//! The outputs that a node is asked to create.

use vstd::prelude::*;

verus! {

/// An order to send an amount to a recipient.
///
/// Keys and amounts are kept as the bytes that encode them: what they mean
/// is the concern of the cryptography around this library.
#[derive(Clone, Debug, PartialEq, Eq)]
pub struct YAmountOutput {
    /// The sender's secret key, encoded.
    pub sk: Vec<u8>,
    /// The recipient's public key, encoded.
    pub to: Vec<u8>,
    /// The amount to send, encoded.
    pub amount: Vec<u8>,
}

/// An order to send the data of a file to a recipient.
#[derive(Clone, Debug, PartialEq, Eq)]
pub struct YDataOutput {
    /// The sender's secret key, encoded.
    pub sk: Vec<u8>,
    /// The recipient's public key, encoded.
    pub to: Vec<u8>,
    /// Where the data is read from.
    pub data_path: String,
}

} // verus!
