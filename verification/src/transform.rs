//! The transform that an application may lay over the content of its
//! transactions, such as a compression.

use vstd::prelude::*;
use crate::types::{RawTransaction, Transaction};

verus! {

/// `std::io::Error`: the failure of a transform, carried as it is.
#[verifier::external_type_specification]
#[verifier::external_body]
pub struct ExIoError(std::io::Error);

/// A pair of operations on the content of transactions: one applied to what
/// is published, one to what is received. Either may fail.
pub trait DataTransform {
    /// Turns a received transaction into the one that the user sees.
    fn inbound_transform(&self, raw_transaction: RawTransaction) -> Result<
        Transaction,
        std::io::Error,
    >;

    /// Turns the content that the user publishes into the one that travels.
    fn outbound_transform(&self, data: Vec<u8>) -> Result<Vec<u8>, std::io::Error>;
}

/// The transform that changes nothing.
#[derive(Debug, Clone, Copy, PartialEq, Eq, Structural)]
pub struct IdentityTransform;

impl Default for IdentityTransform {
    fn default() -> (r: Self)
        ensures
            r == IdentityTransform,
    {
        IdentityTransform
    }
}

impl DataTransform for IdentityTransform {
    fn inbound_transform(&self, raw_transaction: RawTransaction) -> (r: Result<
        Transaction,
        std::io::Error,
    >)
        ensures
            r matches Ok(tx) && tx@ == raw_transaction@,
    {
        Ok(
            Transaction {
                from: raw_transaction.from,
                seqno: raw_transaction.seqno,
                data: raw_transaction.data,
            },
        )
    }

    fn outbound_transform(&self, data: Vec<u8>) -> (r: Result<Vec<u8>, std::io::Error>)
        ensures
            r matches Ok(out) && out@ == data@,
    {
        Ok(data)
    }
}

} // verus!
