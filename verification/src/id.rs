//! The identifier of a transaction: the 64-bit FNV-1a hash of its origin,
//! its sequence number and its content, as eight bytes.

use vstd::prelude::*;
use crate::proto::TransactionView;
use crate::types::{Transaction, TransactionId};

verus! {

/// The value that the hash starts from.
pub const FNV_OFFSET_BASIS: u64 = 0xcbf29ce484222325;

/// The factor of each step of the hash.
pub const FNV_PRIME: u64 = 0x100000001b3;

/// The hash after `bytes`, started from `hash`: for each byte in turn, the
/// byte is combined into the low bits by exclusive or, and the result is
/// multiplied by the prime, modulo 2^64.
pub open spec fn spec_fnv1a(hash: u64, bytes: Seq<u8>) -> u64
    decreases bytes.len(),
{
    if bytes.len() == 0 {
        hash
    } else {
        spec_fnv1a((hash ^ (bytes[0] as u64)).wrapping_mul(FNV_PRIME), bytes.skip(1))
    }
}

/// The eight bytes of `v`, the most significant first.
pub open spec fn spec_be_bytes(v: u64) -> Seq<u8> {
    seq![
        (v / 0x100_0000_0000_0000) as u8,
        (v / 0x1_0000_0000_0000 % 256) as u8,
        (v / 0x100_0000_0000 % 256) as u8,
        (v / 0x1_0000_0000 % 256) as u8,
        (v / 0x100_0000 % 256) as u8,
        (v / 0x1_0000 % 256) as u8,
        (v / 0x100 % 256) as u8,
        (v % 256) as u8,
    ]
}

/// The bytes that are hashed for a transaction: its origin, its sequence
/// number as eight bytes, its content.
pub open spec fn spec_id_input(tx: TransactionView) -> Seq<u8> {
    tx.from + spec_be_bytes(tx.seqno) + tx.data
}

/// The identifier of a transaction. It is the same on every node.
pub open spec fn spec_transaction_id(tx: TransactionView) -> Seq<u8> {
    spec_be_bytes(spec_fnv1a(FNV_OFFSET_BASIS, spec_id_input(tx)))
}

/// Hashing a run of bytes is hashing its front, then its back.
pub proof fn lemma_fnv1a_concat(hash: u64, a: Seq<u8>, b: Seq<u8>)
    ensures
        spec_fnv1a(hash, a + b) == spec_fnv1a(spec_fnv1a(hash, a), b),
    decreases a.len(),
{
    if a.len() == 0 {
        assert(a + b =~= b);
    } else {
        assert((a + b)[0] == a[0]);
        assert((a + b).skip(1) =~= a.skip(1) + b);
        lemma_fnv1a_concat((hash ^ (a[0] as u64)).wrapping_mul(FNV_PRIME), a.skip(1), b);
    }
}

/// Carries the hash on over `bytes`.
pub fn fnv1a_update(hash: u64, bytes: &[u8]) -> (r: u64)
    ensures
        r == spec_fnv1a(hash, bytes@),
{
    let mut h: u64 = hash;
    let mut i: usize = 0;
    assert(bytes@.skip(0) =~= bytes@);
    while i < bytes.len()
        invariant
            i <= bytes@.len(),
            spec_fnv1a(hash, bytes@) == spec_fnv1a(h, bytes@.skip(i as int)),
        decreases bytes@.len() - i,
    {
        assert(bytes@.skip(i as int)[0] == bytes@[i as int]);
        assert(bytes@.skip(i as int).skip(1) =~= bytes@.skip(i + 1));
        h = (h ^ (bytes[i] as u64)).wrapping_mul(FNV_PRIME);
        i += 1;
    }
    h
}

/// The eight bytes of `v`, the most significant first.
pub fn be_bytes(v: u64) -> (r: Vec<u8>)
    ensures
        r@ == spec_be_bytes(v),
{
    let mut out: Vec<u8> = Vec::new();
    out.push((v / 0x100_0000_0000_0000) as u8);
    out.push((v / 0x1_0000_0000_0000 % 256) as u8);
    out.push((v / 0x100_0000_0000 % 256) as u8);
    out.push((v / 0x1_0000_0000 % 256) as u8);
    out.push((v / 0x100_0000 % 256) as u8);
    out.push((v / 0x1_0000 % 256) as u8);
    out.push((v / 0x100 % 256) as u8);
    out.push((v % 256) as u8);
    assert(out@ =~= spec_be_bytes(v));
    out
}

/// The identifier of a transaction.
pub fn transaction_id(tx: &Transaction) -> (r: TransactionId)
    ensures
        r@ == spec_transaction_id(tx@),
{
    let from = tx.from.to_bytes();
    let seqno = be_bytes(tx.seqno);
    let h1 = fnv1a_update(FNV_OFFSET_BASIS, from.as_slice());
    let h2 = fnv1a_update(h1, seqno.as_slice());
    let h3 = fnv1a_update(h2, tx.data.as_slice());
    proof {
        lemma_fnv1a_concat(FNV_OFFSET_BASIS, from@, seqno@);
        lemma_fnv1a_concat(FNV_OFFSET_BASIS, from@ + seqno@, tx.data@);
    }
    TransactionId(be_bytes(h3))
}

} // verus!
