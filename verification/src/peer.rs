//! Peer and connection identifiers.

use vstd::prelude::*;
use crate::bytes::{bytes_clone, bytes_eq};
use crate::error::ValidationError;

verus! {

/// What `libp2p::PeerId::from_bytes` makes of a byte string: the encoding
/// (`to_bytes`) of the peer id it parses to, or `None` where it refuses the
/// bytes.
pub uninterp spec fn peer_id_encoding(bytes: Seq<u8>) -> Option<Seq<u8>>;

/// Calls `libp2p::PeerId::from_bytes` and hands back the encoding of the
/// parsed peer id. The contract names the outcome; nothing is claimed about
/// which byte strings parse.
#[verifier::external_body]
fn parse_peer_id(data: &[u8]) -> (r: Option<Vec<u8>>)
    ensures
        match r {
            Some(bytes) => peer_id_encoding(data@) == Some(bytes@),
            None => peer_id_encoding(data@) is None,
        },
{
    match libp2p::PeerId::from_bytes(data) {
        Ok(peer_id) => Some(peer_id.to_bytes()),
        Err(_) => None,
    }
}

/// Calls `libp2p::PeerId::random`, which wraps 32 random bytes in an identity
/// multihash: the encoding is the code 0, the length 32 and those bytes.
#[verifier::external_body]
fn random_peer_id_bytes() -> (r: Vec<u8>)
    ensures
        r@.len() == 34,
        r@[0] == 0,
        r@[1] == 32,
{
    libp2p::PeerId::random().to_bytes()
}

/// The identity of a peer, held as the bytes of its encoding.
#[derive(Debug)]
pub struct PeerId {
    bytes: Vec<u8>,
}

impl View for PeerId {
    type V = Seq<u8>;

    closed spec fn view(&self) -> Seq<u8> {
        self.bytes@
    }
}

impl Clone for PeerId {
    fn clone(&self) -> (r: Self)
        ensures
            r@ == self@,
    {
        PeerId { bytes: bytes_clone(&self.bytes) }
    }
}

impl PeerId {
    /// Parses a peer id from its encoding.
    pub fn from_bytes(data: &[u8]) -> (r: Result<PeerId, ValidationError>)
        ensures
            match r {
                Ok(peer) => peer_id_encoding(data@) == Some(peer@),
                Err(e) => peer_id_encoding(data@) is None && e == ValidationError::InvalidPeerId,
            },
    {
        match parse_peer_id(data) {
            Some(bytes) => Ok(PeerId { bytes }),
            None => Err(ValidationError::InvalidPeerId),
        }
    }

    /// A peer id drawn at random.
    pub fn random() -> (r: PeerId)
        ensures
            r@.len() == 34,
    {
        PeerId { bytes: random_peer_id_bytes() }
    }

    /// The encoding of this peer id.
    pub fn to_bytes(&self) -> (r: Vec<u8>)
        ensures
            r@ == self@,
    {
        bytes_clone(&self.bytes)
    }

    /// Whether two peer ids are the same.
    pub fn same(&self, other: &PeerId) -> (r: bool)
        ensures
            r == (self@ == other@),
    {
        bytes_eq(&self.bytes, &other.bytes)
    }
}

/// The number that the host gives to one connection.
#[derive(Debug, Clone, Copy, PartialEq, Eq, Structural)]
pub struct ConnectionId(pub usize);

} // verus!
