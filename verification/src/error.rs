//! Errors reported to the caller of `publish` and by the decoder.

use vstd::prelude::*;
use vstd::std_specs::convert::FromSpecImpl;

verus! {

/// Why a transaction was not published.
#[derive(Debug)]
pub enum PublishError {
    /// The transaction was published before.
    Duplicate,
    /// No peer is connected.
    InsufficientPeers,
    /// The content, once transformed, is longer than a frame may be.
    TransactionTooLarge,
    /// The outbound transform failed.
    TransformFailed(std::io::Error),
    /// The queue of every peer was full. The number is that of the peers
    /// that were tried.
    AllQueuesFull(usize),
}

pub enum PublishErrorView {
    Duplicate,
    InsufficientPeers,
    TransactionTooLarge,
    TransformFailed,
    AllQueuesFull(usize),
}

impl View for PublishError {
    type V = PublishErrorView;

    open spec fn view(&self) -> PublishErrorView {
        match self {
            PublishError::Duplicate => PublishErrorView::Duplicate,
            PublishError::InsufficientPeers => PublishErrorView::InsufficientPeers,
            PublishError::TransactionTooLarge => PublishErrorView::TransactionTooLarge,
            PublishError::TransformFailed(_) => PublishErrorView::TransformFailed,
            PublishError::AllQueuesFull(n) => PublishErrorView::AllQueuesFull(*n),
        }
    }
}

impl PublishError {
    /// The failure of the transform that lies behind this error, if any.
    pub fn source(&self) -> (r: Option<&std::io::Error>)
        ensures
            r is Some <==> self@ == PublishErrorView::TransformFailed,
            match (self, r) {
                (PublishError::TransformFailed(err), Some(source)) => source == err,
                _ => true,
            },
    {
        match self {
            PublishError::TransformFailed(err) => Some(err),
            _ => None,
        }
    }
}

impl FromSpecImpl<std::io::Error> for PublishError {
    open spec fn obeys_from_spec() -> bool {
        true
    }

    open spec fn from_spec(err: std::io::Error) -> Self {
        PublishError::TransformFailed(err)
    }
}

impl From<std::io::Error> for PublishError {
    fn from(err: std::io::Error) -> (r: Self) {
        PublishError::TransformFailed(err)
    }
}

/// Why a received transaction was set aside by the decoder.
#[derive(Debug, Clone, Copy, PartialEq, Eq, Structural)]
pub enum ValidationError {
    /// The `from` field does not hold a peer id.
    InvalidPeerId,
}

/// Why a frame could not be decoded. Any of these closes the connection.
#[derive(Debug, Clone, Copy, PartialEq, Eq, Structural)]
pub enum CodecError {
    /// The length in front of the frame is no 64-bit variable-length integer
    /// in its shortest encoding.
    InvalidLength,
    /// The frame is longer than the configured maximum.
    TooLarge,
    /// The body of the frame is no RPC.
    Malformed,
}

} // verus!
