//! What a connection handler reports to the behaviour.

use vstd::prelude::*;
use crate::bytes::append_bytes;
use crate::error::{CodecError, ValidationError};
use crate::proto;
use crate::proto::{RPCView, TransactionView};
use crate::protocol::{DogCodec, ProtocolConfig};
use crate::rpc::Sender;
use crate::types::{RawTransaction, Rpc, RpcOut, RpcOutView, RpcView};

verus! {

/// An event that a connection handler hands to the behaviour.
#[derive(Debug)]
pub enum HandlerEvent {
    /// A frame was received and decoded: the RPC with the transactions that
    /// passed validation, and the transactions that did not, each with the
    /// reason.
    Transaction { rpc: Rpc, invalid_transactions: Vec<(RawTransaction, ValidationError)> },
    /// An entry of the outbound queue was abandoned because its time ran out
    /// before it could be sent.
    TransactionDropped(RpcOut),
}

pub enum HandlerEventView {
    Transaction { rpc: RpcView, invalid_transactions: Seq<(TransactionView, ValidationError)> },
    TransactionDropped(RpcOutView),
}

/// The views of a run of transactions that failed validation.
pub open spec fn invalid_transactions_view(txs: Seq<(RawTransaction, ValidationError)>) -> Seq<
    (TransactionView, ValidationError),
> {
    Seq::new(txs.len(), |i: int| (txs[i].0@, txs[i].1))
}

impl View for HandlerEvent {
    type V = HandlerEventView;

    open spec fn view(&self) -> HandlerEventView {
        match self {
            HandlerEvent::Transaction { rpc, invalid_transactions } => HandlerEventView::Transaction {
                rpc: rpc@,
                invalid_transactions: invalid_transactions_view(invalid_transactions@),
            },
            HandlerEvent::TransactionDropped(rpc) => HandlerEventView::TransactionDropped(rpc@),
        }
    }
}

/// What a handler does next on the sending side.
#[derive(Debug)]
pub enum HandlerOut {
    /// This RPC is framed and written to the stream.
    Send(proto::RPC),
    /// This event is handed to the behaviour.
    Notify(HandlerEvent),
}

pub enum HandlerOutView {
    Send(RPCView),
    Notify(HandlerEventView),
}

impl View for HandlerOut {
    type V = HandlerOutView;

    open spec fn view(&self) -> HandlerOutView {
        match self {
            HandlerOut::Send(rpc) => HandlerOutView::Send(rpc@),
            HandlerOut::Notify(event) => HandlerOutView::Notify(event@),
        }
    }
}

/// Whether an entry has waited too long at `now`: it has a time limit and
/// that time has come.
pub open spec fn spec_expired(entry: RpcOutView, now: u64) -> bool {
    match entry.deadline() {
        Some(timeout) => timeout <= now,
        None => false,
    }
}

/// What becomes of the entry at the front of a queue at `now`: it is
/// abandoned and reported where it has waited too long, else sent as the RPC
/// that carries it.
pub open spec fn spec_outbound_step(entry: RpcOutView, now: u64) -> HandlerOutView {
    if spec_expired(entry, now) {
        HandlerOutView::Notify(HandlerEventView::TransactionDropped(entry))
    } else {
        HandlerOutView::Send(entry.protobuf())
    }
}

/// The state of one connection: the codec and the bytes that were received
/// and not yet decoded.
#[derive(Debug)]
pub struct Handler {
    codec: DogCodec,
    inbound: Vec<u8>,
}

impl Handler {
    /// The bytes that were received and not yet decoded.
    pub closed spec fn inbound(&self) -> Seq<u8> {
        self.inbound@
    }

    /// The codec of the connection.
    pub closed spec fn codec(&self) -> DogCodec {
        self.codec
    }

    /// A handler for a fresh connection.
    pub fn new(protocol_config: ProtocolConfig) -> (r: Self)
        ensures
            r.inbound() == Seq::<u8>::empty(),
            r.codec().max_length() == protocol_config.max_transmit_size,
            r.codec().validation_mode() == protocol_config.validation_mode,
    {
        Handler { codec: protocol_config.upgrade_inbound(), inbound: Vec::new() }
    }

    /// Takes the entry at the front of the peer's queue, if there is one.
    /// A transaction whose time limit has come at `now` is abandoned and
    /// reported as dropped; every other entry becomes the RPC to send.
    pub fn poll_outbound(&mut self, sender: &mut Sender, now: u64) -> (r: Option<HandlerOut>)
        ensures
            final(self).inbound() == old(self).inbound(),
            final(self).codec() == old(self).codec(),
            final(sender).capacity() == old(sender).capacity(),
            match r {
                Some(step) => old(sender)@.len() > 0 && final(sender)@ == old(sender)@.skip(1)
                    && step@ == spec_outbound_step(old(sender)@[0], now),
                None => old(sender)@.len() == 0 && final(sender)@ == old(sender)@,
            },
    {
        let rpc = match sender.try_recv() {
            Some(rpc) => rpc,
            None => {
                return None;
            },
        };
        let expired: bool = match &rpc {
            RpcOut::Publish { tx: _, timeout } => *timeout <= now,
            RpcOut::Forward { tx: _, timeout } => *timeout <= now,
            _ => false,
        };
        if expired {
            return Some(HandlerOut::Notify(HandlerEvent::TransactionDropped(rpc)));
        }
        Some(HandlerOut::Send(rpc.into_protobuf()))
    }

    /// Takes in bytes that arrived on the stream.
    pub fn receive(&mut self, bytes: &[u8])
        ensures
            final(self).inbound() == old(self).inbound() + bytes@,
            final(self).codec() == old(self).codec(),
    {
        append_bytes(&mut self.inbound, bytes);
    }

    /// Decodes the next frame among the bytes that arrived, as
    /// [`DogCodec::decode`] does.
    pub fn poll_inbound(&mut self) -> (r: Result<Option<HandlerEvent>, CodecError>)
        ensures
            final(self).codec() == old(self).codec(),
            crate::protocol::spec_decoded(
                old(self).codec().validation_mode(),
                old(self).codec().max_length() as nat,
                old(self).inbound(),
                final(self).inbound(),
                r,
            ),
    {
        self.codec.decode(&mut self.inbound)
    }
}

} // verus!
