//! The protocol on a stream: frames that each hold one RPC, and what the
//! decoder makes of a frame.

use vstd::prelude::*;
use crate::config::ValidationMode;
use crate::error::{CodecError, ValidationError};
use crate::handler::{invalid_transactions_view, HandlerEvent, HandlerEventView};
use crate::peer::{peer_id_encoding, PeerId};
use crate::proto;
use crate::proto::{RPCView, TransactionView};
use crate::types::{
    control_actions_view,
    raw_transactions_view,
    spec_control_actions,
    ControlAction,
    HaveTx,
    RawTransaction,
    ResetRoute,
    Rpc,
    TransactionId,
};
use crate::varint::{
    lemma_encode_varint_minimal,
    lemma_read_varint_of_encoding,
    read_varint,
    spec_encode_varint,
    spec_read_varint,
    write_varint,
    VarintRead,
    VarintView,
};

verus! {

/// The identifier of the protocol.
pub const DOG_PROTOCOL: &'static str = "/dog/1.0.0";

/// The largest frame that is accepted where nothing else is configured.
pub const DEFAULT_MAX_TRANSMIT_SIZE: usize = 65536;

/// What a stream is upgraded with.
#[derive(Debug, Clone, Copy, PartialEq, Eq, Structural)]
pub struct ProtocolConfig {
    /// The largest frame that is accepted, in bytes.
    pub max_transmit_size: usize,
    /// How much of an incoming transaction is checked.
    pub validation_mode: ValidationMode,
}

impl Default for ProtocolConfig {
    fn default() -> (r: Self)
        ensures
            r == (ProtocolConfig {
                max_transmit_size: DEFAULT_MAX_TRANSMIT_SIZE,
                validation_mode: ValidationMode::Strict,
            }),
    {
        ProtocolConfig {
            max_transmit_size: DEFAULT_MAX_TRANSMIT_SIZE,
            validation_mode: ValidationMode::Strict,
        }
    }
}

impl ProtocolConfig {
    /// The identifier under which the protocol is negotiated.
    pub fn protocol_info(&self) -> (r: &'static str)
        ensures
            r@ == DOG_PROTOCOL@,
    {
        DOG_PROTOCOL
    }

    /// The codec for an inbound stream.
    pub fn upgrade_inbound(self) -> (r: DogCodec)
        ensures
            r.max_length() == self.max_transmit_size,
            r.validation_mode() == self.validation_mode,
    {
        DogCodec::new(self.max_transmit_size, self.validation_mode)
    }

    /// The codec for an outbound stream.
    pub fn upgrade_outbound(self) -> (r: DogCodec)
        ensures
            r.max_length() == self.max_transmit_size,
            r.validation_mode() == self.validation_mode,
    {
        DogCodec::new(self.max_transmit_size, self.validation_mode)
    }
}

/// What the front of a receive buffer holds.
pub enum FrameView {
    /// More bytes are needed before anything can be said.
    Incomplete,
    /// The length is no 64-bit variable-length integer, or not in its
    /// shortest encoding.
    InvalidLength,
    /// The announced length is over the maximum.
    TooLarge,
    /// A whole frame, which takes the first `len` bytes of the buffer.
    Frame { body: Seq<u8>, len: nat },
}

/// A frame: the length of the body, then the body.
pub open spec fn spec_frame_encoding(body: Seq<u8>) -> Seq<u8> {
    spec_encode_varint(body.len()) + body
}

/// Reads one frame from the front of `src`.
pub open spec fn spec_read_frame(src: Seq<u8>, max: nat) -> FrameView {
    match spec_read_varint(src) {
        VarintView::Truncated => FrameView::Incomplete,
        VarintView::Malformed => FrameView::InvalidLength,
        VarintView::Value { value, len } => if len > 1 && src[len - 1] == 0 {
            FrameView::InvalidLength
        } else if value > max {
            FrameView::TooLarge
        } else if src.len() < len + value {
            FrameView::Incomplete
        } else {
            FrameView::Frame {
                body: src.subrange(len as int, (len + value) as int),
                len: (len + value) as nat,
            }
        },
    }
}

/// The law of the framing: a frame that was written is read back, with what
/// follows it left in the buffer, provided it is not over the maximum.
pub proof fn lemma_frame_round_trip(body: Seq<u8>, rest: Seq<u8>, max: nat)
    requires
        body.len() <= max,
        body.len() <= u64::MAX,
    ensures
        spec_read_frame(spec_frame_encoding(body) + rest, max) == (FrameView::Frame {
            body,
            len: spec_frame_encoding(body).len(),
        }),
{
    let enc = spec_encode_varint(body.len());
    let src = spec_frame_encoding(body) + rest;
    assert(src =~= enc + (body + rest));
    lemma_read_varint_of_encoding(body.len() as u64, body + rest);
    lemma_encode_varint_minimal(body.len());
    assert(src[enc.len() - 1] == enc.last());
    assert(src.subrange(enc.len() as int, (enc.len() + body.len()) as int) =~= body);
}

/// The transactions of a frame whose `from` field holds a peer id, in order,
/// each with the encoding of that peer id as its origin.
pub open spec fn spec_valid_transactions(txs: Seq<TransactionView>) -> Seq<TransactionView>
    decreases txs.len(),
{
    if txs.len() == 0 {
        Seq::empty()
    } else {
        let init = spec_valid_transactions(txs.drop_last());
        match peer_id_encoding(txs.last().from) {
            Some(from) => init.push(TransactionView { from, ..txs.last() }),
            None => init,
        }
    }
}

/// The transactions of a frame whose `from` field holds no peer id, in order.
pub open spec fn spec_invalid_transactions(txs: Seq<TransactionView>) -> Seq<TransactionView>
    decreases txs.len(),
{
    if txs.len() == 0 {
        Seq::empty()
    } else {
        let init = spec_invalid_transactions(txs.drop_last());
        match peer_id_encoding(txs.last().from) {
            Some(from) => init,
            None => init.push(txs.last()),
        }
    }
}

/// Whether `b` is `a` but for the origin.
pub open spec fn same_but_origin(a: TransactionView, b: TransactionView) -> bool {
    a.seqno == b.seqno && a.data == b.data
}

/// Whether `placed` holds the transactions of `txs` in order, each under an
/// origin of its own, with the given reason where one is given.
pub open spec fn spec_placeholders(
    placed: Seq<(TransactionView, ValidationError)>,
    txs: Seq<TransactionView>,
) -> bool {
    &&& placed.len() == txs.len()
    &&& forall|i: int| 0 <= i < placed.len() ==> same_but_origin(#[trigger] placed[i].0, txs[i])
}

/// Whether `placed` holds the transactions of `txs` in order, each under an
/// origin of its own.
pub open spec fn spec_substituted(placed: Seq<TransactionView>, txs: Seq<TransactionView>) -> bool {
    &&& placed.len() == txs.len()
    &&& forall|i: int| 0 <= i < placed.len() ==> same_but_origin(#[trigger] placed[i], txs[i])
}

/// Whether `event` is what the decoder makes of `rpc` under `mode`.
///
/// The control part becomes the `have_tx` messages in order, then the
/// `reset_route` messages. In strict mode, the transactions whose `from`
/// field holds a peer id are kept, each under that peer id, and the others
/// are listed as invalid, each under a peer id of its own and with the reason
/// `InvalidPeerId`. In unchecked mode every transaction is kept, each under a
/// peer id of its own, and none is invalid.
pub open spec fn spec_event_of(mode: ValidationMode, rpc: RPCView, event: HandlerEventView) -> bool {
    match event {
        HandlerEventView::Transaction { rpc: out, invalid_transactions } => {
            &&& out.control_msgs == match rpc.control {
                Some(control) => spec_control_actions(control),
                None => Seq::empty(),
            }
            &&& mode == ValidationMode::Strict ==> {
                &&& out.transactions == spec_valid_transactions(rpc.txs)
                &&& spec_placeholders(invalid_transactions, spec_invalid_transactions(rpc.txs))
                &&& forall|i: int|
                    0 <= i < invalid_transactions.len() ==> (#[trigger] invalid_transactions[i]).1
                        == ValidationError::InvalidPeerId
            }
            &&& mode == ValidationMode::Unchecked ==> {
                &&& spec_substituted(out.transactions, rpc.txs)
                &&& invalid_transactions.len() == 0
            }
        },
        HandlerEventView::TransactionDropped(_) => false,
    }
}

/// Whether `r` and `after` are what decoding makes of the receive buffer
/// `before`.
///
/// While the frame at the front is incomplete, the buffer stays as it is and
/// nothing is decoded. A length that cannot be read or is over `max` is an
/// error, and the buffer stays as it is. A complete frame leaves the buffer,
/// also where its body is no RPC, which is an error.
pub open spec fn spec_decoded(
    mode: ValidationMode,
    max: nat,
    before: Seq<u8>,
    after: Seq<u8>,
    r: Result<Option<HandlerEvent>, CodecError>,
) -> bool {
    match spec_read_frame(before, max) {
        FrameView::Incomplete => r matches Ok(None) && after == before,
        FrameView::InvalidLength => r matches Err(CodecError::InvalidLength) && after == before,
        FrameView::TooLarge => r matches Err(CodecError::TooLarge) && after == before,
        FrameView::Frame { body, len } => {
            &&& after == before.skip(len as int)
            &&& match RPCView::parse(body) {
                Some(rpc) => r matches Ok(Some(event)) && spec_event_of(mode, rpc, event@),
                None => r matches Err(CodecError::Malformed),
            }
        },
    }
}

/// Turns a transaction of the wire format into one of the protocol, given
/// what came of its origin: `Ok` with the peer id that its `from` field
/// holds, or `Err` with the peer id that stands in for one that could not be
/// read.
pub fn classify_transaction(tx: proto::Transaction, source: Result<PeerId, PeerId>) -> (r: Result<
    RawTransaction,
    (RawTransaction, ValidationError),
>)
    ensures
        match (source, r) {
            (Ok(from), Ok(raw)) => raw@ == (TransactionView { from: from@, ..tx@ }),
            (Err(from), Err((raw, reason))) => raw@ == (TransactionView { from: from@, ..tx@ })
                && reason == ValidationError::InvalidPeerId,
            _ => false,
        },
{
    match source {
        Ok(from) => Ok(RawTransaction { from, seqno: tx.seqno, data: tx.data }),
        Err(from) => Err(
            (RawTransaction { from, seqno: tx.seqno, data: tx.data }, ValidationError::InvalidPeerId),
        ),
    }
}

/// The control messages that a control part stands for: its `have_tx`
/// entries in order, then its `reset_route` entries.
pub fn control_actions(control: proto::ControlMessage) -> (r: Vec<ControlAction>)
    ensures
        control_actions_view(r@) == spec_control_actions(control@),
{
    let ghost want = spec_control_actions(control@);
    let mut out: Vec<ControlAction> = Vec::new();
    let n: usize = control.have_tx.len();
    let mut i: usize = 0;
    while i < n
        invariant
            i <= n,
            n == control.have_tx@.len(),
            want == spec_control_actions(control@),
            control_actions_view(out@) == want.take(i as int),
        decreases n - i,
    {
        let entry = control.have_tx[i].clone();
        let ghost before = control_actions_view(out@);
        out.push(ControlAction::HaveTx(HaveTx { tx_id: TransactionId(entry.tx_id) }));
        assert(control_actions_view(out@) =~= before.push(want[i as int]));
        assert(control_actions_view(out@) =~= want.take(i + 1));
        i += 1;
    }
    let m: usize = control.reset_route.len();
    let mut j: usize = 0;
    while j < m
        invariant
            j <= m,
            m == control.reset_route@.len(),
            n == control.have_tx@.len(),
            want == spec_control_actions(control@),
            control_actions_view(out@) == want.take(n + j),
        decreases m - j,
    {
        let ghost before = control_actions_view(out@);
        out.push(ControlAction::ResetRoute(ResetRoute {  }));
        assert(control_actions_view(out@) =~= before.push(want[n + j]));
        assert(control_actions_view(out@) =~= want.take(n + j + 1));
        j += 1;
    }
    assert(want.take(n + m) =~= want);
    out
}

/// Frames RPCs on the way out and reads them on the way in.
#[derive(Debug)]
pub struct DogCodec {
    validation_mode: ValidationMode,
    max_length: usize,
}

impl DogCodec {
    /// The largest frame that is accepted.
    pub closed spec fn max_length(&self) -> usize {
        self.max_length
    }

    /// How much of an incoming transaction is checked.
    pub closed spec fn validation_mode(&self) -> ValidationMode {
        self.validation_mode
    }

    pub fn new(max_length: usize, validation_mode: ValidationMode) -> (r: DogCodec)
        ensures
            r.max_length() == max_length,
            r.validation_mode() == validation_mode,
    {
        DogCodec { validation_mode, max_length }
    }

    /// Appends to `dst` the frame of `item`: the length of its body as a
    /// variable-length integer, then the body.
    pub fn encode(&mut self, item: proto::RPC, dst: &mut Vec<u8>) -> (r: Result<(), CodecError>)
        ensures
            r is Ok,
            *final(self) == *old(self),
            final(dst)@ == old(dst)@ + spec_frame_encoding(item@.encoding()),
    {
        let body = item.to_bytes();
        write_varint(body.len() as u64, dst);
        crate::bytes::append_bytes(dst, body.as_slice());
        assert(dst@ =~= old(dst)@ + spec_frame_encoding(item@.encoding()));
        Ok(())
    }

    /// Takes one frame from the front of `src` and reads the RPC in it.
    ///
    /// While the frame is incomplete, `src` is left as it is and `None` comes
    /// back. A length that cannot be read, is not in its shortest encoding or
    /// is over the maximum is an error,
    /// and `src` is left as it is. A complete frame is removed from `src`,
    /// also where its body turns out to be no RPC.
    pub fn decode_frame(&mut self, src: &mut Vec<u8>) -> (r: Result<Option<proto::RPC>, CodecError>)
        ensures
            *final(self) == *old(self),
            match spec_read_frame(old(src)@, old(self).max_length() as nat) {
                FrameView::Incomplete => r == Ok::<Option<proto::RPC>, CodecError>(None)
                    && final(src)@ == old(src)@,
                FrameView::InvalidLength => r == Err::<Option<proto::RPC>, CodecError>(
                    CodecError::InvalidLength,
                ) && final(src)@ == old(src)@,
                FrameView::TooLarge => r == Err::<Option<proto::RPC>, CodecError>(
                    CodecError::TooLarge,
                ) && final(src)@ == old(src)@,
                FrameView::Frame { body, len } => {
                    &&& final(src)@ == old(src)@.skip(len as int)
                    &&& match RPCView::parse(body) {
                        Some(rpc) => r matches Ok(Some(out)) && out@ == rpc,
                        None => r == Err::<Option<proto::RPC>, CodecError>(CodecError::Malformed),
                    }
                },
            },
    {
        assert(src@.skip(0) =~= src@);
        let (length, start) = match read_varint(src.as_slice(), 0) {
            VarintRead::Value(length, start) => (length, start),
            VarintRead::Truncated => {
                return Ok(None);
            },
            VarintRead::Malformed => {
                return Err(CodecError::InvalidLength);
            },
        };
        if start > 1 && src[start - 1] == 0 {
            return Err(CodecError::InvalidLength);
        }
        if length > self.max_length as u64 {
            return Err(CodecError::TooLarge);
        }
        if ((src.len() - start) as u64) < length {
            return Ok(None);
        }
        let end: usize = start + length as usize;
        let rest = src.split_off(end);
        let parsed = proto::RPC::from_reader(vstd::slice::slice_subrange(src.as_slice(), start, end));
        assert(src@.subrange(start as int, end as int) =~= old(src)@.subrange(
            start as int,
            end as int,
        ));
        *src = rest;
        assert(src@ =~= old(src)@.skip(end as int));
        match parsed {
            Ok(rpc) => Ok(Some(rpc)),
            Err(_) => Err(CodecError::Malformed),
        }
    }

    /// Turns an RPC of the wire format into the event for the behaviour.
    ///
    /// In strict mode, a transaction whose `from` field holds a peer id is
    /// kept under that peer id; one whose `from` field holds none goes to the
    /// list of invalid transactions, under a peer id drawn at random, and the
    /// others are still handled. In unchecked mode every transaction is kept,
    /// each under a peer id drawn at random. The control part becomes the
    /// `have_tx` messages in order, then the `reset_route` messages.
    pub fn validate(&self, rpc: proto::RPC) -> (r: HandlerEvent)
        ensures
            spec_event_of(self.validation_mode(), rpc@, r@),
    {
        let proto::RPC { txs, control } = rpc;
        let ghost all = proto::txs_view(txs@);
        let strict: bool = match self.validation_mode {
            ValidationMode::Strict => true,
            ValidationMode::Unchecked => false,
        };
        let mut transactions: Vec<RawTransaction> = Vec::new();
        let mut invalid_transactions: Vec<(RawTransaction, ValidationError)> = Vec::new();
        let n: usize = txs.len();
        let mut i: usize = 0;
        assert(raw_transactions_view(transactions@) =~= spec_valid_transactions(all.take(0)));
        assert(raw_transactions_view(transactions@) =~= all.take(0));
        while i < n
            invariant
                i <= n,
                n == txs@.len(),
                all == proto::txs_view(txs@),
                strict == (self.validation_mode() == ValidationMode::Strict),
                strict ==> raw_transactions_view(transactions@) == spec_valid_transactions(
                    all.take(i as int),
                ),
                strict ==> spec_placeholders(
                    invalid_transactions_view(invalid_transactions@),
                    spec_invalid_transactions(all.take(i as int)),
                ),
                strict ==> forall|k: int|
                    0 <= k < invalid_transactions@.len() ==> (#[trigger] invalid_transactions@[k]).1
                        == ValidationError::InvalidPeerId,
                !strict ==> spec_substituted(
                    raw_transactions_view(transactions@),
                    all.take(i as int),
                ),
                !strict ==> invalid_transactions@.len() == 0,
            decreases n - i,
        {
            let tx = txs[i].clone();
            proof {
                assert(all.take(i + 1).drop_last() =~= all.take(i as int));
                assert(all.take(i + 1).last() == all[i as int]);
            }
            let source: Result<PeerId, PeerId> = if strict {
                match PeerId::from_bytes(tx.from.as_slice()) {
                    Ok(from) => Ok(from),
                    Err(_) => Err(PeerId::random()),
                }
            } else {
                Ok(PeerId::random())
            };
            let ghost valid_before = raw_transactions_view(transactions@);
            let ghost invalid_before = invalid_transactions_view(invalid_transactions@);
            match classify_transaction(tx, source) {
                Ok(raw) => {
                    transactions.push(raw);
                    assert(raw_transactions_view(transactions@) =~= valid_before.push(raw@));
                },
                Err(entry) => {
                    invalid_transactions.push(entry);
                    assert(invalid_transactions_view(invalid_transactions@)
                        =~= invalid_before.push((entry.0@, entry.1)));
                },
            }
            i += 1;
        }
        assert(all.take(n as int) =~= all);
        let control_msgs = match control {
            Some(control) => control_actions(control),
            None => {
                let empty: Vec<ControlAction> = Vec::new();
                assert(control_actions_view(empty@) =~= Seq::empty());
                empty
            },
        };
        HandlerEvent::Transaction { rpc: Rpc { transactions, control_msgs }, invalid_transactions }
    }

    /// Takes one frame from the front of `src` and hands back the event for
    /// the behaviour: [`DogCodec::decode_frame`], then
    /// [`DogCodec::validate`] on the RPC that the frame holds.
    pub fn decode(&mut self, src: &mut Vec<u8>) -> (r: Result<Option<HandlerEvent>, CodecError>)
        ensures
            *final(self) == *old(self),
            spec_decoded(
                old(self).validation_mode(),
                old(self).max_length() as nat,
                old(src)@,
                final(src)@,
                r,
            ),
    {
        match self.decode_frame(src) {
            Ok(Some(rpc)) => Ok(Some(self.validate(rpc))),
            Ok(None) => Ok(None),
            Err(e) => Err(e),
        }
    }
}

} // verus!
