//! The values that the protocol handles: transactions, their identifiers,
//! control messages and RPCs.

use vstd::prelude::*;
use vstd::std_specs::convert::FromSpecImpl;
use crate::bytes::{bytes_clone, bytes_eq, bytes_of};
use crate::peer::PeerId;
use crate::proto;
use crate::proto::{ControlHaveTxView, ControlMessageView, RPCView, TransactionView};

verus! {

/// The identifier of a transaction: an opaque byte string.
#[derive(Debug, PartialEq, Eq, Hash, PartialOrd, Ord)]
pub struct TransactionId(pub Vec<u8>);

impl View for TransactionId {
    type V = Seq<u8>;

    open spec fn view(&self) -> Seq<u8> {
        self.0@
    }
}

impl Clone for TransactionId {
    fn clone(&self) -> (r: Self)
        ensures
            r@ == self@,
    {
        TransactionId(bytes_clone(&self.0))
    }
}

/// The sixteen digits of lowercase hexadecimal.
pub open spec fn spec_hex_digits() -> Seq<char> {
    seq!['0', '1', '2', '3', '4', '5', '6', '7', '8', '9', 'a', 'b', 'c', 'd', 'e', 'f']
}

/// The bytes in lowercase hexadecimal, two digits for each.
pub open spec fn spec_hex(bytes: Seq<u8>) -> Seq<char> {
    Seq::new(
        2 * bytes.len(),
        |i: int|
            if i % 2 == 0 {
                spec_hex_digits()[bytes[i / 2] as int / 16]
            } else {
                spec_hex_digits()[bytes[i / 2] as int % 16]
            },
    )
}

/// Formats `hex_fmt::HexFmt` of the bytes without width or precision: the
/// bytes in lowercase hexadecimal, two digits for each, nothing left out.
#[verifier::external_body]
fn hex_text(bytes: &[u8]) -> (r: String)
    ensures
        r@ == spec_hex(bytes@),
{
    format!("{}", hex_fmt::HexFmt(bytes))
}

impl TransactionId {
    /// The identifier in lowercase hexadecimal.
    pub fn to_string(&self) -> (r: String)
        ensures
            r@ == spec_hex(self@),
    {
        hex_text(self.0.as_slice())
    }

    /// The identifier that holds the bytes of `value`.
    pub fn new(value: &[u8]) -> (r: Self)
        ensures
            r@ == value@,
    {
        TransactionId(bytes_of(value))
    }

    /// Whether two identifiers hold the same bytes.
    pub fn same(&self, other: &TransactionId) -> (r: bool)
        ensures
            r == (self@ == other@),
    {
        bytes_eq(&self.0, &other.0)
    }
}

impl FromSpecImpl<Vec<u8>> for TransactionId {
    open spec fn obeys_from_spec() -> bool {
        true
    }

    open spec fn from_spec(value: Vec<u8>) -> Self {
        TransactionId(value)
    }
}

impl From<Vec<u8>> for TransactionId {
    fn from(value: Vec<u8>) -> (r: Self) {
        TransactionId(value)
    }
}

/// A transaction as the protocol carries it.
#[derive(Debug)]
pub struct RawTransaction {
    /// The peer that published the transaction.
    pub from: PeerId,
    /// The sequence number that the publisher gave it.
    pub seqno: u64,
    /// The content, as the outbound transform left it.
    pub data: Vec<u8>,
}

impl View for RawTransaction {
    type V = TransactionView;

    open spec fn view(&self) -> TransactionView {
        TransactionView { from: self.from@, seqno: self.seqno, data: self.data@ }
    }
}

impl Clone for RawTransaction {
    fn clone(&self) -> (r: Self)
        ensures
            r@ == self@,
    {
        RawTransaction { from: self.from.clone(), seqno: self.seqno, data: bytes_clone(&self.data) }
    }
}

impl FromSpecImpl<RawTransaction> for proto::Transaction {
    open spec fn obeys_from_spec() -> bool {
        false
    }

    open spec fn from_spec(tx: RawTransaction) -> Self {
        arbitrary()
    }
}

impl From<RawTransaction> for proto::Transaction {
    fn from(tx: RawTransaction) -> (r: Self)
        ensures
            r@ == tx@,
    {
        proto::Transaction { from: tx.from.to_bytes(), seqno: tx.seqno, data: tx.data }
    }
}

/// A transaction as the user sees it, after the inbound transform.
#[derive(Debug)]
pub struct Transaction {
    /// The peer that published the transaction.
    pub from: PeerId,
    /// The sequence number that the publisher gave it.
    pub seqno: u64,
    /// The content.
    pub data: Vec<u8>,
}

impl View for Transaction {
    type V = TransactionView;

    open spec fn view(&self) -> TransactionView {
        TransactionView { from: self.from@, seqno: self.seqno, data: self.data@ }
    }
}

impl Clone for Transaction {
    fn clone(&self) -> (r: Self)
        ensures
            r@ == self@,
    {
        Transaction { from: self.from.clone(), seqno: self.seqno, data: bytes_clone(&self.data) }
    }
}

/// A request to stop routing to the sender the transactions of one origin,
/// which the identifier of one of its transactions names.
#[derive(Debug)]
pub struct HaveTx {
    pub tx_id: TransactionId,
}

impl View for HaveTx {
    type V = ControlHaveTxView;

    open spec fn view(&self) -> ControlHaveTxView {
        ControlHaveTxView { tx_id: self.tx_id@ }
    }
}

impl Clone for HaveTx {
    fn clone(&self) -> (r: Self)
        ensures
            r@ == self@,
    {
        HaveTx { tx_id: self.tx_id.clone() }
    }
}

impl FromSpecImpl<HaveTx> for proto::ControlHaveTx {
    open spec fn obeys_from_spec() -> bool {
        true
    }

    open spec fn from_spec(have_tx: HaveTx) -> Self {
        proto::ControlHaveTx { tx_id: have_tx.tx_id.0 }
    }
}

impl From<HaveTx> for proto::ControlHaveTx {
    fn from(have_tx: HaveTx) -> (r: Self)
        ensures
            r@ == have_tx@,
    {
        proto::ControlHaveTx { tx_id: have_tx.tx_id.0 }
    }
}

/// A request to open again a route to the sender that was closed.
#[derive(Debug, Clone, Copy, PartialEq, Eq, Structural)]
pub struct ResetRoute {}

impl FromSpecImpl<ResetRoute> for proto::ControlResetRoute {
    open spec fn obeys_from_spec() -> bool {
        true
    }

    open spec fn from_spec(reset_route: ResetRoute) -> Self {
        proto::ControlResetRoute {  }
    }
}

impl From<ResetRoute> for proto::ControlResetRoute {
    fn from(reset_route: ResetRoute) -> (r: Self) {
        proto::ControlResetRoute {  }
    }
}

/// A control message that was received.
#[derive(Debug)]
pub enum ControlAction {
    /// The sender asks the local node to stop routing to it the transactions of
    /// the origin of the named transaction.
    HaveTx(HaveTx),
    /// The sender asks the local node to open again a route to it.
    ResetRoute(ResetRoute),
}

pub enum ControlActionView {
    HaveTx(ControlHaveTxView),
    ResetRoute,
}

impl View for ControlAction {
    type V = ControlActionView;

    open spec fn view(&self) -> ControlActionView {
        match self {
            ControlAction::HaveTx(have_tx) => ControlActionView::HaveTx(have_tx@),
            ControlAction::ResetRoute(_) => ControlActionView::ResetRoute,
        }
    }
}

impl Clone for ControlAction {
    fn clone(&self) -> (r: Self)
        ensures
            r@ == self@,
    {
        match self {
            ControlAction::HaveTx(have_tx) => ControlAction::HaveTx(have_tx.clone()),
            ControlAction::ResetRoute(_) => ControlAction::ResetRoute(ResetRoute {  }),
        }
    }
}

/// The views of a run of control messages.
pub open spec fn control_actions_view(msgs: Seq<ControlAction>) -> Seq<ControlActionView> {
    Seq::new(msgs.len(), |i: int| msgs[i]@)
}

/// The views of a run of transactions.
pub open spec fn raw_transactions_view(txs: Seq<RawTransaction>) -> Seq<TransactionView> {
    Seq::new(txs.len(), |i: int| txs[i]@)
}

/// The `have_tx` entries among a run of control messages, in order.
pub open spec fn spec_have_txs(msgs: Seq<ControlActionView>) -> Seq<ControlHaveTxView>
    decreases msgs.len(),
{
    if msgs.len() == 0 {
        Seq::empty()
    } else {
        match msgs.last() {
            ControlActionView::HaveTx(have_tx) => spec_have_txs(msgs.drop_last()).push(have_tx),
            ControlActionView::ResetRoute => spec_have_txs(msgs.drop_last()),
        }
    }
}

/// The number of `reset_route` entries among a run of control messages.
pub open spec fn spec_reset_routes(msgs: Seq<ControlActionView>) -> nat
    decreases msgs.len(),
{
    if msgs.len() == 0 {
        0
    } else {
        match msgs.last() {
            ControlActionView::HaveTx(_) => spec_reset_routes(msgs.drop_last()),
            ControlActionView::ResetRoute => spec_reset_routes(msgs.drop_last()) + 1,
        }
    }
}

/// The control messages that a control part of the wire format stands for:
/// its `have_tx` entries in order, then its `reset_route` entries.
pub open spec fn spec_control_actions(control: ControlMessageView) -> Seq<ControlActionView> {
    Seq::new(
        control.have_tx.len() + control.reset_route,
        |i: int|
            if i < control.have_tx.len() {
                ControlActionView::HaveTx(control.have_tx[i])
            } else {
                ControlActionView::ResetRoute
            },
    )
}

/// One entry of an outbound queue.
#[derive(Debug)]
pub enum RpcOut {
    /// A transaction of the local node. `timeout` is the time after which it
    /// is abandoned if it still waits to be sent.
    Publish { tx: RawTransaction, timeout: u64 },
    /// A transaction that is relayed. `timeout` is the time after which it is
    /// abandoned if it still waits to be sent.
    Forward { tx: RawTransaction, timeout: u64 },
    /// A `HAVE_TX` control message.
    HaveTx(HaveTx),
    /// A `RESET_ROUTE` control message.
    ResetRoute(ResetRoute),
}

pub enum RpcOutView {
    Publish { tx: TransactionView, timeout: u64 },
    Forward { tx: TransactionView, timeout: u64 },
    HaveTx(ControlHaveTxView),
    ResetRoute,
}

impl View for RpcOut {
    type V = RpcOutView;

    open spec fn view(&self) -> RpcOutView {
        match self {
            RpcOut::Publish { tx, timeout } => RpcOutView::Publish { tx: tx@, timeout: *timeout },
            RpcOut::Forward { tx, timeout } => RpcOutView::Forward { tx: tx@, timeout: *timeout },
            RpcOut::HaveTx(have_tx) => RpcOutView::HaveTx(have_tx@),
            RpcOut::ResetRoute(_) => RpcOutView::ResetRoute,
        }
    }
}

impl RpcOutView {
    /// The message of the wire format that carries this entry: one
    /// transaction and no control part, or a control part with one entry.
    pub open spec fn protobuf(self) -> RPCView {
        match self {
            RpcOutView::Publish { tx, timeout } => RPCView { txs: seq![tx], control: None },
            RpcOutView::Forward { tx, timeout } => RPCView { txs: seq![tx], control: None },
            RpcOutView::HaveTx(have_tx) => RPCView {
                txs: Seq::empty(),
                control: Some(ControlMessageView { have_tx: seq![have_tx], reset_route: 0 }),
            },
            RpcOutView::ResetRoute => RPCView {
                txs: Seq::empty(),
                control: Some(ControlMessageView { have_tx: Seq::empty(), reset_route: 1 }),
            },
        }
    }

    /// The time after which the entry is abandoned, where it has one.
    pub open spec fn deadline(self) -> Option<u64> {
        match self {
            RpcOutView::Publish { tx, timeout } => Some(timeout),
            RpcOutView::Forward { tx, timeout } => Some(timeout),
            _ => None,
        }
    }
}

impl Clone for RpcOut {
    fn clone(&self) -> (r: Self)
        ensures
            r@ == self@,
    {
        match self {
            RpcOut::Publish { tx, timeout } => RpcOut::Publish { tx: tx.clone(), timeout: *timeout },
            RpcOut::Forward { tx, timeout } => RpcOut::Forward { tx: tx.clone(), timeout: *timeout },
            RpcOut::HaveTx(have_tx) => RpcOut::HaveTx(have_tx.clone()),
            RpcOut::ResetRoute(_) => RpcOut::ResetRoute(ResetRoute {  }),
        }
    }
}

impl FromSpecImpl<RpcOut> for proto::RPC {
    open spec fn obeys_from_spec() -> bool {
        false
    }

    open spec fn from_spec(rpc: RpcOut) -> Self {
        arbitrary()
    }
}

impl From<RpcOut> for proto::RPC {
    fn from(rpc: RpcOut) -> (r: Self)
        ensures
            r@ == rpc@.protobuf(),
    {
        let r = match rpc {
            RpcOut::Publish { tx, timeout: _ } => {
                let mut txs: Vec<proto::Transaction> = Vec::new();
                txs.push(proto::Transaction::from(tx));
                proto::RPC { txs, control: None }
            },
            RpcOut::Forward { tx, timeout: _ } => {
                let mut txs: Vec<proto::Transaction> = Vec::new();
                txs.push(proto::Transaction::from(tx));
                proto::RPC { txs, control: None }
            },
            RpcOut::HaveTx(have_tx) => {
                let mut entries: Vec<proto::ControlHaveTx> = Vec::new();
                entries.push(proto::ControlHaveTx::from(have_tx));
                proto::RPC {
                    txs: Vec::new(),
                    control: Some(
                        proto::ControlMessage { have_tx: entries, reset_route: Vec::new() },
                    ),
                }
            },
            RpcOut::ResetRoute(reset_route) => {
                let mut entries: Vec<proto::ControlResetRoute> = Vec::new();
                entries.push(proto::ControlResetRoute::from(reset_route));
                proto::RPC {
                    txs: Vec::new(),
                    control: Some(
                        proto::ControlMessage { have_tx: Vec::new(), reset_route: entries },
                    ),
                }
            },
        };
        proof {
            assert(r@.txs =~= rpc@.protobuf().txs);
            match rpc@.protobuf().control {
                Some(control) => {
                    assert(r@.control.unwrap().have_tx =~= control.have_tx);
                },
                None => {},
            }
        }
        r
    }
}

impl RpcOut {
    /// The message of the wire format that carries this entry.
    pub fn into_protobuf(self) -> (r: proto::RPC)
        ensures
            r@ == self@.protobuf(),
    {
        proto::RPC::from(self)
    }
}

/// An RPC that was received or is to be sent.
#[derive(Debug)]
pub struct Rpc {
    /// The transactions of this RPC.
    pub transactions: Vec<RawTransaction>,
    /// The control messages of this RPC.
    pub control_msgs: Vec<ControlAction>,
}

pub struct RpcView {
    pub transactions: Seq<TransactionView>,
    pub control_msgs: Seq<ControlActionView>,
}

impl View for Rpc {
    type V = RpcView;

    open spec fn view(&self) -> RpcView {
        RpcView {
            transactions: raw_transactions_view(self.transactions@),
            control_msgs: control_actions_view(self.control_msgs@),
        }
    }
}

impl RpcView {
    /// The message of the wire format that carries this RPC: its
    /// transactions in order, and a control part that holds the `have_tx`
    /// entries in order and as many `reset_route` entries as the RPC has.
    pub open spec fn protobuf(self) -> RPCView {
        RPCView {
            txs: self.transactions,
            control: Some(
                ControlMessageView {
                    have_tx: spec_have_txs(self.control_msgs),
                    reset_route: spec_reset_routes(self.control_msgs),
                },
            ),
        }
    }
}

impl FromSpecImpl<Rpc> for proto::RPC {
    open spec fn obeys_from_spec() -> bool {
        false
    }

    open spec fn from_spec(rpc: Rpc) -> Self {
        arbitrary()
    }
}

impl From<Rpc> for proto::RPC {
    fn from(rpc: Rpc) -> (r: Self)
        ensures
            r@ == rpc@.protobuf(),
    {
        let ghost txs_all = raw_transactions_view(rpc.transactions@);
        let ghost msgs = control_actions_view(rpc.control_msgs@);
        let mut txs: Vec<proto::Transaction> = Vec::new();
        let mut i: usize = 0;
        while i < rpc.transactions.len()
            invariant
                i <= rpc.transactions@.len(),
                txs_all == raw_transactions_view(rpc.transactions@),
                proto::txs_view(txs@) == txs_all.take(i as int),
            decreases rpc.transactions@.len() - i,
        {
            let tx = proto::Transaction::from(rpc.transactions[i].clone());
            let ghost before = proto::txs_view(txs@);
            txs.push(tx);
            assert(proto::txs_view(txs@) =~= before.push(tx@));
            assert(proto::txs_view(txs@) =~= txs_all.take(i + 1));
            i += 1;
        }
        assert(txs_all.take(i as int) =~= txs_all);
        let mut have_tx: Vec<proto::ControlHaveTx> = Vec::new();
        let mut reset_route: Vec<proto::ControlResetRoute> = Vec::new();
        let mut j: usize = 0;
        assert(proto::have_txs_view(have_tx@) =~= spec_have_txs(msgs.take(0)));
        while j < rpc.control_msgs.len()
            invariant
                j <= rpc.control_msgs@.len(),
                msgs == control_actions_view(rpc.control_msgs@),
                proto::have_txs_view(have_tx@) == spec_have_txs(msgs.take(j as int)),
                reset_route@.len() == spec_reset_routes(msgs.take(j as int)),
            decreases rpc.control_msgs@.len() - j,
        {
            proof {
                assert(msgs.take(j + 1).drop_last() =~= msgs.take(j as int));
                assert(msgs.take(j + 1).last() == msgs[j as int]);
            }
            match &rpc.control_msgs[j] {
                ControlAction::HaveTx(entry) => {
                    let converted = proto::ControlHaveTx::from(entry.clone());
                    let ghost before = proto::have_txs_view(have_tx@);
                    have_tx.push(converted);
                    assert(proto::have_txs_view(have_tx@) =~= before.push(converted@));
                },
                ControlAction::ResetRoute(entry) => {
                    reset_route.push(proto::ControlResetRoute::from(*entry));
                },
            }
            j += 1;
        }
        assert(msgs.take(j as int) =~= msgs);
        proto::RPC { txs, control: Some(proto::ControlMessage { have_tx, reset_route }) }
    }
}

impl Rpc {
    /// The message of the wire format that carries this RPC.
    pub fn into_protobuf(self) -> (r: proto::RPC)
        ensures
            r@ == self@.protobuf(),
    {
        proto::RPC::from(self)
    }
}

} // verus!
