//! The flooding layer: every transaction that is new goes to every connected
//! peer that the node chose to talk to. What is new is decided by a cuckoo
//! filter, which may take a new transaction for a known one.

use vstd::prelude::*;
use vstd::std_specs::convert::FromSpecImpl;
use std::collections::hash_map::DefaultHasher;
use std::collections::VecDeque;
use cuckoofilter::CuckooFilter;
use crate::behaviour::FromSwarm;
use crate::bytes::{append_bytes, bytes_clone};
use crate::config::DogConfig;
use crate::peer::{ConnectionId, PeerId};
use crate::varint::{spec_encode_varint, write_varint};

verus! {

/// `cuckoofilter::CuckooFilter`: nothing of its inside is seen; what it
/// answers for is named by [`filter_members`].
#[verifier::external_type_specification]
#[verifier::external_body]
#[verifier::reject_recursive_types(H)]
pub struct ExCuckooFilter<H>(CuckooFilter<H>);

/// The byte strings for which a cuckoo filter answers "contained": those
/// that were added and not pushed out since, and those that it takes for
/// one of them.
pub uninterp spec fn filter_members(filter: CuckooFilter<DefaultHasher>) -> Set<Seq<u8>>;

/// What offering a byte string to the filter came to.
#[derive(Debug, Clone, Copy, PartialEq, Eq, Structural)]
pub enum Screened {
    /// The filter did not hold it and holds it now.
    Added,
    /// The filter held it already, or took it for one that it holds.
    Known,
    /// The filter did not hold it; it was added, and for want of space some
    /// entry was pushed out.
    Crowded,
}

/// Calls `CuckooFilter::new`: a filter with empty buckets, which answers
/// "contained" for nothing.
#[verifier::external_body]
fn filter_new() -> (r: CuckooFilter<DefaultHasher>)
    ensures
        filter_members(r) == Set::<Seq<u8>>::empty(),
{
    CuckooFilter::new()
}

/// Calls `CuckooFilter::add`. Where it succeeds, the filter holds `item` and
/// everything that it held: an entry that is moved stays in one of its two
/// buckets. Where it runs out of space, nothing is claimed.
#[verifier::external_body]
fn filter_add(filter: &mut CuckooFilter<DefaultHasher>, item: &[u8]) -> (r: bool)
    ensures
        r ==> filter_members(*final(filter)).contains(item@) && filter_members(
            *old(filter),
        ).subset_of(filter_members(*final(filter))),
{
    match filter.add(item) {
        Ok(()) => true,
        Err(cuckoofilter::CuckooError::NotEnoughSpace) => false,
    }
}

/// Calls `CuckooFilter::test_and_add`: `contains`, and `add` where that says
/// no. An item that is contained leaves the filter as it is.
#[verifier::external_body]
fn filter_test_and_add(filter: &mut CuckooFilter<DefaultHasher>, item: &[u8]) -> (r: Screened)
    ensures
        r == Screened::Known <==> filter_members(*old(filter)).contains(item@),
        r == Screened::Known ==> filter_members(*final(filter)) == filter_members(*old(filter)),
        r == Screened::Added ==> filter_members(*final(filter)).contains(item@) && filter_members(
            *old(filter),
        ).subset_of(filter_members(*final(filter))),
{
    match filter.test_and_add(item) {
        Ok(true) => Screened::Added,
        Ok(false) => Screened::Known,
        Err(cuckoofilter::CuckooError::NotEnoughSpace) => Screened::Crowded,
    }
}

/// Calls `rand::random` for twenty bytes.
#[verifier::external_body]
fn random_tx_id() -> (r: Vec<u8>)
    ensures
        r@.len() == 20,
{
    rand::random::<[u8; 20]>().to_vec()
}

/// A transaction of the flooding layer.
#[derive(Debug)]
pub struct DogTransaction {
    /// The peer that published the transaction.
    pub from: PeerId,
    /// The identifier that the publisher drew.
    pub tx_id: Vec<u8>,
    /// The content.
    pub data: Vec<u8>,
}

pub struct DogTransactionView {
    pub from: Seq<u8>,
    pub tx_id: Seq<u8>,
    pub data: Seq<u8>,
}

impl View for DogTransaction {
    type V = DogTransactionView;

    open spec fn view(&self) -> DogTransactionView {
        DogTransactionView { from: self.from@, tx_id: self.tx_id@, data: self.data@ }
    }
}

impl Clone for DogTransaction {
    fn clone(&self) -> (r: Self)
        ensures
            r@ == self@,
    {
        DogTransaction {
            from: self.from.clone(),
            tx_id: bytes_clone(&self.tx_id),
            data: bytes_clone(&self.data),
        }
    }
}

/// The views of a run of transactions.
pub open spec fn dog_transactions_view(txs: Seq<DogTransaction>) -> Seq<DogTransactionView> {
    Seq::new(txs.len(), |i: int| txs[i]@)
}

/// The byte string under which the filter knows a transaction: the origin
/// and the identifier, each after its length, then the content.
pub open spec fn spec_filter_key(tx: DogTransactionView) -> Seq<u8> {
    spec_encode_varint(tx.from.len()) + tx.from + spec_encode_varint(tx.tx_id.len()) + tx.tx_id
        + tx.data
}

/// The byte string under which the filter knows `tx`.
pub fn filter_key(tx: &DogTransaction) -> (r: Vec<u8>)
    ensures
        r@ == spec_filter_key(tx@),
{
    let mut key: Vec<u8> = Vec::new();
    let from = tx.from.to_bytes();
    write_varint(from.len() as u64, &mut key);
    append_bytes(&mut key, from.as_slice());
    write_varint(tx.tx_id.len() as u64, &mut key);
    append_bytes(&mut key, tx.tx_id.as_slice());
    append_bytes(&mut key, tx.data.as_slice());
    assert(key@ =~= spec_filter_key(tx@));
    key
}

/// What travels between two nodes of the flooding layer.
#[derive(Debug)]
pub struct DogRpc {
    pub transactions: Vec<DogTransaction>,
}

impl View for DogRpc {
    type V = Seq<DogTransactionView>;

    open spec fn view(&self) -> Seq<DogTransactionView> {
        dog_transactions_view(self.transactions@)
    }
}

/// What a connection handler of the flooding layer reports.
#[derive(Debug)]
pub enum InnerMessage {
    /// An RPC was received.
    Rx(DogRpc),
    /// An RPC was sent.
    Sent,
}

impl FromSpecImpl<DogRpc> for InnerMessage {
    open spec fn obeys_from_spec() -> bool {
        true
    }

    open spec fn from_spec(rpc: DogRpc) -> Self {
        InnerMessage::Rx(rpc)
    }
}

impl From<DogRpc> for InnerMessage {
    fn from(rpc: DogRpc) -> (r: Self) {
        InnerMessage::Rx(rpc)
    }
}

impl FromSpecImpl<()> for InnerMessage {
    open spec fn obeys_from_spec() -> bool {
        true
    }

    open spec fn from_spec(sent: ()) -> Self {
        InnerMessage::Sent
    }
}

impl From<()> for InnerMessage {
    fn from(sent: ()) -> (r: Self) {
        InnerMessage::Sent
    }
}

/// An event of the flooding layer for the user.
#[derive(Debug)]
pub enum DogEvent {
    /// A transaction was published or received.
    Transaction(DogTransaction),
}

/// What the flooding layer asks of the host.
#[derive(Debug)]
pub enum ToSwarm {
    /// Hand this event to the user.
    GenerateEvent(DogEvent),
    /// Have any handler of the peer send this RPC.
    NotifyHandler { peer_id: PeerId, event: DogRpc },
    /// Dial the peer.
    Dial { peer_id: PeerId },
    /// Close this connection to the peer.
    CloseConnection { peer_id: PeerId, connection: ConnectionId },
}

pub enum ToSwarmView {
    GenerateEvent(DogTransactionView),
    NotifyHandler { peer_id: Seq<u8>, event: Seq<DogTransactionView> },
    Dial { peer_id: Seq<u8> },
    CloseConnection { peer_id: Seq<u8>, connection: ConnectionId },
}

impl View for ToSwarm {
    type V = ToSwarmView;

    open spec fn view(&self) -> ToSwarmView {
        match self {
            ToSwarm::GenerateEvent(DogEvent::Transaction(tx)) => ToSwarmView::GenerateEvent(tx@),
            ToSwarm::NotifyHandler { peer_id, event } => ToSwarmView::NotifyHandler {
                peer_id: peer_id@,
                event: event@,
            },
            ToSwarm::Dial { peer_id } => ToSwarmView::Dial { peer_id: peer_id@ },
            ToSwarm::CloseConnection { peer_id, connection } => ToSwarmView::CloseConnection {
                peer_id: peer_id@,
                connection: *connection,
            },
        }
    }
}

/// The views of a run of requests to the host.
pub open spec fn to_swarm_view(events: Seq<ToSwarm>) -> Seq<ToSwarmView> {
    Seq::new(events.len(), |i: int| events[i]@)
}

/// Those of `connected`, in order, that are among `targets` and are not
/// `exclude`.
pub open spec fn spec_recipients(
    connected: Seq<Seq<u8>>,
    targets: Seq<Seq<u8>>,
    exclude: Option<Seq<u8>>,
) -> Seq<Seq<u8>>
    decreases connected.len(),
{
    if connected.len() == 0 {
        Seq::empty()
    } else {
        let init = spec_recipients(connected.drop_last(), targets, exclude);
        if targets.contains(connected.last()) && exclude != Some(connected.last()) {
            init.push(connected.last())
        } else {
            init
        }
    }
}

/// Those of `txs`, in order, that were found new.
pub open spec fn spec_accepted(txs: Seq<DogTransactionView>, fresh: Seq<bool>) -> Seq<
    DogTransactionView,
>
    decreases txs.len(),
{
    if txs.len() == 0 || fresh.len() != txs.len() {
        Seq::empty()
    } else if fresh.last() {
        spec_accepted(txs.drop_last(), fresh.drop_last()).push(txs.last())
    } else {
        spec_accepted(txs.drop_last(), fresh.drop_last())
    }
}

/// One event for the user for each transaction.
pub open spec fn spec_generated(txs: Seq<DogTransactionView>) -> Seq<ToSwarmView> {
    Seq::new(txs.len(), |i: int| ToSwarmView::GenerateEvent(txs[i]))
}

/// One RPC with all of `txs` for each recipient; none where `txs` is empty.
pub open spec fn spec_notified(recipients: Seq<Seq<u8>>, txs: Seq<DogTransactionView>) -> Seq<
    ToSwarmView,
> {
    if txs.len() == 0 {
        Seq::empty()
    } else {
        Seq::new(
            recipients.len(),
            |i: int| ToSwarmView::NotifyHandler { peer_id: recipients[i], event: txs },
        )
    }
}

/// Whether no peer occurs twice.
pub open spec fn spec_no_duplicates(peers: Seq<Seq<u8>>) -> bool {
    forall|i: int, j: int| 0 <= i < j < peers.len() ==> peers[i] != peers[j]
}

/// The place of `peer` among `peers`.
fn position(peers: &Vec<PeerId>, peer: &PeerId) -> (r: Option<usize>)
    ensures
        match r {
            Some(i) => i < peers@.len() && peers@[i as int]@ == peer@,
            None => !crate::dog::peer_ids_view(peers@).contains(peer@),
        },
{
    let mut i: usize = 0;
    while i < peers.len()
        invariant
            i <= peers@.len(),
            forall|k: int| 0 <= k < i ==> peers@[k]@ != peer@,
        decreases peers@.len() - i,
    {
        if peers[i].same(peer) {
            return Some(i);
        }
        i += 1;
    }
    None
}

/// The flooding layer of a node.
pub struct Behaviour {
    events: VecDeque<ToSwarm>,
    config: DogConfig,
    target_peers: Vec<PeerId>,
    connected_peers: Vec<PeerId>,
    received: CuckooFilter<DefaultHasher>,
}

impl Behaviour {
    /// The requests to the host that wait.
    pub closed spec fn events(&self) -> Seq<ToSwarmView> {
        to_swarm_view(self.events@)
    }

    /// The identity of the node.
    pub closed spec fn local_peer(&self) -> Seq<u8> {
        self.config.local_peer_id@
    }

    /// The peers that the node chose to talk to, in the order in which they
    /// were added.
    pub closed spec fn target_peers(&self) -> Seq<Seq<u8>> {
        crate::dog::peer_ids_view(self.target_peers@)
    }

    /// The peers that connected, in the order in which they did.
    pub closed spec fn connected_peers(&self) -> Seq<Seq<u8>> {
        crate::dog::peer_ids_view(self.connected_peers@)
    }

    /// The keys for which the filter answers "contained".
    pub closed spec fn seen(&self) -> Set<Seq<u8>> {
        filter_members(self.received)
    }

    /// No peer is listed twice.
    pub open spec fn wf(&self) -> bool {
        spec_no_duplicates(self.target_peers()) && spec_no_duplicates(self.connected_peers())
    }

    /// A layer for the node `local_peer_id`.
    pub fn new(local_peer_id: PeerId) -> (r: Self)
        ensures
            r.wf(),
            r.local_peer() == local_peer_id@,
            r.events().len() == 0,
            r.target_peers().len() == 0,
            r.connected_peers().len() == 0,
            r.seen() == Set::<Seq<u8>>::empty(),
    {
        Self::from_config(DogConfig::new(local_peer_id))
    }

    /// A layer with the configuration `config`.
    pub fn from_config(config: DogConfig) -> (r: Self)
        ensures
            r.wf(),
            r.local_peer() == config.local_peer_id@,
            r.events().len() == 0,
            r.target_peers().len() == 0,
            r.connected_peers().len() == 0,
            r.seen() == Set::<Seq<u8>>::empty(),
    {
        Behaviour {
            events: VecDeque::new(),
            config,
            target_peers: Vec::new(),
            connected_peers: Vec::new(),
            received: filter_new(),
        }
    }

    /// Adds `peer_id` to the peers that the node talks to, unless it is one
    /// already.
    pub fn add_target_peer(&mut self, peer_id: PeerId)
        requires
            old(self).wf(),
        ensures
            final(self).wf(),
            final(self).target_peers() == if old(self).target_peers().contains(peer_id@) {
                old(self).target_peers()
            } else {
                old(self).target_peers().push(peer_id@)
            },
            final(self).connected_peers() == old(self).connected_peers(),
            final(self).events() == old(self).events(),
            final(self).seen() == old(self).seen(),
            final(self).local_peer() == old(self).local_peer(),
    {
        let ghost before = self.target_peers();
        match position(&self.target_peers, &peer_id) {
            Some(i) => {
                assert(before[i as int] == peer_id@);
            },
            None => {
                self.target_peers.push(peer_id);
                assert(self.target_peers() =~= before.push(peer_id@));
            },
        }
    }

    /// The connected peers that a transaction goes to: those that the node
    /// talks to, but for `exclude`.
    pub fn recipients(&self, exclude: Option<&PeerId>) -> (r: Vec<PeerId>)
        ensures
            crate::dog::peer_ids_view(r@) == spec_recipients(
                self.connected_peers(),
                self.target_peers(),
                match exclude {
                    Some(peer) => Some(peer@),
                    None => None,
                },
            ),
    {
        let ghost connected = self.connected_peers();
        let ghost targets = self.target_peers();
        let ghost left_out = match exclude {
            Some(peer) => Some(peer@),
            None => None,
        };
        let mut out: Vec<PeerId> = Vec::new();
        let mut i: usize = 0;
        assert(crate::dog::peer_ids_view(out@) =~= spec_recipients(
            connected.take(0),
            targets,
            left_out,
        ));
        while i < self.connected_peers.len()
            invariant
                i <= self.connected_peers@.len(),
                connected == self.connected_peers(),
                targets == self.target_peers(),
                left_out == match exclude {
                    Some(peer) => Some(peer@),
                    None => None,
                },
                crate::dog::peer_ids_view(out@) == spec_recipients(
                    connected.take(i as int),
                    targets,
                    left_out,
                ),
            decreases self.connected_peers@.len() - i,
        {
            proof {
                assert(connected.take(i + 1).drop_last() =~= connected.take(i as int));
                assert(connected.take(i + 1).last() == connected[i as int]);
            }
            let peer = &self.connected_peers[i];
            let excluded: bool = match exclude {
                Some(other) => peer.same(other),
                None => false,
            };
            let wanted: bool = match position(&self.target_peers, peer) {
                Some(k) => {
                    assert(targets[k as int] == peer@);
                    true
                },
                None => false,
            };
            if wanted && !excluded {
                let ghost before = crate::dog::peer_ids_view(out@);
                out.push(peer.clone());
                assert(crate::dog::peer_ids_view(out@) =~= before.push(connected[i as int]));
            }
            i += 1;
        }
        assert(connected.take(i as int) =~= connected);
        out
    }

    /// Publishes `data` under the identifier `tx_id`: the transaction is
    /// added to the filter, handed to the user, and sent to every connected
    /// peer that the node talks to.
    pub fn publish_with_id(&mut self, data: Vec<u8>, tx_id: Vec<u8>)
        ensures
            final(self).events() == old(self).events() + spec_generated(
                seq![
                    DogTransactionView { from: old(self).local_peer(), tx_id: tx_id@, data: data@ },
                ],
            ) + spec_notified(
                spec_recipients(old(self).connected_peers(), old(self).target_peers(), None),
                seq![
                    DogTransactionView { from: old(self).local_peer(), tx_id: tx_id@, data: data@ },
                ],
            ),
            final(self).target_peers() == old(self).target_peers(),
            final(self).connected_peers() == old(self).connected_peers(),
            final(self).local_peer() == old(self).local_peer(),
    {
        let transaction = DogTransaction { from: self.config.local_peer_id.clone(), tx_id, data };
        let key = filter_key(&transaction);
        let _ = filter_add(&mut self.received, key.as_slice());
        let ghost tx = transaction@;
        let ghost start = self.events();
        self.events.push_back(ToSwarm::GenerateEvent(DogEvent::Transaction(transaction.clone())));
        assert(self.events() =~= start + spec_generated(seq![tx]));
        let mut accepted: Vec<DogTransaction> = Vec::new();
        accepted.push(transaction);
        assert(dog_transactions_view(accepted@) =~= seq![tx]);
        self.notify(None, &accepted);
    }

    /// Publishes `data` under an identifier of twenty bytes drawn at random.
    pub fn publish(&mut self, data: Vec<u8>)
        ensures
            exists|tx_id: Seq<u8>|
                tx_id.len() == 20 && final(self).events() == old(self).events() + spec_generated(
                    seq![
                        DogTransactionView {
                            from: old(self).local_peer(),
                            tx_id,
                            data: data@,
                        },
                    ],
                ) + #[trigger] spec_notified(
                    spec_recipients(old(self).connected_peers(), old(self).target_peers(), None),
                    seq![
                        DogTransactionView {
                            from: old(self).local_peer(),
                            tx_id,
                            data: data@,
                        },
                    ],
                ),
            final(self).target_peers() == old(self).target_peers(),
            final(self).connected_peers() == old(self).connected_peers(),
            final(self).local_peer() == old(self).local_peer(),
    {
        let tx_id = random_tx_id();
        self.publish_with_id(data, tx_id);
    }

    /// Asks the host to have `transactions` sent, in one RPC, to each
    /// recipient; nothing where there is no transaction.
    fn notify(&mut self, exclude: Option<&PeerId>, transactions: &Vec<DogTransaction>)
        ensures
            final(self).events() == old(self).events() + spec_notified(
                spec_recipients(
                    old(self).connected_peers(),
                    old(self).target_peers(),
                    match exclude {
                        Some(peer) => Some(peer@),
                        None => None,
                    },
                ),
                dog_transactions_view(transactions@),
            ),
            final(self).target_peers() == old(self).target_peers(),
            final(self).connected_peers() == old(self).connected_peers(),
            final(self).local_peer() == old(self).local_peer(),
            final(self).seen() == old(self).seen(),
    {
        let ghost start = self.events();
        let ghost txs = dog_transactions_view(transactions@);
        if transactions.len() == 0 {
            assert(self.events() =~= start + Seq::<ToSwarmView>::empty());
            return ;
        }
        let recipients = self.recipients(exclude);
        let ghost ids = crate::dog::peer_ids_view(recipients@);
        let ghost want = spec_notified(ids, txs);
        let mut i: usize = 0;
        assert(self.events() =~= start + want.take(0));
        while i < recipients.len()
            invariant
                i <= recipients@.len(),
                ids == crate::dog::peer_ids_view(recipients@),
                txs == dog_transactions_view(transactions@),
                txs.len() > 0,
                want == spec_notified(ids, txs),
                self.events() == start + want.take(i as int),
                self.target_peers() == old(self).target_peers(),
                self.connected_peers() == old(self).connected_peers(),
                self.local_peer() == old(self).local_peer(),
                self.seen() == old(self).seen(),
            decreases recipients@.len() - i,
        {
            let mut copies: Vec<DogTransaction> = Vec::new();
            let mut k: usize = 0;
            while k < transactions.len()
                invariant
                    k <= transactions@.len(),
                    txs == dog_transactions_view(transactions@),
                    dog_transactions_view(copies@) == txs.take(k as int),
                decreases transactions@.len() - k,
            {
                let ghost before = dog_transactions_view(copies@);
                copies.push(transactions[k].clone());
                assert(dog_transactions_view(copies@) =~= before.push(txs[k as int]));
                assert(dog_transactions_view(copies@) =~= txs.take(k + 1));
                k += 1;
            }
            assert(txs.take(k as int) =~= txs);
            let ghost before = self.events();
            self.events.push_back(
                ToSwarm::NotifyHandler {
                    peer_id: recipients[i].clone(),
                    event: DogRpc { transactions: copies },
                },
            );
            assert(self.events() =~= before.push(want[i as int]));
            assert(self.events() =~= start + want.take(i + 1));
            i += 1;
        }
        assert(want.take(i as int) =~= want);
    }

    /// A connection to `peer_id` was established, beside `other_established`
    /// others: the first one lists the peer as connected.
    pub fn on_connection_established(&mut self, peer_id: PeerId, other_established: usize)
        requires
            old(self).wf(),
        ensures
            final(self).wf(),
            final(self).connected_peers() == if other_established > 0
                || old(self).connected_peers().contains(peer_id@) {
                old(self).connected_peers()
            } else {
                old(self).connected_peers().push(peer_id@)
            },
            final(self).target_peers() == old(self).target_peers(),
            final(self).events() == old(self).events(),
            final(self).seen() == old(self).seen(),
            final(self).local_peer() == old(self).local_peer(),
    {
        if other_established > 0 {
            return ;
        }
        let ghost before = self.connected_peers();
        match position(&self.connected_peers, &peer_id) {
            Some(i) => {
                assert(before[i as int] == peer_id@);
            },
            None => {
                self.connected_peers.push(peer_id);
                assert(self.connected_peers() =~= before.push(peer_id@));
            },
        }
    }

    /// A connection to `peer_id` was closed, and `remaining_established` are
    /// left: with the last one gone, a peer that the node talks to is dialed
    /// again.
    pub fn on_connection_closed(&mut self, peer_id: PeerId, remaining_established: usize)
        ensures
            final(self).events() == if remaining_established == 0
                && old(self).target_peers().contains(peer_id@) {
                old(self).events().push(ToSwarmView::Dial { peer_id: peer_id@ })
            } else {
                old(self).events()
            },
            final(self).target_peers() == old(self).target_peers(),
            final(self).connected_peers() == old(self).connected_peers(),
            final(self).seen() == old(self).seen(),
            final(self).local_peer() == old(self).local_peer(),
    {
        if remaining_established > 0 {
            return ;
        }
        let ghost before = self.events();
        let ghost targets = self.target_peers();
        match position(&self.target_peers, &peer_id) {
            Some(i) => {
                assert(targets[i as int] == peer_id@);
                self.events.push_back(ToSwarm::Dial { peer_id });
                assert(self.events() =~= before.push(ToSwarmView::Dial { peer_id: peer_id@ }));
            },
            None => {},
        }
    }

    /// What the host tells about connections.
    pub fn on_swarm_event(&mut self, event: FromSwarm)
        requires
            old(self).wf(),
        ensures
            final(self).wf(),
            final(self).target_peers() == old(self).target_peers(),
            final(self).seen() == old(self).seen(),
            final(self).local_peer() == old(self).local_peer(),
            match event {
                FromSwarm::ConnectionEstablished { peer_id, connection_id, other_established } => {
                    &&& final(self).events() == old(self).events()
                    &&& final(self).connected_peers() == if other_established > 0
                        || old(self).connected_peers().contains(peer_id@) {
                        old(self).connected_peers()
                    } else {
                        old(self).connected_peers().push(peer_id@)
                    }
                },
                FromSwarm::ConnectionClosed { peer_id, connection_id, remaining_established } => {
                    &&& final(self).connected_peers() == old(self).connected_peers()
                    &&& final(self).events() == if remaining_established == 0
                        && old(self).target_peers().contains(peer_id@) {
                        old(self).events().push(ToSwarmView::Dial { peer_id: peer_id@ })
                    } else {
                        old(self).events()
                    }
                },
            },
    {
        match event {
            FromSwarm::ConnectionEstablished { peer_id, connection_id: _, other_established } => {
                self.on_connection_established(peer_id, other_established);
            },
            FromSwarm::ConnectionClosed { peer_id, connection_id: _, remaining_established } => {
                self.on_connection_closed(peer_id, remaining_established);
            },
        }
    }

    /// Offers `transaction` to the filter and returns whether it is new: it
    /// is unless the filter answers "contained" for its key.
    pub fn screen(&mut self, transaction: &DogTransaction) -> (fresh: bool)
        ensures
            fresh == !old(self).seen().contains(spec_filter_key(transaction@)),
            !fresh ==> final(self).seen() == old(self).seen(),
            final(self).events() == old(self).events(),
            final(self).target_peers() == old(self).target_peers(),
            final(self).connected_peers() == old(self).connected_peers(),
            final(self).local_peer() == old(self).local_peer(),
    {
        let key = filter_key(transaction);
        match filter_test_and_add(&mut self.received, key.as_slice()) {
            Screened::Added => true,
            Screened::Known => false,
            Screened::Crowded => true,
        }
    }

    /// Handles the transactions that `propagation_source` sent, given for
    /// each whether it is new: each new one is handed to the user, and all
    /// new ones together are sent to every other connected peer that the
    /// node talks to.
    pub fn dispatch(
        &mut self,
        propagation_source: &PeerId,
        transactions: Vec<DogTransaction>,
        fresh: &Vec<bool>,
    )
        requires
            fresh@.len() == transactions@.len(),
        ensures
            final(self).events() == old(self).events() + spec_generated(
                spec_accepted(dog_transactions_view(transactions@), fresh@),
            ) + spec_notified(
                spec_recipients(
                    old(self).connected_peers(),
                    old(self).target_peers(),
                    Some(propagation_source@),
                ),
                spec_accepted(dog_transactions_view(transactions@), fresh@),
            ),
            final(self).target_peers() == old(self).target_peers(),
            final(self).connected_peers() == old(self).connected_peers(),
            final(self).local_peer() == old(self).local_peer(),
            final(self).seen() == old(self).seen(),
    {
        let ghost start = self.events();
        let ghost txs = dog_transactions_view(transactions@);
        let mut accepted: Vec<DogTransaction> = Vec::new();
        let mut i: usize = 0;
        assert(dog_transactions_view(accepted@) =~= spec_accepted(txs.take(0), fresh@.take(0)));
        assert(self.events() =~= start + spec_generated(dog_transactions_view(accepted@)));
        while i < transactions.len()
            invariant
                i <= transactions@.len(),
                fresh@.len() == transactions@.len(),
                txs == dog_transactions_view(transactions@),
                dog_transactions_view(accepted@) == spec_accepted(
                    txs.take(i as int),
                    fresh@.take(i as int),
                ),
                self.events() == start + spec_generated(dog_transactions_view(accepted@)),
                self.target_peers() == old(self).target_peers(),
                self.connected_peers() == old(self).connected_peers(),
                self.local_peer() == old(self).local_peer(),
                self.seen() == old(self).seen(),
            decreases transactions@.len() - i,
        {
            proof {
                assert(txs.take(i + 1).drop_last() =~= txs.take(i as int));
                assert(txs.take(i + 1).last() == txs[i as int]);
                assert(fresh@.take(i + 1).drop_last() =~= fresh@.take(i as int));
                assert(fresh@.take(i + 1).last() == fresh@[i as int]);
            }
            if fresh[i] {
                let ghost before = dog_transactions_view(accepted@);
                let ghost events = self.events();
                self.events.push_back(
                    ToSwarm::GenerateEvent(DogEvent::Transaction(transactions[i].clone())),
                );
                accepted.push(transactions[i].clone());
                assert(dog_transactions_view(accepted@) =~= before.push(txs[i as int]));
                assert(self.events() =~= events.push(ToSwarmView::GenerateEvent(txs[i as int])));
                assert(self.events() =~= start + spec_generated(dog_transactions_view(accepted@)));
            }
            i += 1;
        }
        assert(txs.take(i as int) =~= txs);
        assert(fresh@.take(i as int) =~= fresh@);
        self.notify(Some(propagation_source), &accepted);
    }

    /// Handles what a connection handler reports about `propagation_source`.
    /// A failure closes the connection. A report that something was sent
    /// changes nothing. The transactions of an RPC that was received are
    /// offered to the filter in turn, and go on as [`Behaviour::dispatch`]
    /// says.
    pub fn on_connection_handler_event(
        &mut self,
        propagation_source: PeerId,
        connection_id: ConnectionId,
        event: Result<InnerMessage, String>,
    )
        ensures
            final(self).target_peers() == old(self).target_peers(),
            final(self).connected_peers() == old(self).connected_peers(),
            final(self).local_peer() == old(self).local_peer(),
            match event {
                Err(_) => {
                    &&& final(self).seen() == old(self).seen()
                    &&& final(self).events() == old(self).events().push(
                        ToSwarmView::CloseConnection {
                            peer_id: propagation_source@,
                            connection: connection_id,
                        },
                    )
                },
                Ok(InnerMessage::Sent) => {
                    &&& final(self).seen() == old(self).seen()
                    &&& final(self).events() == old(self).events()
                },
                Ok(InnerMessage::Rx(rpc)) => exists|fresh: Seq<bool>|
                    {
                        &&& fresh.len() == rpc@.len()
                        &&& fresh.len() > 0 ==> fresh[0] == !old(self).seen().contains(
                            spec_filter_key(rpc@[0]),
                        )
                        &&& final(self).events() == old(self).events() + spec_generated(
                            #[trigger] spec_accepted(rpc@, fresh),
                        ) + spec_notified(
                            spec_recipients(
                                old(self).connected_peers(),
                                old(self).target_peers(),
                                Some(propagation_source@),
                            ),
                            spec_accepted(rpc@, fresh),
                        )
                    },
            },
    {
        let rpc = match event {
            Ok(InnerMessage::Rx(rpc)) => rpc,
            Ok(InnerMessage::Sent) => {
                return ;
            },
            Err(_) => {
                let ghost before = self.events();
                self.events.push_back(
                    ToSwarm::CloseConnection {
                        peer_id: propagation_source,
                        connection: connection_id,
                    },
                );
                assert(self.events() =~= before.push(
                    ToSwarmView::CloseConnection {
                        peer_id: propagation_source@,
                        connection: connection_id,
                    },
                ));
                return ;
            },
        };
        let ghost txs = rpc@;
        let mut fresh: Vec<bool> = Vec::new();
        let mut i: usize = 0;
        while i < rpc.transactions.len()
            invariant
                i <= rpc.transactions@.len(),
                fresh@.len() == i,
                txs == rpc@,
                i > 0 ==> fresh@[0] == !old(self).seen().contains(spec_filter_key(txs[0])),
                self.events() == old(self).events(),
                self.target_peers() == old(self).target_peers(),
                self.connected_peers() == old(self).connected_peers(),
                self.local_peer() == old(self).local_peer(),
                i == 0 ==> self.seen() == old(self).seen(),
            decreases rpc.transactions@.len() - i,
        {
            let is_new = self.screen(&rpc.transactions[i]);
            fresh.push(is_new);
            i += 1;
        }
        self.dispatch(&propagation_source, rpc.transactions, &fresh);
    }

    /// Hands out the first request to the host that waits.
    pub fn poll(&mut self) -> (r: Option<ToSwarm>)
        ensures
            match r {
                Some(event) => old(self).events().len() > 0 && event@ == old(self).events()[0]
                    && final(self).events() == old(self).events().skip(1),
                None => old(self).events().len() == 0 && final(self).events() == old(self).events(),
            },
            final(self).target_peers() == old(self).target_peers(),
            final(self).connected_peers() == old(self).connected_peers(),
            final(self).local_peer() == old(self).local_peer(),
            final(self).seen() == old(self).seen(),
    {
        let ghost before = self.events();
        let r = self.events.pop_front();
        match &r {
            Some(event) => {
                assert(self.events() =~= before.skip(1));
                assert(event@ == before[0]);
            },
            None => {
                assert(self.events() =~= before);
            },
        }
        r
    }
}

} // verus!
