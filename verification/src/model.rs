//! The protocol as a state machine over plain values: what a node holds, and
//! what each operation of the behaviour makes of it.

use vstd::prelude::*;
use crate::config::Config;
use crate::dog::{
    lemma_valid_targets,
    spec_route_disabled,
    spec_valid_targets,
    spec_without_peer,
    Controller,
    ControllerAction,
    RouteView,
};
use crate::id::spec_transaction_id;
use crate::metrics::Counts;
use crate::peer::ConnectionId;
use crate::proto::{ControlHaveTxView, TransactionView};
use crate::time_cache::{spec_contains, spec_insert, spec_origin_of, CacheEntry};
use crate::types::{ControlActionView, RpcOutView, RpcView};

verus! {

/// What a node holds for one connected peer.
pub struct PeerView {
    /// The peer.
    pub peer_id: Seq<u8>,
    /// The open connections to it.
    pub connections: Seq<ConnectionId>,
    /// What waits to be sent to it, first in first out.
    pub queue: Seq<RpcOutView>,
    /// The number of entries that the queue takes.
    pub capacity: usize,
    /// The controller of the redundancy of what it sends.
    pub controller: Controller,
    /// The identifier of the last duplicate that it sent.
    pub last_duplicate: Option<Seq<u8>>,
}

impl PeerView {
    /// Whether the queue takes another entry.
    pub open spec fn has_room(self) -> bool {
        self.queue.len() < self.capacity
    }

    /// The peer after `entry` was offered to its queue: appended where there
    /// is room, dropped where there is none.
    pub open spec fn offer(self, entry: RpcOutView) -> PeerView {
        if self.has_room() {
            PeerView { queue: self.queue.push(entry), ..self }
        } else {
            self
        }
    }

    /// The state for a peer that has just connected.
    pub open spec fn fresh(peer_id: Seq<u8>, config: Config) -> PeerView {
        PeerView {
            peer_id,
            connections: Seq::empty(),
            queue: Seq::empty(),
            capacity: config.connection_handler_queue_len,
            controller: Controller {
                target_redundancy: config.target_redundancy,
                redundancy_delta_percent: config.redundancy_delta_percent,
                first_time_txs_count: 0,
                duplicate_txs_count: 0,
                is_have_tx_blocked: false,
            },
            last_duplicate: None,
        }
    }

    /// The peer after a reception from it was counted: a first-time
    /// reception, or a duplicate, whose identifier is then remembered.
    pub open spec fn record(self, id: Seq<u8>, newly: bool) -> PeerView {
        if newly {
            PeerView {
                controller: Controller {
                    first_time_txs_count: if self.controller.first_time_txs_count < usize::MAX {
                        (self.controller.first_time_txs_count + 1) as usize
                    } else {
                        usize::MAX
                    },
                    ..self.controller
                },
                ..self
            }
        } else {
            PeerView {
                controller: Controller {
                    duplicate_txs_count: if self.controller.duplicate_txs_count < usize::MAX {
                        (self.controller.duplicate_txs_count + 1) as usize
                    } else {
                        usize::MAX
                    },
                    ..self.controller
                },
                last_duplicate: Some(id),
                ..self
            }
        }
    }

    /// The peer after the periodic evaluation: the controller is evaluated,
    /// and what it asks for is offered to the queue. `HAVE_TX` names the last
    /// duplicate.
    pub open spec fn adjust(self) -> PeerView {
        let (controller, action) = self.controller.spec_evaluate();
        let evaluated = PeerView { controller, ..self };
        match action {
            ControllerAction::Idle => evaluated,
            ControllerAction::ResetRoute => evaluated.offer(RpcOutView::ResetRoute),
            ControllerAction::HaveTx => match self.last_duplicate {
                Some(id) => evaluated.offer(RpcOutView::HaveTx(ControlHaveTxView { tx_id: id })),
                None => evaluated,
            },
        }
    }

    /// Whoever sent a duplicate since the last evaluation has its last
    /// duplicate remembered.
    pub open spec fn wf(self) -> bool {
        self.controller.duplicate_txs_count > 0 ==> self.last_duplicate is Some
    }
}

/// An event for the user.
pub enum EventView {
    /// A transaction was received for the first time.
    Transaction { propagation_source: Seq<u8>, transaction_id: Seq<u8>, transaction: TransactionView },
    /// The closed routes changed; these are the closed routes now.
    RoutingUpdated { disabled_routes: Seq<RouteView> },
}

/// The place of the first peer with the identity `id`.
pub open spec fn spec_find_peer(peers: Seq<PeerView>, id: Seq<u8>) -> Option<int>
    decreases peers.len(),
{
    if peers.len() == 0 {
        None
    } else if peers[0].peer_id == id {
        Some(0)
    } else {
        match spec_find_peer(peers.skip(1), id) {
            Some(i) => Some(i + 1),
            None => None,
        }
    }
}

/// What [`spec_find_peer`] finds is a peer with that identity, and the
/// first one; it finds none only where there is none.
pub proof fn lemma_find_peer(peers: Seq<PeerView>, id: Seq<u8>)
    ensures
        match spec_find_peer(peers, id) {
            Some(i) => 0 <= i < peers.len() && peers[i].peer_id == id && forall|k: int|
                0 <= k < i ==> (#[trigger] peers[k]).peer_id != id,
            None => forall|k: int| 0 <= k < peers.len() ==> (#[trigger] peers[k]).peer_id != id,
        },
    decreases peers.len(),
{
    if peers.len() == 0 || peers[0].peer_id == id {
    } else {
        lemma_find_peer(peers.skip(1), id);
        match spec_find_peer(peers.skip(1), id) {
            Some(i) => {
                assert forall|k: int| 0 <= k < i + 1 implies (#[trigger] peers[k]).peer_id != id by {
                    if k > 0 {
                        assert(peers.skip(1)[k - 1] == peers[k]);
                    }
                }
            },
            None => {
                assert forall|k: int| 0 <= k < peers.len() implies (#[trigger] peers[k]).peer_id
                    != id by {
                    if k > 0 {
                        assert(peers.skip(1)[k - 1] == peers[k]);
                    }
                }
            },
        }
    }
}

/// The peers after `entry` was sent to the peer `id`, and whether it was
/// taken: it is taken where the peer is connected and its queue has room.
pub open spec fn spec_send_to(peers: Seq<PeerView>, id: Seq<u8>, entry: RpcOutView) -> (
    Seq<PeerView>,
    bool,
) {
    match spec_find_peer(peers, id) {
        Some(i) => if peers[i].has_room() {
            (peers.update(i, peers[i].offer(entry)), true)
        } else {
            (peers, false)
        },
        None => (peers, false),
    }
}

/// The peers after `entry` was sent to each of `targets` in turn, and the
/// number of times it was taken.
pub open spec fn spec_send_each(peers: Seq<PeerView>, targets: Seq<Seq<u8>>, entry: RpcOutView) -> (
    Seq<PeerView>,
    nat,
)
    decreases targets.len(),
{
    if targets.len() == 0 {
        (peers, 0)
    } else {
        let (next, taken) = spec_send_to(peers, targets[0], entry);
        let (last, n) = spec_send_each(next, targets.skip(1), entry);
        (
            last,
            if taken {
                n + 1
            } else {
                n
            },
        )
    }
}

/// Whether `after` is `before` but for what waits in the queue.
pub open spec fn spec_same_but_queue(before: PeerView, after: PeerView) -> bool {
    after == (PeerView { queue: after.queue, ..before })
}

/// Sending to one peer changes at most the queue of that peer.
pub proof fn lemma_send_to_shape(peers: Seq<PeerView>, id: Seq<u8>, entry: RpcOutView)
    ensures
        spec_send_to(peers, id, entry).0.len() == peers.len(),
        forall|k: int|
            0 <= k < peers.len() ==> spec_same_but_queue(
                peers[k],
                #[trigger] spec_send_to(peers, id, entry).0[k],
            ) && (spec_send_to(peers, id, entry).0[k] == peers[k] || peers[k].peer_id == id),
{
    lemma_find_peer(peers, id);
}

/// Sending to each of `targets` changes at most the queues of the peers
/// among `targets`, and is taken no more often than there are targets.
pub proof fn lemma_send_each_shape(peers: Seq<PeerView>, targets: Seq<Seq<u8>>, entry: RpcOutView)
    ensures
        spec_send_each(peers, targets, entry).0.len() == peers.len(),
        spec_send_each(peers, targets, entry).1 <= targets.len(),
        forall|k: int|
            0 <= k < peers.len() ==> spec_same_but_queue(
                peers[k],
                #[trigger] spec_send_each(peers, targets, entry).0[k],
            ) && (spec_send_each(peers, targets, entry).0[k] == peers[k] || targets.contains(
                peers[k].peer_id,
            )),
    decreases targets.len(),
{
    if targets.len() == 0 {
    } else {
        let next = spec_send_to(peers, targets[0], entry).0;
        lemma_send_to_shape(peers, targets[0], entry);
        lemma_send_each_shape(next, targets.skip(1), entry);
        let last = spec_send_each(peers, targets, entry).0;
        assert(last == spec_send_each(next, targets.skip(1), entry).0);
        assert forall|k: int| 0 <= k < peers.len() implies spec_same_but_queue(
            peers[k],
            #[trigger] last[k],
        ) && (last[k] == peers[k] || targets.contains(peers[k].peer_id)) by {
            assert(spec_same_but_queue(peers[k], next[k]));
            assert(spec_same_but_queue(next[k], last[k]));
            if last[k] != peers[k] {
                if next[k] != peers[k] {
                    assert(targets[0] == peers[k].peer_id);
                } else {
                    let j = choose|j: int|
                        0 <= j < targets.skip(1).len() && targets.skip(1)[j] == next[k].peer_id;
                    assert(targets[j + 1] == peers[k].peer_id);
                }
            }
        }
    }
}

/// The identities of the peers, in order.
pub open spec fn spec_peer_ids(peers: Seq<PeerView>) -> Seq<Seq<u8>> {
    Seq::new(peers.len(), |i: int| peers[i].peer_id)
}

/// The identities of the peers other than `exclude`, in order.
pub open spec fn spec_candidates(peers: Seq<PeerView>, exclude: Seq<u8>) -> Seq<Seq<u8>>
    decreases peers.len(),
{
    if peers.len() == 0 {
        Seq::empty()
    } else if peers.last().peer_id == exclude {
        spec_candidates(peers.drop_last(), exclude)
    } else {
        spec_candidates(peers.drop_last(), exclude).push(peers.last().peer_id)
    }
}

/// The time `wait` after `now`, or the largest time where that is beyond it.
pub open spec fn spec_deadline(now: u64, wait: u64) -> u64 {
    if now + wait > u64::MAX {
        u64::MAX
    } else {
        (now + wait) as u64
    }
}

/// The length of the content of the transaction in a queue entry.
pub open spec fn spec_entry_bytes(entry: RpcOutView) -> Option<usize> {
    match entry {
        RpcOutView::Publish { tx, timeout } => Some(tx.data.len() as usize),
        RpcOutView::Forward { tx, timeout } => Some(tx.data.len() as usize),
        _ => None,
    }
}

/// The counts after `entry` was taken `n` times by a queue: each time counts
/// one transaction sent, where the entry holds one.
pub open spec fn spec_counts_sent(counts: Option<Counts>, entry: RpcOutView, n: nat) -> Option<
    Counts,
>
    decreases n,
{
    if n == 0 {
        counts
    } else {
        match (spec_counts_sent(counts, entry, (n - 1) as nat), spec_entry_bytes(entry)) {
            (Some(c), Some(bytes)) => Some(c.spec_tx_sent(bytes)),
            (other, _) => other,
        }
    }
}

/// The counts after a step that is counted where counts are kept.
pub open spec fn spec_counts_published(counts: Option<Counts>) -> Option<Counts> {
    match counts {
        Some(c) => Some(c.spec_published()),
        None => None,
    }
}

pub open spec fn spec_counts_recv_unfiltered(counts: Option<Counts>, bytes: usize) -> Option<
    Counts,
> {
    match counts {
        Some(c) => Some(c.spec_tx_recv_unfiltered(bytes)),
        None => None,
    }
}

pub open spec fn spec_counts_recv(counts: Option<Counts>) -> Option<Counts> {
    match counts {
        Some(c) => Some(c.spec_tx_recv()),
        None => None,
    }
}

/// The peers after a reception from `source` was counted.
pub open spec fn spec_record(peers: Seq<PeerView>, source: Seq<u8>, id: Seq<u8>, newly: bool) -> Seq<
    PeerView,
> {
    match spec_find_peer(peers, source) {
        Some(i) => peers.update(i, peers[i].record(id, newly)),
        None => peers,
    }
}

/// The connections without `connection`, in order.
pub open spec fn spec_without_connection(
    connections: Seq<ConnectionId>,
    connection: ConnectionId,
) -> Seq<ConnectionId>
    decreases connections.len(),
{
    if connections.len() == 0 {
        Seq::empty()
    } else if connections.last() == connection {
        spec_without_connection(connections.drop_last(), connection)
    } else {
        spec_without_connection(connections.drop_last(), connection).push(connections.last())
    }
}

/// The identifiers that the `HAVE_TX` messages among `msgs` name, in order.
pub open spec fn spec_have_tx_ids(msgs: Seq<ControlActionView>) -> Seq<Seq<u8>>
    decreases msgs.len(),
{
    if msgs.len() == 0 {
        Seq::empty()
    } else {
        match msgs.last() {
            ControlActionView::HaveTx(have_tx) => spec_have_tx_ids(msgs.drop_last()).push(
                have_tx.tx_id,
            ),
            ControlActionView::ResetRoute => spec_have_tx_ids(msgs.drop_last()),
        }
    }
}

/// The result of a publish.
pub enum PublishOutcome {
    Published(Seq<u8>),
    Duplicate,
    InsufficientPeers,
    TransactionTooLarge,
    TransformFailed,
    AllQueuesFull(usize),
}

/// Everything that a node holds.
pub struct BehaviourView {
    /// The configuration.
    pub config: Config,
    /// The identity under which the node publishes.
    pub author: Seq<u8>,
    /// The sequence number of the last transaction that the node built.
    pub seqno: u64,
    /// The events that wait for the user, first in first out.
    pub events: Seq<EventView>,
    /// The connected peers, in the order in which they connected.
    pub peers: Seq<PeerView>,
    /// The duplicate filter.
    pub cache: Seq<CacheEntry>,
    /// The closed routes.
    pub routes: Seq<RouteView>,
    /// The counts, where the node keeps them.
    pub counts: Option<Counts>,
    /// The time of the next periodic evaluation.
    pub next_evaluation: u64,
}

impl BehaviourView {
    /// The transaction that the next publish of `data` builds.
    pub open spec fn next_transaction(self, data: Seq<u8>) -> TransactionView {
        TransactionView { from: self.author, seqno: (self.seqno + 1) as u64, data }
    }

    /// The queue entry of a publish of `transformed` at `now`.
    pub open spec fn publish_entry(self, transformed: Seq<u8>, now: u64) -> RpcOutView {
        RpcOutView::Publish {
            tx: self.next_transaction(transformed),
            timeout: spec_deadline(now, self.config.publish_queue_duration),
        }
    }

    /// The queue entry that forwards `raw` at `now`.
    pub open spec fn forward_entry(self, raw: TransactionView, now: u64) -> RpcOutView {
        RpcOutView::Forward {
            tx: raw,
            timeout: spec_deadline(now, self.config.forward_queue_duration),
        }
    }

    /// A publish of `data` at `now`, where the outbound transform gave
    /// `transformed` (`None` for a failure): the state afterwards and the
    /// result.
    ///
    /// A failed transform, or content that is longer than a frame may be once
    /// transformed, changes nothing. Otherwise the next sequence number is
    /// taken and the identifier goes into the duplicate filter. Where it was
    /// there already, or no peer is connected, the publish ends there. Else
    /// the transaction is offered to the queue of every connected peer,
    /// whatever routes are closed, and the publish succeeds where at least
    /// one queue took it.
    pub open spec fn publish(self, data: Seq<u8>, transformed: Option<Seq<u8>>, now: u64) -> (
        BehaviourView,
        PublishOutcome,
    ) {
        match transformed {
            None => (self, PublishOutcome::TransformFailed),
            Some(content) => if content.len() > self.config.max_transmit_size {
                (self, PublishOutcome::TransactionTooLarge)
            } else {
                let id = spec_transaction_id(self.next_transaction(data));
                let (cache, newly) = spec_insert(
                    self.cache,
                    id,
                    self.author,
                    now,
                    self.config.duplicate_cache_time,
                );
                let built = BehaviourView { seqno: (self.seqno + 1) as u64, cache, ..self };
                if !newly {
                    (built, PublishOutcome::Duplicate)
                } else if self.peers.len() == 0 {
                    (built, PublishOutcome::InsufficientPeers)
                } else {
                    let entry = self.publish_entry(content, now);
                    let (peers, taken) = spec_send_each(
                        self.peers,
                        spec_peer_ids(self.peers),
                        entry,
                    );
                    let sent = BehaviourView {
                        peers,
                        counts: spec_counts_sent(self.counts, entry, taken),
                        ..built
                    };
                    if taken == 0 {
                        (sent, PublishOutcome::AllQueuesFull(self.peers.len() as usize))
                    } else {
                        (
                            BehaviourView { counts: spec_counts_published(sent.counts), ..sent },
                            PublishOutcome::Published(id),
                        )
                    }
                }
            },
        }
    }

    /// Whether a publish of `data` at `now` is accepted, where the outbound
    /// transform gave `transformed`: the transform succeeded, the content is
    /// no longer than a frame may be, the identifier is not in the duplicate
    /// filter, and some connected peer has room in its queue.
    pub open spec fn publish_accepts(
        self,
        data: Seq<u8>,
        transformed: Option<Seq<u8>>,
        now: u64,
    ) -> bool {
        match transformed {
            Some(content) => {
                &&& content.len() <= self.config.max_transmit_size
                &&& !spec_contains(
                    crate::time_cache::spec_unexpired(self.cache, now),
                    spec_transaction_id(self.next_transaction(data)),
                )
                &&& exists|k: int| 0 <= k < self.peers.len() && (#[trigger] self.peers[k]).has_room()
            },
            None => false,
        }
    }

    /// The identities that `raw`, received from `exclude`, is forwarded to:
    /// every connected peer but `exclude`, less those to which the route from
    /// the origin of `raw` is closed.
    pub open spec fn forward_targets(self, raw: TransactionView, exclude: Seq<u8>) -> Seq<Seq<u8>> {
        spec_valid_targets(self.routes, raw.from, spec_candidates(self.peers, exclude))
    }

    /// The state after `raw`, received from `exclude`, was forwarded at `now`.
    pub open spec fn forward(self, raw: TransactionView, exclude: Seq<u8>, now: u64) -> BehaviourView {
        let entry = self.forward_entry(raw, now);
        let (peers, taken) = spec_send_each(self.peers, self.forward_targets(raw, exclude), entry);
        BehaviourView { peers, counts: spec_counts_sent(self.counts, entry, taken), ..self }
    }

    /// Whether `raw`, become `tx` by the inbound transform, is new at `now`.
    pub open spec fn is_new(self, raw: TransactionView, tx: TransactionView, now: u64) -> bool {
        spec_insert(
            self.cache,
            spec_transaction_id(tx),
            raw.from,
            now,
            self.config.duplicate_cache_time,
        ).1
    }

    /// The reception at `now` of `raw` from the peer `source`, where the
    /// inbound transform gave `transformed` (`None` for a failure).
    ///
    /// The reception is counted. A transaction that fails the transform is
    /// dropped. Otherwise its identifier goes into the duplicate filter, with
    /// its origin, and the controller of `source` counts a first-time
    /// reception or a duplicate. Only a transaction that is new is delivered
    /// to the user and, where the node forwards at all, forwarded.
    #[verifier::opaque]
    pub open spec fn receive(
        self,
        raw: TransactionView,
        transformed: Option<TransactionView>,
        source: Seq<u8>,
        now: u64,
    ) -> BehaviourView {
        let counted = BehaviourView {
            counts: spec_counts_recv_unfiltered(self.counts, raw.data.len() as usize),
            ..self
        };
        match transformed {
            None => counted,
            Some(tx) => {
                let id = spec_transaction_id(tx);
                let (cache, newly) = spec_insert(
                    self.cache,
                    id,
                    raw.from,
                    now,
                    self.config.duplicate_cache_time,
                );
                let recorded = BehaviourView {
                    cache,
                    peers: spec_record(self.peers, source, id, newly),
                    ..counted
                };
                if !newly {
                    recorded
                } else {
                    let delivered = BehaviourView {
                        events: self.events.push(
                            EventView::Transaction {
                                propagation_source: source,
                                transaction_id: id,
                                transaction: tx,
                            },
                        ),
                        counts: spec_counts_recv(counted.counts),
                        ..recorded
                    };
                    if self.config.forward_transactions {
                        delivered.forward(raw, source, now)
                    } else {
                        delivered
                    }
                }
            },
        }
    }

    /// `HAVE_TX` with the identifier `id` from the peer `source`: the route
    /// from the origin of that transaction to `source` is closed, and the user
    /// is told. An identifier that the duplicate filter does not hold changes
    /// nothing.
    pub open spec fn have_tx(self, source: Seq<u8>, id: Seq<u8>) -> BehaviourView {
        match spec_origin_of(self.cache, id) {
            Some(origin) => {
                let routes = self.routes.push(RouteView { source: origin, target: source });
                BehaviourView {
                    routes,
                    events: self.events.push(EventView::RoutingUpdated { disabled_routes: routes }),
                    ..self
                }
            },
            None => self,
        }
    }

    /// `HAVE_TX` from `source` for each of `ids` in turn.
    pub open spec fn have_txs(self, source: Seq<u8>, ids: Seq<Seq<u8>>) -> BehaviourView
        decreases ids.len(),
    {
        if ids.len() == 0 {
            self
        } else {
            self.have_tx(source, ids[0]).have_txs(source, ids.skip(1))
        }
    }

    /// The receptions at the times `outcomes[i].1` of the transactions `txs`
    /// from `source`, in turn, where the inbound transform gave
    /// `outcomes[i].0` for the transaction `txs[i]`.
    pub open spec fn receive_all(
        self,
        txs: Seq<TransactionView>,
        outcomes: Seq<(Option<TransactionView>, u64)>,
        source: Seq<u8>,
    ) -> BehaviourView
        decreases txs.len(),
    {
        if txs.len() == 0 || outcomes.len() == 0 {
            self
        } else {
            self.receive(txs[0], outcomes[0].0, source, outcomes[0].1).receive_all(
                txs.skip(1),
                outcomes.skip(1),
                source,
            )
        }
    }

    /// The transactions of an RPC that are handled: all of them, or the
    /// first ones up to the configured limit.
    pub open spec fn handled(self, txs: Seq<TransactionView>) -> Seq<TransactionView> {
        match self.config.max_transactions_per_rpc {
            Some(limit) => if limit < txs.len() {
                txs.take(limit as int)
            } else {
                txs
            },
            None => txs,
        }
    }

    /// An RPC from `source`: its transactions are received in turn, as far
    /// as they are handled; then each `HAVE_TX` of its control messages is
    /// answered; then, where it holds a `RESET_ROUTE`, the closed route at
    /// `pick` is opened again, if one was picked.
    pub open spec fn handle_rpc(
        self,
        source: Seq<u8>,
        rpc: RpcView,
        outcomes: Seq<(Option<TransactionView>, u64)>,
        pick: Option<int>,
    ) -> BehaviourView {
        self.receive_all(self.handled(rpc.transactions), outcomes, source).answer(
            source,
            rpc.control_msgs,
            pick,
        )
    }

    /// The control messages `msgs` from `source` are answered: each
    /// `HAVE_TX` in order, then the closed route at `pick` is opened again, if
    /// one was picked.
    pub open spec fn answer(
        self,
        source: Seq<u8>,
        msgs: Seq<ControlActionView>,
        pick: Option<int>,
    ) -> BehaviourView {
        let answered = self.have_txs(source, spec_have_tx_ids(msgs));
        match pick {
            Some(index) => answered.reset_route_at(index),
            None => answered,
        }
    }

    /// Whether `outcomes` and `pick` fit an RPC from `source`: there is one
    /// outcome for each transaction that is handled, and `pick` is allowed
    /// for the state in which the `RESET_ROUTE` is answered.
    pub open spec fn rpc_outcome_allowed(
        self,
        source: Seq<u8>,
        rpc: RpcView,
        outcomes: Seq<(Option<TransactionView>, u64)>,
        pick: Option<int>,
    ) -> bool {
        &&& outcomes.len() == self.handled(rpc.transactions).len()
        &&& self.receive_all(self.handled(rpc.transactions), outcomes, source).have_txs(
            source,
            spec_have_tx_ids(rpc.control_msgs),
        ).pick_allowed(source, rpc.control_msgs, pick)
    }

    /// Whether `pick` may answer the control messages `msgs` from `source`:
    /// with a `RESET_ROUTE` among them and a closed route to `source`, it is
    /// the place of such a route; else it is `None`.
    pub open spec fn pick_allowed(
        self,
        source: Seq<u8>,
        msgs: Seq<ControlActionView>,
        pick: Option<int>,
    ) -> bool {
        match pick {
            Some(index) => crate::types::spec_reset_routes(msgs) > 0 && 0 <= index
                < self.routes.len() && self.routes[index].target == source,
            None => crate::types::spec_reset_routes(msgs) == 0 || forall|i: int|
                0 <= i < self.routes.len() ==> (#[trigger] self.routes[i]).target != source,
        }
    }

    /// `RESET_ROUTE`, answered by opening the closed route at place `index`
    /// again: the user is told.
    pub open spec fn reset_route_at(self, index: int) -> BehaviourView {
        let routes = self.routes.remove(index);
        BehaviourView {
            routes,
            events: self.events.push(EventView::RoutingUpdated { disabled_routes: routes }),
            ..self
        }
    }

    /// A connection to `peer` was established: the first one creates the
    /// state for the peer; the connection is listed, once.
    pub open spec fn connection_established(self, peer: Seq<u8>, connection: ConnectionId) -> BehaviourView {
        match spec_find_peer(self.peers, peer) {
            Some(i) => if self.peers[i].connections.contains(connection) {
                self
            } else {
                BehaviourView {
                    peers: self.peers.update(
                        i,
                        PeerView {
                            connections: self.peers[i].connections.push(connection),
                            ..self.peers[i]
                        },
                    ),
                    ..self
                }
            },
            None => BehaviourView {
                peers: self.peers.push(
                    PeerView { connections: seq![connection], ..PeerView::fresh(peer, self.config) },
                ),
                ..self
            },
        }
    }

    /// A connection to `peer` was closed, and `remaining` are left. While
    /// some are left, the connection is struck from the list. With the last
    /// one, the state for the peer goes, its queue with it, and so does every
    /// closed route that has the peer at either end; the user is told where
    /// that changed the closed routes.
    pub open spec fn connection_closed(
        self,
        peer: Seq<u8>,
        connection: ConnectionId,
        remaining: usize,
    ) -> BehaviourView {
        if remaining != 0 {
            match spec_find_peer(self.peers, peer) {
                Some(i) => BehaviourView {
                    peers: self.peers.update(
                        i,
                        PeerView {
                            connections: spec_without_connection(
                                self.peers[i].connections,
                                connection,
                            ),
                            ..self.peers[i]
                        },
                    ),
                    ..self
                },
                None => self,
            }
        } else {
            let peers = match spec_find_peer(self.peers, peer) {
                Some(i) => self.peers.remove(i),
                None => self.peers,
            };
            let routes = spec_without_peer(self.routes, peer);
            BehaviourView {
                peers,
                routes,
                events: if routes.len() != self.routes.len() {
                    self.events.push(EventView::RoutingUpdated { disabled_routes: routes })
                } else {
                    self.events
                },
                ..self
            }
        }
    }

    /// The state after the entry at the front of the queue of `peer` was
    /// taken by a connection handler.
    pub open spec fn take_front(self, peer: Seq<u8>) -> BehaviourView {
        match spec_find_peer(self.peers, peer) {
            Some(i) => if self.peers[i].queue.len() > 0 {
                BehaviourView {
                    peers: self.peers.update(
                        i,
                        PeerView { queue: self.peers[i].queue.skip(1), ..self.peers[i] },
                    ),
                    ..self
                }
            } else {
                self
            },
            None => self,
        }
    }

    /// The entry at the front of the queue of `peer`, if `peer` is connected
    /// and anything waits for it.
    pub open spec fn front(self, peer: Seq<u8>) -> Option<RpcOutView> {
        match spec_find_peer(self.peers, peer) {
            Some(i) => if self.peers[i].queue.len() > 0 {
                Some(self.peers[i].queue[0])
            } else {
                None
            },
            None => None,
        }
    }

    /// What waits in the queue of `peer`: nothing where `peer` is not
    /// connected.
    pub open spec fn queue_of(self, peer: Seq<u8>) -> Seq<RpcOutView> {
        match spec_find_peer(self.peers, peer) {
            Some(i) => self.peers[i].queue,
            None => Seq::empty(),
        }
    }

    /// The periodic evaluation: every peer is adjusted.
    pub open spec fn adjust_redundancy(self) -> BehaviourView {
        BehaviourView {
            peers: Seq::new(self.peers.len(), |i: int| self.peers[i].adjust()),
            ..self
        }
    }

    /// One poll at `now`: the first waiting event is taken; with none
    /// waiting, the periodic evaluation runs if its time has come, and is set
    /// for one interval later.
    pub open spec fn poll(self, now: u64) -> (BehaviourView, Option<EventView>) {
        if self.events.len() > 0 {
            (BehaviourView { events: self.events.skip(1), ..self }, Some(self.events[0]))
        } else if now >= self.next_evaluation {
            (
                BehaviourView {
                    next_evaluation: spec_deadline(now, self.config.redundancy_interval),
                    ..self.adjust_redundancy()
                },
                None,
            )
        } else {
            (self, None)
        }
    }

    /// No two peers have the same identity, every peer is well formed, and
    /// the duplicate filter holds no identifier twice.
    pub open spec fn wf(self) -> bool {
        &&& forall|i: int, j: int|
            0 <= i < j < self.peers.len() ==> (#[trigger] self.peers[i]).peer_id
                != (#[trigger] self.peers[j]).peer_id
        &&& forall|i: int| 0 <= i < self.peers.len() ==> (#[trigger] self.peers[i]).wf()
        &&& crate::time_cache::spec_distinct(self.cache)
    }
}

/// The law of publishing: a publish that is accepted leaves its identifier
/// in the duplicate filter before it returns, and takes the sequence number
/// one above the last.
pub proof fn lemma_publish_inserts(
    state: BehaviourView,
    data: Seq<u8>,
    transformed: Option<Seq<u8>>,
    now: u64,
)
    ensures
        match state.publish(data, transformed, now).1 {
            PublishOutcome::Published(id) => {
                &&& spec_contains(state.publish(data, transformed, now).0.cache, id)
                &&& id == spec_transaction_id(state.next_transaction(data))
                &&& state.publish(data, transformed, now).0.seqno == (state.seqno + 1) as u64
            },
            _ => true,
        },
{
    match transformed {
        Some(content) => {
            let id = spec_transaction_id(state.next_transaction(data));
            let inserted = spec_insert(
                state.cache,
                id,
                state.author,
                now,
                state.config.duplicate_cache_time,
            );
            if inserted.1 {
                assert(inserted.0[inserted.0.len() - 1].value == id);
            }
        },
        None => {},
    }
}

/// None of the candidates is the peer that is left out, and each is a
/// connected peer.
pub proof fn lemma_candidates(peers: Seq<PeerView>, exclude: Seq<u8>)
    ensures
        forall|k: int|
            0 <= k < spec_candidates(peers, exclude).len() ==> #[trigger] spec_candidates(
                peers,
                exclude,
            )[k] != exclude,
    decreases peers.len(),
{
    if peers.len() == 0 {
    } else {
        let init = spec_candidates(peers.drop_last(), exclude);
        let all = spec_candidates(peers, exclude);
        lemma_candidates(peers.drop_last(), exclude);
        assert forall|k: int| 0 <= k < all.len() implies #[trigger] all[k] != exclude by {
            if k < init.len() {
                assert(all[k] == init[k]);
            }
        }
    }
}

/// Counting a reception changes neither the queues nor who is connected.
pub proof fn lemma_record_shape(peers: Seq<PeerView>, source: Seq<u8>, id: Seq<u8>, newly: bool)
    ensures
        spec_record(peers, source, id, newly).len() == peers.len(),
        forall|k: int|
            0 <= k < peers.len() ==> (#[trigger] spec_record(peers, source, id, newly)[k]).queue
                == peers[k].queue && spec_record(peers, source, id, newly)[k].peer_id
                == peers[k].peer_id && spec_record(peers, source, id, newly)[k].capacity
                == peers[k].capacity && (peers[k].wf() ==> spec_record(
                peers,
                source,
                id,
                newly,
            )[k].wf()),
{
    lemma_find_peer(peers, source);
}

/// A transaction is never forwarded back along the link it arrived on: a
/// reception from `source` leaves the queue of `source` as it was. It also
/// leaves connected who was connected.
pub proof fn lemma_never_forwarded_back(
    state: BehaviourView,
    raw: TransactionView,
    transformed: Option<TransactionView>,
    source: Seq<u8>,
    now: u64,
)
    ensures
        state.receive(raw, transformed, source, now).peers.len() == state.peers.len(),
        state.receive(raw, transformed, source, now).config == state.config,
        forall|k: int|
            0 <= k < state.peers.len() ==> (#[trigger] state.receive(
                raw,
                transformed,
                source,
                now,
            ).peers[k]).peer_id == state.peers[k].peer_id,
        forall|k: int|
            0 <= k < state.peers.len() && state.peers[k].peer_id == source ==> (
            #[trigger] state.receive(raw, transformed, source, now).peers[k]).queue
                == state.peers[k].queue,
{
    reveal(BehaviourView::receive);
    match transformed {
        None => {},
        Some(tx) => {
            let id = spec_transaction_id(tx);
            let newly = state.is_new(raw, tx, now);
            let recorded = spec_record(state.peers, source, id, newly);
            lemma_record_shape(state.peers, source, id, newly);
            if newly && state.config.forward_transactions {
                let candidates = spec_candidates(recorded, source);
                let targets = spec_valid_targets(state.routes, raw.from, candidates);
                let entry = state.forward_entry(raw, now);
                lemma_candidates(recorded, source);
                lemma_valid_targets(state.routes, raw.from, candidates);
                lemma_send_each_shape(recorded, targets, entry);
                let after = spec_send_each(recorded, targets, entry).0;
                assert(after == state.receive(raw, transformed, source, now).peers);
                assert forall|k: int|
                    0 <= k < state.peers.len() && state.peers[k].peer_id == source implies (
                #[trigger] after[k]).queue == state.peers[k].queue by {
                    if after[k] != recorded[k] {
                        assert(targets.contains(source));
                        let j = choose|j: int| 0 <= j < targets.len() && targets[j] == source;
                        assert(candidates.contains(targets[j]));
                        let i = choose|i: int|
                            0 <= i < candidates.len() && candidates[i] == targets[j];
                        assert(candidates[i] != source);
                    }
                }
                assert forall|k: int| 0 <= k < state.peers.len() implies (#[trigger] after[k]).peer_id
                    == state.peers[k].peer_id by {
                    assert(spec_same_but_queue(recorded[k], after[k]));
                }
            }
        },
    }
}

/// A reception delivers at most the transaction that was received, and
/// only where that is new; afterwards its identifier is in the duplicate
/// filter.
pub proof fn lemma_receive_delivers_once(
    state: BehaviourView,
    raw: TransactionView,
    tx: TransactionView,
    source: Seq<u8>,
    now: u64,
)
    ensures
        state.receive(raw, Some(tx), source, now).events == if state.is_new(raw, tx, now) {
            state.events.push(
                EventView::Transaction {
                    propagation_source: source,
                    transaction_id: spec_transaction_id(tx),
                    transaction: tx,
                },
            )
        } else {
            state.events
        },
        spec_contains(state.receive(raw, Some(tx), source, now).cache, spec_transaction_id(tx)),
        state.receive(raw, Some(tx), source, now).cache == spec_insert(
            state.cache,
            spec_transaction_id(tx),
            raw.from,
            now,
            state.config.duplicate_cache_time,
        ).0,
        state.receive(raw, Some(tx), source, now).config == state.config,
{
    reveal(BehaviourView::receive);
    let id = spec_transaction_id(tx);
    let inserted = spec_insert(state.cache, id, raw.from, now, state.config.duplicate_cache_time);
    if inserted.1 {
        assert(inserted.0[inserted.0.len() - 1].value == id);
    }
}

/// A transaction is delivered to the user at most once while the duplicate
/// filter remembers it: once it was delivered at `first`, receiving it again
/// at `second`, less than the filter's time later, from whichever peer,
/// delivers nothing.
pub proof fn lemma_no_redelivery_within_ttl(
    state: BehaviourView,
    raw: TransactionView,
    again: TransactionView,
    tx: TransactionView,
    source: Seq<u8>,
    other: Seq<u8>,
    first: u64,
    second: u64,
)
    requires
        state.is_new(raw, tx, first),
        first <= second < first + state.config.duplicate_cache_time,
    ensures
        state.receive(raw, Some(tx), source, first).receive(again, Some(tx), other, second).events
            == state.receive(raw, Some(tx), source, first).events,
{
    let once = state.receive(raw, Some(tx), source, first);
    lemma_receive_delivers_once(state, raw, tx, source, first);
    lemma_receive_delivers_once(once, again, tx, other, second);
    crate::time_cache::lemma_no_false_negative_within_ttl(
        state.cache,
        spec_transaction_id(tx),
        raw.from,
        again.from,
        first,
        second,
        state.config.duplicate_cache_time,
    );
}

/// Answering `HAVE_TX` messages touches no peer, nor the duplicate filter.
pub proof fn lemma_have_txs_shape(state: BehaviourView, source: Seq<u8>, ids: Seq<Seq<u8>>)
    ensures
        state.have_txs(source, ids).peers == state.peers,
        state.have_txs(source, ids).cache == state.cache,
        state.have_txs(source, ids).config == state.config,
    decreases ids.len(),
{
    if ids.len() == 0 {
    } else {
        lemma_have_txs_shape(state.have_tx(source, ids[0]), source, ids.skip(1));
    }
}

/// Receiving a run of transactions from `source` leaves the queue of
/// `source` as it was, and connected who was connected.
pub proof fn lemma_receive_all_shape(
    state: BehaviourView,
    txs: Seq<TransactionView>,
    outcomes: Seq<(Option<TransactionView>, u64)>,
    source: Seq<u8>,
)
    ensures
        state.receive_all(txs, outcomes, source).peers.len() == state.peers.len(),
        state.receive_all(txs, outcomes, source).config == state.config,
        forall|k: int|
            0 <= k < state.peers.len() ==> (#[trigger] state.receive_all(
                txs,
                outcomes,
                source,
            ).peers[k]).peer_id == state.peers[k].peer_id,
        forall|k: int|
            0 <= k < state.peers.len() && state.peers[k].peer_id == source ==> (
            #[trigger] state.receive_all(txs, outcomes, source).peers[k]).queue
                == state.peers[k].queue,
    decreases txs.len(),
{
    if txs.len() == 0 || outcomes.len() == 0 {
    } else {
        let next = state.receive(txs[0], outcomes[0].0, source, outcomes[0].1);
        lemma_never_forwarded_back(state, txs[0], outcomes[0].0, source, outcomes[0].1);
        lemma_receive_all_shape(next, txs.skip(1), outcomes.skip(1), source);
        let last = state.receive_all(txs, outcomes, source);
        assert(last == next.receive_all(txs.skip(1), outcomes.skip(1), source));
        assert forall|k: int| 0 <= k < state.peers.len() implies (#[trigger] last.peers[k]).peer_id
            == state.peers[k].peer_id by {
            assert(next.peers[k].peer_id == state.peers[k].peer_id);
        }
        assert forall|k: int|
            0 <= k < state.peers.len() && state.peers[k].peer_id == source implies (
        #[trigger] last.peers[k]).queue == state.peers[k].queue by {
            assert(next.peers[k].peer_id == state.peers[k].peer_id);
            assert(next.peers[k].queue == state.peers[k].queue);
        }
    }
}

/// Nothing that an RPC from `source` holds puts anything into the queue of
/// `source`, whatever the transforms, the clock and the pick give.
pub proof fn lemma_rpc_never_forwarded_back(
    state: BehaviourView,
    source: Seq<u8>,
    rpc: RpcView,
    outcomes: Seq<(Option<TransactionView>, u64)>,
    pick: Option<int>,
)
    ensures
        state.handle_rpc(source, rpc, outcomes, pick).peers.len() == state.peers.len(),
        forall|k: int|
            0 <= k < state.peers.len() ==> (#[trigger] state.handle_rpc(
                source,
                rpc,
                outcomes,
                pick,
            ).peers[k]).peer_id == state.peers[k].peer_id,
        forall|k: int|
            0 <= k < state.peers.len() && state.peers[k].peer_id == source ==> (
            #[trigger] state.handle_rpc(source, rpc, outcomes, pick).peers[k]).queue
                == state.peers[k].queue,
{
    let received = state.receive_all(state.handled(rpc.transactions), outcomes, source);
    lemma_receive_all_shape(state, state.handled(rpc.transactions), outcomes, source);
    lemma_have_txs_shape(received, source, spec_have_tx_ids(rpc.control_msgs));
}

/// Receiving a run of transactions and then one more is receiving the
/// longer run.
pub proof fn lemma_receive_all_push(
    state: BehaviourView,
    txs: Seq<TransactionView>,
    outcomes: Seq<(Option<TransactionView>, u64)>,
    tx: TransactionView,
    outcome: (Option<TransactionView>, u64),
    source: Seq<u8>,
)
    requires
        txs.len() == outcomes.len(),
    ensures
        state.receive_all(txs.push(tx), outcomes.push(outcome), source) == state.receive_all(
            txs,
            outcomes,
            source,
        ).receive(tx, outcome.0, source, outcome.1),
    decreases txs.len(),
{
    reveal_with_fuel(BehaviourView::receive_all, 2);
    if txs.len() == 0 {
        assert(txs.push(tx).skip(1) =~= Seq::<TransactionView>::empty());
        assert(outcomes.push(outcome).skip(1) =~= Seq::<(Option<TransactionView>, u64)>::empty());
    } else {
        let next = state.receive(txs[0], outcomes[0].0, source, outcomes[0].1);
        assert(txs.push(tx).skip(1) =~= txs.skip(1).push(tx));
        assert(outcomes.push(outcome).skip(1) =~= outcomes.skip(1).push(outcome));
        lemma_receive_all_push(next, txs.skip(1), outcomes.skip(1), tx, outcome, source);
    }
}

/// Whether no identity occurs twice.
pub open spec fn spec_distinct_ids(ids: Seq<Seq<u8>>) -> bool {
    forall|i: int, j: int| 0 <= i < j < ids.len() ==> ids[i] != ids[j]
}

/// Whether no two peers have the same identity.
pub open spec fn spec_distinct_peers(peers: Seq<PeerView>) -> bool {
    forall|i: int, j: int|
        0 <= i < j < peers.len() ==> (#[trigger] peers[i]).peer_id != (#[trigger] peers[j]).peer_id
}

/// The peers after `entry` was offered to each peer whose identity is among
/// `targets`.
pub open spec fn spec_offer_where(
    peers: Seq<PeerView>,
    targets: Seq<Seq<u8>>,
    entry: RpcOutView,
) -> Seq<PeerView> {
    Seq::new(
        peers.len(),
        |k: int|
            if targets.contains(peers[k].peer_id) {
                peers[k].offer(entry)
            } else {
                peers[k]
            },
    )
}

/// Among peers with distinct identities, sending to each of a run of
/// distinct targets offers the entry to exactly the peers that are named.
pub proof fn lemma_send_each_offers(peers: Seq<PeerView>, targets: Seq<Seq<u8>>, entry: RpcOutView)
    requires
        spec_distinct_peers(peers),
        spec_distinct_ids(targets),
    ensures
        spec_send_each(peers, targets, entry).0 == spec_offer_where(peers, targets, entry),
    decreases targets.len(),
{
    let want = spec_offer_where(peers, targets, entry);
    if targets.len() == 0 {
        assert(spec_send_each(peers, targets, entry).0 =~= want);
    } else {
        let first = targets[0];
        let rest = targets.skip(1);
        let next = spec_send_to(peers, first, entry).0;
        lemma_find_peer(peers, first);
        lemma_send_to_shape(peers, first, entry);
        assert(spec_distinct_peers(next)) by {
            assert forall|i: int, j: int| 0 <= i < j < next.len() implies (#[trigger] next[i]).peer_id
                != (#[trigger] next[j]).peer_id by {
                assert(spec_same_but_queue(peers[i], next[i]));
                assert(spec_same_but_queue(peers[j], next[j]));
            }
        }
        assert(spec_distinct_ids(rest)) by {
            assert forall|i: int, j: int| 0 <= i < j < rest.len() implies rest[i] != rest[j] by {
                assert(rest[i] == targets[i + 1]);
                assert(rest[j] == targets[j + 1]);
            }
        }
        lemma_send_each_offers(next, rest, entry);
        let last = spec_send_each(peers, targets, entry).0;
        assert(last == spec_offer_where(next, rest, entry));
        assert forall|k: int| 0 <= k < peers.len() implies last[k] == want[k] by {
            assert(spec_same_but_queue(peers[k], next[k]));
            if peers[k].peer_id == first {
                // the one peer that the first target names
                assert(!rest.contains(first)) by {
                    if rest.contains(first) {
                        let j = choose|j: int| 0 <= j < rest.len() && rest[j] == first;
                        assert(targets[j + 1] == first);
                    }
                }
                assert(targets.contains(first));
                match spec_find_peer(peers, first) {
                    Some(i) => {
                        assert(i == k);
                    },
                    None => {},
                }
            } else {
                assert(next[k] == peers[k]);
                if rest.contains(peers[k].peer_id) {
                    let j = choose|j: int| 0 <= j < rest.len() && rest[j] == peers[k].peer_id;
                    assert(targets[j + 1] == peers[k].peer_id);
                } else if targets.contains(peers[k].peer_id) {
                    let j = choose|j: int| 0 <= j < targets.len() && targets[j] == peers[k].peer_id;
                    assert(rest[j - 1] == peers[k].peer_id);
                }
            }
        }
        assert(last =~= want);
    }
}

/// The candidates are the identities of the peers other than the one that
/// is left out, each once where the peers' identities are distinct.
pub proof fn lemma_candidates_members(peers: Seq<PeerView>, exclude: Seq<u8>)
    ensures
        forall|id: Seq<u8>|
            #[trigger] spec_candidates(peers, exclude).contains(id) <==> id != exclude && exists|
                k: int,
            |
                0 <= k < peers.len() && (#[trigger] peers[k]).peer_id == id,
        spec_distinct_peers(peers) ==> spec_distinct_ids(spec_candidates(peers, exclude)),
    decreases peers.len(),
{
    let all = spec_candidates(peers, exclude);
    if peers.len() == 0 {
    } else {
        let init_peers = peers.drop_last();
        let init = spec_candidates(init_peers, exclude);
        lemma_candidates_members(init_peers, exclude);
        assert forall|id: Seq<u8>| #[trigger] all.contains(id) <==> id != exclude && exists|k: int|
            0 <= k < peers.len() && (#[trigger] peers[k]).peer_id == id by {
            if all.contains(id) {
                let j = choose|j: int| 0 <= j < all.len() && all[j] == id;
                if j < init.len() {
                    assert(all[j] == init[j]);
                    assert(init.contains(id));
                    let k = choose|k: int|
                        0 <= k < init_peers.len() && (#[trigger] init_peers[k]).peer_id == id;
                    assert(peers[k].peer_id == id);
                } else {
                    assert(peers[peers.len() - 1].peer_id == id);
                }
            }
            if id != exclude && exists|k: int|
                0 <= k < peers.len() && (#[trigger] peers[k]).peer_id == id {
                let k = choose|k: int| 0 <= k < peers.len() && (#[trigger] peers[k]).peer_id == id;
                if k < init_peers.len() {
                    assert(init_peers[k].peer_id == id);
                    assert(init.contains(id));
                    let j = choose|j: int| 0 <= j < init.len() && init[j] == id;
                    assert(all[j] == id);
                } else {
                    assert(all[all.len() - 1] == id);
                }
            }
        }
        if spec_distinct_peers(peers) {
            assert(spec_distinct_peers(init_peers)) by {
                assert forall|i: int, j: int| 0 <= i < j < init_peers.len() implies (
                #[trigger] init_peers[i]).peer_id != (#[trigger] init_peers[j]).peer_id by {
                    assert(init_peers[i] == peers[i]);
                    assert(init_peers[j] == peers[j]);
                }
            }
            assert forall|i: int, j: int| 0 <= i < j < all.len() implies all[i] != all[j] by {
                if j < init.len() {
                    assert(all[i] == init[i] && all[j] == init[j]);
                } else {
                    assert(all[i] == init[i]);
                    assert(init.contains(all[i]));
                    let k = choose|k: int|
                        0 <= k < init_peers.len() && (#[trigger] init_peers[k]).peer_id == all[i];
                    assert(peers[k].peer_id == all[i]);
                    assert(all[j] == peers[peers.len() - 1].peer_id);
                }
            }
        }
    }
}

/// Filtering distinct targets leaves them distinct.
pub proof fn lemma_valid_targets_distinct(
    routes: Seq<RouteView>,
    source: Seq<u8>,
    targets: Seq<Seq<u8>>,
)
    requires
        spec_distinct_ids(targets),
    ensures
        spec_distinct_ids(spec_valid_targets(routes, source, targets)),
    decreases targets.len(),
{
    if targets.len() == 0 {
    } else {
        let init = targets.drop_last();
        let kept = spec_valid_targets(routes, source, init);
        let all = spec_valid_targets(routes, source, targets);
        assert(spec_distinct_ids(init)) by {
            assert forall|i: int, j: int| 0 <= i < j < init.len() implies init[i] != init[j] by {
                assert(init[i] == targets[i] && init[j] == targets[j]);
            }
        }
        lemma_valid_targets_distinct(routes, source, init);
        lemma_valid_targets(routes, source, init);
        assert forall|i: int, j: int| 0 <= i < j < all.len() implies all[i] != all[j] by {
            if j < kept.len() {
                assert(all[i] == kept[i] && all[j] == kept[j]);
            } else {
                assert(all[i] == kept[i]);
                assert(init.contains(kept[i]));
                let k = choose|k: int| 0 <= k < init.len() && init[k] == kept[i];
                assert(targets[k] == kept[i]);
                assert(all[j] == targets[targets.len() - 1]);
            }
        }
    }
}

/// Whether a transaction of `origin` that `exclude` sent is forwarded to
/// `peer`: it is not sent back, and not along a closed route.
pub open spec fn spec_forwarded_to(
    routes: Seq<RouteView>,
    origin: Seq<u8>,
    exclude: Seq<u8>,
    peer: Seq<u8>,
) -> bool {
    peer != exclude && !spec_route_disabled(routes, origin, peer)
}

/// The law of publishing to peers: among peers with distinct identities, a
/// publish that gets as far as sending offers the transaction to the queue
/// of every connected peer.
pub proof fn lemma_publish_offers_to_all(peers: Seq<PeerView>, entry: RpcOutView)
    requires
        spec_distinct_peers(peers),
    ensures
        spec_send_each(peers, spec_peer_ids(peers), entry).0 == Seq::new(
            peers.len(),
            |k: int| peers[k].offer(entry),
        ),
{
    let ids = spec_peer_ids(peers);
    lemma_send_each_offers(peers, ids, entry);
    let got = spec_offer_where(peers, ids, entry);
    assert forall|k: int| 0 <= k < peers.len() implies got[k] == peers[k].offer(entry) by {
        assert(ids[k] == peers[k].peer_id);
    }
    assert(got =~= Seq::new(peers.len(), |k: int| peers[k].offer(entry)));
}

/// The law of forwarding: in a well-formed state, forwarding a transaction
/// offers it to the queue of every connected peer other than the one that
/// sent it to which the route from its origin is open, and to no other.
pub proof fn lemma_forward_offers(
    state: BehaviourView,
    raw: TransactionView,
    exclude: Seq<u8>,
    now: u64,
)
    requires
        spec_distinct_peers(state.peers),
    ensures
        state.forward(raw, exclude, now).peers == Seq::new(
            state.peers.len(),
            |k: int|
                if spec_forwarded_to(state.routes, raw.from, exclude, state.peers[k].peer_id) {
                    state.peers[k].offer(state.forward_entry(raw, now))
                } else {
                    state.peers[k]
                },
        ),
{
    let candidates = spec_candidates(state.peers, exclude);
    let targets = state.forward_targets(raw, exclude);
    let entry = state.forward_entry(raw, now);
    lemma_candidates_members(state.peers, exclude);
    lemma_valid_targets_distinct(state.routes, raw.from, candidates);
    lemma_valid_targets(state.routes, raw.from, candidates);
    lemma_send_each_offers(state.peers, targets, entry);
    let got = spec_offer_where(state.peers, targets, entry);
    let want = Seq::new(
        state.peers.len(),
        |k: int|
            if spec_forwarded_to(state.routes, raw.from, exclude, state.peers[k].peer_id) {
                state.peers[k].offer(entry)
            } else {
                state.peers[k]
            },
    );
    assert forall|k: int| 0 <= k < state.peers.len() implies got[k] == want[k] by {
        let id = state.peers[k].peer_id;
        if targets.contains(id) {
            let j = choose|j: int| 0 <= j < targets.len() && targets[j] == id;
            assert(candidates.contains(targets[j]));
            assert(!spec_route_disabled(state.routes, raw.from, targets[j]));
        } else if spec_forwarded_to(state.routes, raw.from, exclude, id) {
            assert(candidates.contains(id));
            let i = choose|i: int| 0 <= i < candidates.len() && candidates[i] == id;
            assert(targets.contains(candidates[i]));
        }
    }
    assert(got =~= want);
}

/// Sending never shortens a queue; it leaves every queue as it was exactly
/// where the entry was never taken.
pub proof fn lemma_send_each_grows(peers: Seq<PeerView>, targets: Seq<Seq<u8>>, entry: RpcOutView)
    ensures
        spec_send_each(peers, targets, entry).0.len() == peers.len(),
        forall|k: int|
            0 <= k < peers.len() ==> (#[trigger] spec_send_each(
                peers,
                targets,
                entry,
            ).0[k]).queue.len() >= peers[k].queue.len(),
        spec_send_each(peers, targets, entry).1 == 0 ==> spec_send_each(peers, targets, entry).0
            == peers,
        spec_send_each(peers, targets, entry).1 > 0 ==> exists|k: int|
            0 <= k < peers.len() && (#[trigger] spec_send_each(
                peers,
                targets,
                entry,
            ).0[k]).queue.len() > peers[k].queue.len(),
    decreases targets.len(),
{
    if targets.len() == 0 {
    } else {
        let (next, taken) = spec_send_to(peers, targets[0], entry);
        let (last, n) = spec_send_each(next, targets.skip(1), entry);
        lemma_find_peer(peers, targets[0]);
        lemma_send_to_shape(peers, targets[0], entry);
        lemma_send_each_grows(next, targets.skip(1), entry);
        assert(spec_send_each(peers, targets, entry).0 == last);
        assert forall|k: int| 0 <= k < peers.len() implies (#[trigger] last[k]).queue.len()
            >= peers[k].queue.len() by {
            assert(next[k].queue.len() >= peers[k].queue.len());
        }
        if taken {
            let i = spec_find_peer(peers, targets[0]).unwrap();
            assert(next[i].queue.len() > peers[i].queue.len());
            assert(last[i].queue.len() > peers[i].queue.len());
        } else if n > 0 {
            let k = choose|k: int|
                0 <= k < next.len() && (#[trigger] last[k]).queue.len() > next[k].queue.len();
            assert(last[k].queue.len() > peers[k].queue.len());
        }
    }
}

/// The law of the result of a publish: among peers with distinct
/// identities, no queue takes the transaction exactly where every queue is
/// full.
pub proof fn lemma_publish_taken(peers: Seq<PeerView>, entry: RpcOutView)
    requires
        spec_distinct_peers(peers),
    ensures
        spec_send_each(peers, spec_peer_ids(peers), entry).1 == 0 <==> forall|k: int|
            0 <= k < peers.len() ==> !(#[trigger] peers[k]).has_room(),
{
    let ids = spec_peer_ids(peers);
    let (last, taken) = spec_send_each(peers, ids, entry);
    lemma_publish_offers_to_all(peers, entry);
    lemma_send_each_grows(peers, ids, entry);
    if taken == 0 {
        assert forall|k: int| 0 <= k < peers.len() implies !(#[trigger] peers[k]).has_room() by {
            assert(last[k] == peers[k].offer(entry));
            if peers[k].has_room() {
                assert(last[k].queue.len() == peers[k].queue.len() + 1);
            }
        }
    } else {
        let k = choose|k: int|
            0 <= k < peers.len() && (#[trigger] last[k]).queue.len() > peers[k].queue.len();
        assert(last[k] == peers[k].offer(entry));
        assert(peers[k].has_room());
    }
}

/// The law of when a publish succeeds, and of what it does then: in a
/// state whose peers have distinct identities, a publish succeeds exactly
/// where [`BehaviourView::publish_accepts`] holds, and then the transaction
/// waits at the back of the queue of every peer that had room, and the
/// queues of the others are as they were.
pub proof fn lemma_publish_outcome(
    state: BehaviourView,
    data: Seq<u8>,
    transformed: Option<Seq<u8>>,
    now: u64,
)
    requires
        spec_distinct_peers(state.peers),
    ensures
        state.publish(data, transformed, now).1 is Published <==> state.publish_accepts(
            data,
            transformed,
            now,
        ),
        state.publish(data, transformed, now).1 is Published ==> state.publish(
            data,
            transformed,
            now,
        ).0.peers == Seq::new(
            state.peers.len(),
            |k: int| state.peers[k].offer(state.publish_entry(transformed.unwrap(), now)),
        ),
{
    match transformed {
        Some(content) => {
            let entry = state.publish_entry(content, now);
            lemma_publish_taken(state.peers, entry);
            lemma_publish_offers_to_all(state.peers, entry);
        },
        None => {},
    }
}

/// Where the same peers are connected and the queues of `peer` are as they
/// were, what waits for `peer` is as it was.
pub proof fn lemma_queue_kept(before: BehaviourView, after: BehaviourView, peer: Seq<u8>)
    requires
        after.peers.len() == before.peers.len(),
        forall|k: int|
            0 <= k < before.peers.len() ==> (#[trigger] after.peers[k]).peer_id
                == before.peers[k].peer_id,
        forall|k: int|
            0 <= k < before.peers.len() && before.peers[k].peer_id == peer ==> (
            #[trigger] after.peers[k]).queue == before.peers[k].queue,
    ensures
        after.queue_of(peer) == before.queue_of(peer),
{
    lemma_find_peer(before.peers, peer);
    lemma_find_peer(after.peers, peer);
    match (spec_find_peer(before.peers, peer), spec_find_peer(after.peers, peer)) {
        (Some(i), Some(j)) => {
            assert(after.peers[i].peer_id == peer);
            assert(before.peers[j].peer_id == after.peers[j].peer_id);
            assert(i == j);
        },
        (Some(i), None) => {
            assert(after.peers[i].peer_id == peer);
        },
        (None, Some(j)) => {
            assert(before.peers[j].peer_id == after.peers[j].peer_id);
        },
        (None, None) => {},
    }
}

/// A transaction is never forwarded back along the link it arrived on:
/// nothing that an RPC from `source` holds changes what waits for `source`.
pub proof fn lemma_rpc_keeps_queue_of_source(
    state: BehaviourView,
    source: Seq<u8>,
    rpc: RpcView,
    outcomes: Seq<(Option<TransactionView>, u64)>,
    pick: Option<int>,
)
    ensures
        state.handle_rpc(source, rpc, outcomes, pick).queue_of(source) == state.queue_of(source),
{
    lemma_rpc_never_forwarded_back(state, source, rpc, outcomes, pick);
    lemma_queue_kept(state, state.handle_rpc(source, rpc, outcomes, pick), source);
}

/// A transaction is never forwarded back along the link it arrived on: a
/// reception from `source` does not change what waits for `source`.
pub proof fn lemma_receive_keeps_queue_of_source(
    state: BehaviourView,
    raw: TransactionView,
    transformed: Option<TransactionView>,
    source: Seq<u8>,
    now: u64,
)
    ensures
        state.receive(raw, transformed, source, now).queue_of(source) == state.queue_of(source),
{
    lemma_never_forwarded_back(state, raw, transformed, source, now);
    lemma_queue_kept(state, state.receive(raw, transformed, source, now), source);
}

} // verus!
