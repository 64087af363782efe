//! The behaviour of a node: publishing, receiving and forwarding
//! transactions, answering control messages, and following the connections
//! that the host opens and closes.

use vstd::prelude::*;
use vstd::std_specs::convert::FromSpecImpl;
use std::collections::VecDeque;
use crate::clock::{unix_time_nanos, Clock};
use crate::config::Config;
use crate::dog::{routes_view, Controller, ControllerAction, Route, Router};
use crate::error::PublishError;
use crate::handler::{spec_outbound_step, Handler, HandlerEvent, HandlerEventView, HandlerOut};
use crate::id::transaction_id;
use crate::metrics::{Counts, Metrics};
use crate::model::{
    lemma_find_peer,
    lemma_receive_all_push,
    lemma_record_shape,
    lemma_send_each_shape,
    spec_candidates,
    spec_counts_sent,
    spec_find_peer,
    spec_have_tx_ids,
    spec_peer_ids,
    spec_record,
    spec_send_each,
    spec_send_to,
    spec_without_connection,
    BehaviourView,
    EventView,
    PeerView,
    PublishOutcome,
};
use crate::peer::{ConnectionId, PeerId};
use crate::proto::TransactionView;
use crate::rpc::{rpc_outs_view, spec_publishes, Sender};
use crate::time_cache::DuplicateCache;
use crate::transform::DataTransform;
use crate::types::{
    control_actions_view,
    raw_transactions_view,
    spec_reset_routes,
    ControlAction,
    HaveTx,
    RawTransaction,
    ResetRoute,
    RpcOut,
    RpcOutView,
    Transaction,
    TransactionId,
};

verus! {

/// Under which identity a node publishes.
#[derive(Debug)]
pub enum TransactionAuthenticity {
    /// Transactions are not signed. The given peer is named as the author of
    /// every transaction that the node publishes.
    Author(PeerId),
}

/// An event for the user.
#[derive(Debug)]
pub enum Event {
    /// A transaction was received for the first time.
    Transaction {
        /// The peer that sent the transaction to the local node.
        propagation_source: PeerId,
        /// The identifier of the transaction.
        transaction_id: TransactionId,
        /// The transaction.
        transaction: Transaction,
    },
    /// The closed routes changed.
    RoutingUpdated {
        /// The closed routes after the change.
        disabled_routes: Vec<Route>,
    },
}

impl View for Event {
    type V = EventView;

    open spec fn view(&self) -> EventView {
        match self {
            Event::Transaction { propagation_source, transaction_id, transaction } => EventView::Transaction {
                propagation_source: propagation_source@,
                transaction_id: transaction_id@,
                transaction: transaction@,
            },
            Event::RoutingUpdated { disabled_routes } => EventView::RoutingUpdated {
                disabled_routes: routes_view(disabled_routes@),
            },
        }
    }
}

/// The views of a run of events.
pub open spec fn events_view(events: Seq<Event>) -> Seq<EventView> {
    Seq::new(events.len(), |i: int| events[i]@)
}

/// A sequence number that only grows. It starts from the wall clock, in
/// nanoseconds since the Unix epoch.
#[derive(Debug)]
pub struct SequenceNumber(pub u64);

impl SequenceNumber {
    /// A sequence number seeded from the wall clock, or from zero where the
    /// wall clock stands before the Unix epoch.
    pub fn new() -> Self {
        // The wall clock decides the seed; what is made of its reading is
        // what `from_unix_time` says.
        let reading = unix_time_nanos();
        Self::from_unix_time(reading)
    }

    /// The next number: one more than the last.
    pub fn next(&mut self) -> (r: u64)
        requires
            old(self).0 < u64::MAX,
        ensures
            r == old(self).0 + 1,
            final(self).0 == r,
    {
        self.0 = self.0 + 1;
        self.0
    }
}

/// What a node publishes with.
#[derive(Debug)]
pub enum PublishConfig {
    Author { author: PeerId, last_seqno: SequenceNumber },
}

impl PublishConfig {
    /// The identity under which the node publishes.
    pub open spec fn author(self) -> Seq<u8> {
        match self {
            PublishConfig::Author { author, last_seqno } => author@,
        }
    }

    /// The last sequence number that was given out.
    pub open spec fn seqno(self) -> u64 {
        match self {
            PublishConfig::Author { author, last_seqno } => last_seqno.0,
        }
    }

}

impl FromSpecImpl<TransactionAuthenticity> for PublishConfig {
    open spec fn obeys_from_spec() -> bool {
        false
    }

    open spec fn from_spec(authenticity: TransactionAuthenticity) -> Self {
        arbitrary()
    }
}

impl From<TransactionAuthenticity> for PublishConfig {
    /// The publish configuration for `authenticity`, with a sequence number
    /// seeded from the wall clock.
    fn from(authenticity: TransactionAuthenticity) -> (r: Self)
        ensures
            match authenticity {
                TransactionAuthenticity::Author(author) => r.author() == author@,
            },
    {
        match authenticity {
            TransactionAuthenticity::Author(author) => PublishConfig::Author {
                author,
                last_seqno: SequenceNumber::new(),
            },
        }
    }
}

/// What the local node holds for one connected peer.
#[derive(Debug)]
pub struct PeerConnections {
    /// The peer.
    pub peer_id: PeerId,
    /// The connections to the peer that are open.
    pub connections: Vec<ConnectionId>,
    /// The outbound queue that the connections share.
    pub sender: Sender,
    /// The controller of the redundancy of what the peer sends.
    pub controller: Controller,
    /// The identifier of the last duplicate that the peer sent.
    pub last_duplicate: Option<TransactionId>,
}

impl View for PeerConnections {
    type V = PeerView;

    open spec fn view(&self) -> PeerView {
        PeerView {
            peer_id: self.peer_id@,
            connections: self.connections@,
            queue: self.sender@,
            capacity: self.sender.capacity(),
            controller: self.controller,
            last_duplicate: match self.last_duplicate {
                Some(id) => Some(id@),
                None => None,
            },
        }
    }
}

/// The views of a run of peers.
pub open spec fn peers_view(peers: Seq<PeerConnections>) -> Seq<PeerView> {
    Seq::new(peers.len(), |i: int| peers[i]@)
}

/// The behaviour of a node.
pub struct Behaviour<D: DataTransform> {
    config: Config,
    events: VecDeque<Event>,
    publish_config: PublishConfig,
    data_transform: D,
    connected_peers: Vec<PeerConnections>,
    duplicate_cache: DuplicateCache,
    router: Router,
    metrics: Option<Metrics>,
    clock: Clock,
    next_evaluation: u64,
}

impl<D: DataTransform> View for Behaviour<D> {
    type V = BehaviourView;

    closed spec fn view(&self) -> BehaviourView {
        BehaviourView {
            config: self.config,
            author: self.publish_config.author(),
            seqno: self.publish_config.seqno(),
            events: events_view(self.events@),
            peers: peers_view(self.connected_peers@),
            cache: self.duplicate_cache@,
            routes: self.router@,
            counts: match self.metrics {
                Some(metrics) => Some(metrics@),
                None => None,
            },
            next_evaluation: self.next_evaluation,
        }
    }
}

impl<D: DataTransform> Behaviour<D> {
    /// What the state must satisfy beyond what its view shows: the duplicate
    /// filter keeps its entries for the configured time.
    pub closed spec fn inv(&self) -> bool {
        self.duplicate_cache.ttl() == self.config.duplicate_cache_time
    }

    /// The state is well formed.
    pub open spec fn wf(&self) -> bool {
        self.inv() && self@.wf()
    }

    /// A node with the given configuration and transform, with no peer, no
    /// closed route and nothing seen, which keeps no counts.
    pub fn new_with_transform(
        authenticity: TransactionAuthenticity,
        config: Config,
        data_transform: D,
    ) -> (r: Result<Self, &'static str>)
        ensures
            match (authenticity, r) {
                (TransactionAuthenticity::Author(author), Ok(node)) => {
                    &&& node.wf()
                    &&& node@.config == config
                    &&& node@.author == author@
                    &&& node@.events.len() == 0
                    &&& node@.peers.len() == 0
                    &&& node@.cache.len() == 0
                    &&& node@.routes.len() == 0
                    &&& node@.counts is None
                    &&& node@.next_evaluation == config.redundancy_interval
                },
                _ => false,
            },
    {
        let node = Behaviour {
            events: VecDeque::new(),
            publish_config: PublishConfig::from(authenticity),
            data_transform,
            connected_peers: Vec::new(),
            duplicate_cache: DuplicateCache::new(config.duplicate_cache_time()),
            router: Router::new(),
            metrics: None,
            clock: Clock::new(),
            next_evaluation: config.redundancy_interval(),
            config,
        };
        Ok(node)
    }

    /// Keeps counts from now on, in `metrics`.
    pub fn with_metrics(self, metrics: Metrics) -> (r: Self)
        ensures
            r@ == (BehaviourView { counts: Some(metrics@), ..self@ }),
            self.wf() ==> r.wf(),
    {
        let mut node = self;
        node.metrics = Some(metrics);
        node
    }

    /// The time on the node's clock: nanoseconds since the node was created.
    pub fn now(&self) -> u64 {
        self.clock.now()
    }

    /// The place of the peer `peer_id` among the connected peers.
    pub fn find_peer(&self, peer_id: &PeerId) -> (r: Option<usize>)
        ensures
            match r {
                Some(i) => spec_find_peer(self@.peers, peer_id@) == Some(i as int) && i
                    < self@.peers.len(),
                None => spec_find_peer(self@.peers, peer_id@) is None,
            },
    {
        let mut i: usize = 0;
        while i < self.connected_peers.len()
            invariant
                i <= self.connected_peers@.len(),
                forall|k: int| 0 <= k < i ==> (#[trigger] self@.peers[k]).peer_id != peer_id@,
            decreases self.connected_peers@.len() - i,
        {
            if self.connected_peers[i].peer_id.same(peer_id) {
                proof {
                    lemma_find_peer(self@.peers, peer_id@);
                    assert(self@.peers[i as int].peer_id == peer_id@);
                }
                return Some(i);
            }
            i += 1;
        }
        proof {
            lemma_find_peer(self@.peers, peer_id@);
        }
        None
    }

    /// The identities of the connected peers, in order.
    pub fn connected_peers(&self) -> (r: Vec<PeerId>)
        ensures
            crate::dog::peer_ids_view(r@) == spec_peer_ids(self@.peers),
    {
        let mut out: Vec<PeerId> = Vec::new();
        let mut i: usize = 0;
        while i < self.connected_peers.len()
            invariant
                i <= self.connected_peers@.len(),
                crate::dog::peer_ids_view(out@) == spec_peer_ids(self@.peers).take(i as int),
            decreases self.connected_peers@.len() - i,
        {
            let ghost before = crate::dog::peer_ids_view(out@);
            out.push(self.connected_peers[i].peer_id.clone());
            assert(crate::dog::peer_ids_view(out@) =~= before.push(self@.peers[i as int].peer_id));
            assert(crate::dog::peer_ids_view(out@) =~= spec_peer_ids(self@.peers).take(i + 1));
            i += 1;
        }
        assert(spec_peer_ids(self@.peers).take(i as int) =~= spec_peer_ids(self@.peers));
        out
    }

    /// The closed routes, in order.
    pub fn disabled_routes(&self) -> (r: Vec<Route>)
        ensures
            routes_view(r@) == self@.routes,
    {
        self.router.disabled_routes()
    }

    /// Offers `rpc` to the queue of the peer `peer_id` and returns whether it
    /// was taken: it is where the peer is connected and its queue has room. A
    /// transaction that was taken is counted as sent.
    pub fn send_transaction(&mut self, peer_id: &PeerId, rpc: RpcOut) -> (r: bool)
        ensures
            final(self)@ == (BehaviourView {
                peers: spec_send_to(old(self)@.peers, peer_id@, rpc@).0,
                counts: spec_counts_sent(
                    old(self)@.counts,
                    rpc@,
                    if r {
                        1
                    } else {
                        0
                    },
                ),
                ..old(self)@
            }),
            r == spec_send_to(old(self)@.peers, peer_id@, rpc@).1,
            final(self).inv() == old(self).inv(),
    {
        let i = match self.find_peer(peer_id) {
            Some(i) => i,
            None => {
                return false;
            },
        };
        let bytes: Option<usize> = match &rpc {
            RpcOut::Publish { tx, timeout: _ } => Some(tx.data.len()),
            RpcOut::Forward { tx, timeout: _ } => Some(tx.data.len()),
            _ => None,
        };
        let ghost before = self@.peers;
        reveal_with_fuel(spec_counts_sent, 2);
        match self.connected_peers[i].sender.send_transaction(rpc) {
            Ok(()) => {
                assert(self@.peers =~= before.update(i as int, before[i as int].offer(rpc@)));
                match bytes {
                    Some(bytes) => {
                        match &mut self.metrics {
                            Some(metrics) => {
                                metrics.tx_sent(bytes);
                            },
                            None => {},
                        }
                    },
                    None => {},
                }
                true
            },
            Err(_) => {
                assert(self@.peers =~= before);
                false
            },
        }
    }

    /// Offers `rpc` to the queue of each of `targets` in turn and returns how
    /// many took it.
    pub fn send_to_each(&mut self, targets: &Vec<PeerId>, rpc: &RpcOut) -> (taken: usize)
        ensures
            final(self)@ == (BehaviourView {
                peers: spec_send_each(
                    old(self)@.peers,
                    crate::dog::peer_ids_view(targets@),
                    rpc@,
                ).0,
                counts: spec_counts_sent(old(self)@.counts, rpc@, taken as nat),
                ..old(self)@
            }),
            taken == spec_send_each(old(self)@.peers, crate::dog::peer_ids_view(targets@), rpc@).1,
            final(self).inv() == old(self).inv(),
    {
        let ghost ids = crate::dog::peer_ids_view(targets@);
        let ghost entry = rpc@;
        let mut taken: usize = 0;
        let mut i: usize = 0;
        assert(ids.skip(0) =~= ids);
        while i < targets.len()
            invariant
                i <= targets@.len(),
                taken <= i,
                ids == crate::dog::peer_ids_view(targets@),
                entry == rpc@,
                self.inv() == old(self).inv(),
                self@ == (BehaviourView {
                    peers: self@.peers,
                    counts: spec_counts_sent(old(self)@.counts, entry, taken as nat),
                    ..old(self)@
                }),
                spec_send_each(old(self)@.peers, ids, entry).0 == spec_send_each(
                    self@.peers,
                    ids.skip(i as int),
                    entry,
                ).0,
                spec_send_each(old(self)@.peers, ids, entry).1 == spec_send_each(
                    self@.peers,
                    ids.skip(i as int),
                    entry,
                ).1 + taken,
            decreases targets@.len() - i,
        {
            proof {
                assert(ids.skip(i as int)[0] == targets@[i as int]@);
                assert(ids.skip(i as int).skip(1) =~= ids.skip(i + 1));
                reveal_with_fuel(spec_counts_sent, 2);
            }
            if self.send_transaction(&targets[i], rpc.clone()) {
                taken += 1;
            }
            i += 1;
        }
        taken
    }

    /// The next raw transaction of the local node, with the content `data`.
    pub fn build_raw_transaction(&mut self, data: Vec<u8>) -> (r: Result<
        RawTransaction,
        PublishError,
    >)
        requires
            old(self)@.seqno < u64::MAX,
        ensures
            r matches Ok(raw) && raw@ == old(self)@.next_transaction(data@),
            final(self)@ == (BehaviourView { seqno: (old(self)@.seqno + 1) as u64, ..old(self)@ }),
            final(self).inv() == old(self).inv(),
    {
        match &mut self.publish_config {
            PublishConfig::Author { author, last_seqno } => {
                let seqno = last_seqno.next();
                Ok(RawTransaction { from: author.clone(), seqno, data })
            },
        }
    }

    /// Publishes `data` at the time `now`, given what the outbound transform
    /// made of it.
    pub fn publish_transformed(
        &mut self,
        data: Vec<u8>,
        transformed: Result<Vec<u8>, std::io::Error>,
        now: u64,
    ) -> (r: Result<TransactionId, PublishError>)
        requires
            old(self).wf(),
            old(self)@.seqno < u64::MAX,
        ensures
            (final(self)@, publish_outcome(r)) == old(self)@.publish(
                data@,
                outbound_outcome(transformed),
                now,
            ),
            r is Ok <==> old(self)@.publish_accepts(data@, outbound_outcome(transformed), now),
            r matches Ok(id) ==> crate::time_cache::spec_contains(final(self)@.cache, id@)
                && id@ == crate::id::spec_transaction_id(old(self)@.next_transaction(data@))
                && final(self)@.seqno == old(self)@.seqno + 1,
            final(self).wf(),
    {
        proof {
            crate::model::lemma_publish_outcome(
                self@,
                data@,
                outbound_outcome(transformed),
                now,
            );
            crate::model::lemma_publish_inserts(self@, data@, outbound_outcome(transformed), now);
        }
        let transformed_data = match transformed {
            Ok(content) => content,
            Err(e) => {
                return Err(PublishError::from(e));
            },
        };
        if transformed_data.len() > self.config.max_transmit_size() {
            return Err(PublishError::TransactionTooLarge);
        }
        let raw_transaction = match self.build_raw_transaction(transformed_data) {
            Ok(raw) => raw,
            Err(e) => {
                return Err(e);
            },
        };
        let tx_id = transaction_id(
            &Transaction { from: raw_transaction.from.clone(), seqno: raw_transaction.seqno, data },
        );
        let newly = self.duplicate_cache.insert_at(
            tx_id.clone(),
            raw_transaction.from.clone(),
            now,
        );
        if !newly {
            return Err(PublishError::Duplicate);
        }
        let recipient_peers = self.connected_peers();
        if recipient_peers.len() == 0 {
            return Err(PublishError::InsufficientPeers);
        }
        let rpc = RpcOut::Publish {
            tx: raw_transaction,
            timeout: now.saturating_add(self.config.publish_queue_duration()),
        };
        proof {
            lemma_send_each_shape(
                self@.peers,
                crate::dog::peer_ids_view(recipient_peers@),
                rpc@,
            );
        }
        let taken = self.send_to_each(&recipient_peers, &rpc);
        if taken == 0 {
            return Err(PublishError::AllQueuesFull(self.connected_peers.len()));
        }
        match &mut self.metrics {
            Some(metrics) => {
                metrics.register_published_tx();
            },
            None => {},
        }
        Ok(tx_id)
    }

    /// Publishes `data`: applies the outbound transform, reads the clock,
    /// and goes on as [`Behaviour::publish_transformed`] says. Whatever the
    /// transform and the clock give, a transaction that is accepted has its
    /// identifier in the duplicate filter and a sequence number one above the
    /// last.
    pub fn publish(&mut self, data: Vec<u8>) -> (r: Result<TransactionId, PublishError>)
        requires
            old(self).wf(),
            old(self)@.seqno < u64::MAX,
        ensures
            final(self).wf(),
            exists|transformed: Option<Seq<u8>>, now: u64|
                (final(self)@, publish_outcome(r)) == #[trigger] old(self)@.publish(
                    data@,
                    transformed,
                    now,
                ),
            r matches Ok(id) ==> crate::time_cache::spec_contains(final(self)@.cache, id@)
                && final(self)@.seqno == old(self)@.seqno + 1,
    {
        let transformed = self.data_transform.outbound_transform(crate::bytes::bytes_clone(&data));
        let now = self.clock.now();
        proof {
            crate::model::lemma_publish_inserts(self@, data@, outbound_outcome(transformed), now);
        }
        self.publish_transformed(data, transformed, now)
    }

    /// The identities of the connected peers other than `exclude`, in order.
    pub fn candidates(&self, exclude: &PeerId) -> (r: Vec<PeerId>)
        ensures
            crate::dog::peer_ids_view(r@) == spec_candidates(self@.peers, exclude@),
    {
        let ghost peers = self@.peers;
        let mut out: Vec<PeerId> = Vec::new();
        let mut i: usize = 0;
        assert(crate::dog::peer_ids_view(out@) =~= spec_candidates(peers.take(0), exclude@));
        while i < self.connected_peers.len()
            invariant
                i <= self.connected_peers@.len(),
                peers == self@.peers,
                crate::dog::peer_ids_view(out@) == spec_candidates(peers.take(i as int), exclude@),
            decreases self.connected_peers@.len() - i,
        {
            proof {
                assert(peers.take(i + 1).drop_last() =~= peers.take(i as int));
                assert(peers.take(i + 1).last() == peers[i as int]);
            }
            if !self.connected_peers[i].peer_id.same(exclude) {
                let ghost before = crate::dog::peer_ids_view(out@);
                out.push(self.connected_peers[i].peer_id.clone());
                assert(crate::dog::peer_ids_view(out@) =~= before.push(peers[i as int].peer_id));
            }
            i += 1;
        }
        assert(peers.take(i as int) =~= peers);
        out
    }

    /// Forwards `raw_transaction`, which `propagation_source` sent, at the
    /// time `now`: it is offered to the queue of every other connected peer
    /// to which the route from its origin is not closed. Returns whether
    /// there was such a peer.
    pub fn forward_transaction(
        &mut self,
        transaction_id: &TransactionId,
        raw_transaction: RawTransaction,
        propagation_source: &PeerId,
        now: u64,
    ) -> (r: bool)
        ensures
            final(self)@ == old(self)@.forward(raw_transaction@, propagation_source@, now),
            r == (old(self)@.forward_targets(raw_transaction@, propagation_source@).len() > 0),
            final(self).inv() == old(self).inv(),
    {
        let candidates = self.candidates(propagation_source);
        let recipient_peers = self.router.filter_valid_routes(&raw_transaction.from, candidates);
        let rpc = RpcOut::Forward {
            tx: raw_transaction,
            timeout: now.saturating_add(self.config.forward_queue_duration()),
        };
        let _ = self.send_to_each(&recipient_peers, &rpc);
        recipient_peers.len() > 0
    }

    /// A transaction that failed the inbound transform: it is dropped.
    pub fn handle_invalid_transaction(
        &mut self,
        propagation_source: &PeerId,
        raw_transaction: RawTransaction,
    )
        ensures
            final(self)@ == old(self)@,
            final(self).inv() == old(self).inv(),
    {
    }

    /// Counts a reception from `source` with its controller, where `source`
    /// is connected.
    fn record_reception(&mut self, source: &PeerId, id: &TransactionId, newly: bool)
        ensures
            final(self)@ == (BehaviourView {
                peers: spec_record(old(self)@.peers, source@, id@, newly),
                ..old(self)@
            }),
            final(self).inv() == old(self).inv(),
    {
        match self.find_peer(source) {
            Some(i) => {
                let ghost before = self@.peers;
                if newly {
                    self.connected_peers[i].controller.incr_first_time_txs_count();
                } else {
                    self.connected_peers[i].controller.incr_duplicate_txs_count();
                    self.connected_peers[i].last_duplicate = Some(id.clone());
                }
                assert(self@.peers =~= before.update(i as int, before[i as int].record(id@, newly)));
            },
            None => {},
        }
    }

    /// Handles the reception at `now` of `raw_transaction` from
    /// `propagation_source`, given what the inbound transform made of it.
    pub fn deliver_transaction(
        &mut self,
        raw_transaction: RawTransaction,
        transformed: Result<Transaction, std::io::Error>,
        propagation_source: &PeerId,
        now: u64,
    )
        requires
            old(self).wf(),
        ensures
            final(self)@ == old(self)@.receive(
                raw_transaction@,
                inbound_outcome(transformed),
                propagation_source@,
                now,
            ),
            final(self)@.queue_of(propagation_source@) == old(self)@.queue_of(propagation_source@),
            match inbound_outcome(transformed) {
                Some(tx) => {
                    &&& crate::time_cache::spec_contains(
                        final(self)@.cache,
                        crate::id::spec_transaction_id(tx),
                    )
                    &&& final(self)@.events == if old(self)@.is_new(raw_transaction@, tx, now) {
                        old(self)@.events.push(
                            EventView::Transaction {
                                propagation_source: propagation_source@,
                                transaction_id: crate::id::spec_transaction_id(tx),
                                transaction: tx,
                            },
                        )
                    } else {
                        old(self)@.events
                    }
                },
                None => final(self)@.events == old(self)@.events && final(self)@.cache == old(
                    self,
                )@.cache,
            },
            final(self).wf(),
    {
        reveal(BehaviourView::receive);
        proof {
            match inbound_outcome(transformed) {
                Some(tx) => {
                    crate::model::lemma_receive_delivers_once(
                        self@,
                        raw_transaction@,
                        tx,
                        propagation_source@,
                        now,
                    );
                },
                None => {},
            }
            crate::model::lemma_receive_keeps_queue_of_source(
                self@,
                raw_transaction@,
                inbound_outcome(transformed),
                propagation_source@,
                now,
            );
        }
        match &mut self.metrics {
            Some(metrics) => {
                metrics.tx_recv_unfiltered(raw_transaction.data.len());
            },
            None => {},
        }
        let transaction = match transformed {
            Ok(transaction) => transaction,
            Err(_) => {
                self.handle_invalid_transaction(propagation_source, raw_transaction);
                return ;
            },
        };
        let tx_id = transaction_id(&transaction);
        let newly = self.duplicate_cache.insert_at(tx_id.clone(), raw_transaction.from.clone(), now);
        proof {
            lemma_record_shape(self@.peers, propagation_source@, tx_id@, newly);
        }
        self.record_reception(propagation_source, &tx_id, newly);
        if !newly {
            return ;
        }
        let ghost before = self@.events;
        let ghost event = EventView::Transaction {
            propagation_source: propagation_source@,
            transaction_id: tx_id@,
            transaction: transaction@,
        };
        self.events.push_back(
            Event::Transaction {
                propagation_source: propagation_source.clone(),
                transaction_id: tx_id.clone(),
                transaction,
            },
        );
        assert(self@.events =~= before.push(event));
        match &mut self.metrics {
            Some(metrics) => {
                metrics.tx_recv();
            },
            None => {},
        }
        if self.config.forward_transactions() {
            proof {
                lemma_send_each_shape(
                    self@.peers,
                    self@.forward_targets(raw_transaction@, propagation_source@),
                    self@.forward_entry(raw_transaction@, now),
                );
            }
            let _ = self.forward_transaction(&tx_id, raw_transaction, propagation_source, now);
        }
    }

    /// Handles the reception of `raw_transaction` from `propagation_source`:
    /// applies the inbound transform, reads the clock, and goes on as
    /// [`Behaviour::deliver_transaction`] says.
    pub fn handle_received_transaction(
        &mut self,
        raw_transaction: RawTransaction,
        propagation_source: &PeerId,
    )
        requires
            old(self).wf(),
        ensures
            final(self).wf(),
            exists|transformed: Option<TransactionView>, now: u64|
                final(self)@ == #[trigger] old(self)@.receive(
                    raw_transaction@,
                    transformed,
                    propagation_source@,
                    now,
                ),
            final(self)@.queue_of(propagation_source@) == old(self)@.queue_of(propagation_source@),
    {
        let transformed = self.data_transform.inbound_transform(raw_transaction.clone());
        let now = self.clock.now();
        self.deliver_transaction(raw_transaction, transformed, propagation_source, now);
    }
}

/// What the inbound transform gave, as a plain value: the transaction, or
/// `None` for a failure.
pub open spec fn inbound_outcome(transformed: Result<Transaction, std::io::Error>) -> Option<
    TransactionView,
> {
    match transformed {
        Ok(transaction) => Some(transaction@),
        Err(_) => None,
    }
}

/// What the outbound transform gave, as a plain value: the content, or
/// `None` for a failure.
pub open spec fn outbound_outcome(transformed: Result<Vec<u8>, std::io::Error>) -> Option<Seq<u8>> {
    match transformed {
        Ok(content) => Some(content@),
        Err(_) => None,
    }
}

/// What a publish returned, as a plain value.
pub open spec fn publish_outcome(r: Result<TransactionId, PublishError>) -> PublishOutcome {
    match r {
        Ok(id) => PublishOutcome::Published(id@),
        Err(PublishError::Duplicate) => PublishOutcome::Duplicate,
        Err(PublishError::InsufficientPeers) => PublishOutcome::InsufficientPeers,
        Err(PublishError::TransactionTooLarge) => PublishOutcome::TransactionTooLarge,
        Err(PublishError::TransformFailed(_)) => PublishOutcome::TransformFailed,
        Err(PublishError::AllQueuesFull(n)) => PublishOutcome::AllQueuesFull(n),
    }
}

/// The views of a run of identifiers.
pub open spec fn ids_view(ids: Seq<TransactionId>) -> Seq<Seq<u8>> {
    Seq::new(ids.len(), |i: int| ids[i]@)
}

/// What the host tells the behaviour about connections.
#[derive(Debug)]
pub enum FromSwarm {
    /// A connection to `peer_id` was established, beside `other_established`
    /// others.
    ConnectionEstablished { peer_id: PeerId, connection_id: ConnectionId, other_established: usize },
    /// A connection to `peer_id` was closed, and `remaining_established` are
    /// left.
    ConnectionClosed { peer_id: PeerId, connection_id: ConnectionId, remaining_established: usize },
}

impl<D: DataTransform> Behaviour<D> {
    /// Pushes the event that tells the user of the closed routes as they
    /// are now.
    fn push_routing_updated(&mut self)
        ensures
            final(self)@ == (BehaviourView {
                events: old(self)@.events.push(
                    EventView::RoutingUpdated { disabled_routes: old(self)@.routes },
                ),
                ..old(self)@
            }),
            final(self).inv() == old(self).inv(),
    {
        let ghost before = self@.events;
        let disabled_routes = self.router.disabled_routes();
        self.events.push_back(Event::RoutingUpdated { disabled_routes });
        assert(self@.events =~= before.push(
            EventView::RoutingUpdated { disabled_routes: self@.routes },
        ));
    }

    /// Answers the `HAVE_TX` messages of `propagation_source` that name
    /// `tx_ids`: for each identifier that the duplicate filter still holds,
    /// the route from the origin of that transaction to `propagation_source`
    /// is closed and the user is told.
    pub fn handle_have_tx(&mut self, tx_ids: Vec<TransactionId>, propagation_source: &PeerId)
        ensures
            final(self)@ == old(self)@.have_txs(propagation_source@, ids_view(tx_ids@)),
            final(self).inv() == old(self).inv(),
    {
        let ghost ids = ids_view(tx_ids@);
        let mut i: usize = 0;
        assert(ids.skip(0) =~= ids);
        while i < tx_ids.len()
            invariant
                i <= tx_ids@.len(),
                ids == ids_view(tx_ids@),
                self.inv() == old(self).inv(),
                old(self)@.have_txs(propagation_source@, ids) == self@.have_txs(
                    propagation_source@,
                    ids.skip(i as int),
                ),
            decreases tx_ids@.len() - i,
        {
            proof {
                assert(ids.skip(i as int)[0] == tx_ids@[i as int]@);
                assert(ids.skip(i as int).skip(1) =~= ids.skip(i + 1));
            }
            match self.duplicate_cache.origin_of(&tx_ids[i]) {
                Some(origin) => {
                    self.router.disable_route(origin, propagation_source.clone());
                    self.push_routing_updated();
                },
                None => {},
            }
            i += 1;
        }
    }

    /// Opens the closed route at `index` again and tells the user.
    pub fn reset_route_at(&mut self, index: usize)
        requires
            index < old(self)@.routes.len(),
        ensures
            final(self)@ == old(self)@.reset_route_at(index as int),
            final(self).inv() == old(self).inv(),
    {
        let _ = self.router.enable_route_at(index);
        self.push_routing_updated();
    }

    /// Answers a `RESET_ROUTE` of `propagation_source`: one of the closed
    /// routes to it, picked at random, is opened again and the user is told.
    /// Where no route to it is closed, nothing changes. Returns the place of
    /// the route that was opened.
    pub fn handle_reset_route(&mut self, propagation_source: &PeerId) -> (r: Option<usize>)
        ensures
            final(self).inv() == old(self).inv(),
            match r {
                Some(index) => index < old(self)@.routes.len() && old(self)@.routes[index as int].target
                    == propagation_source@ && final(self)@ == old(self)@.reset_route_at(
                    index as int,
                ),
                None => final(self)@ == old(self)@ && forall|i: int|
                    0 <= i < old(self)@.routes.len() ==> (#[trigger] old(self)@.routes[i]).target
                        != propagation_source@,
            },
    {
        match self.router.pick_random_route_to_peer(propagation_source) {
            Some(index) => {
                self.reset_route_at(index);
                Some(index)
            },
            None => None,
        }
    }

    /// A connection to `peer_id` was established.
    pub fn on_connection_established(&mut self, peer_id: PeerId, connection_id: ConnectionId)
        requires
            old(self).wf(),
        ensures
            final(self)@ == old(self)@.connection_established(peer_id@, connection_id),
            final(self).wf(),
    {
        let ghost before = self@.peers;
        proof {
            lemma_find_peer(before, peer_id@);
        }
        match self.find_peer(&peer_id) {
            Some(i) => {
                let mut known: bool = false;
                let mut k: usize = 0;
                while k < self.connected_peers[i].connections.len()
                    invariant
                        i < self.connected_peers@.len(),
                        k <= self.connected_peers@[i as int].connections@.len(),
                        known == exists|j: int|
                            0 <= j < k && self.connected_peers@[i as int].connections@[j]
                                == connection_id,
                    decreases self.connected_peers@[i as int].connections@.len() - k,
                {
                    if self.connected_peers[i].connections[k] == connection_id {
                        known = true;
                    }
                    k += 1;
                }
                assert(known == before[i as int].connections.contains(connection_id));
                if !known {
                    self.connected_peers[i].connections.push(connection_id);
                    assert(self@.peers =~= before.update(
                        i as int,
                        PeerView {
                            connections: before[i as int].connections.push(connection_id),
                            ..before[i as int]
                        },
                    ));
                }
            },
            None => {
                let mut connections: Vec<ConnectionId> = Vec::new();
                connections.push(connection_id);
                let entry = PeerConnections {
                    peer_id,
                    connections,
                    sender: Sender::new(self.config.connection_handler_queue_len()),
                    controller: Controller::new(&self.config),
                    last_duplicate: None,
                };
                assert(entry@.connections =~= seq![connection_id]);
                self.connected_peers.push(entry);
                assert(self@.peers =~= before.push(entry@));
            },
        }
    }

    /// An inbound connection was established: see
    /// [`Behaviour::on_connection_established`].
    pub fn handle_established_inbound_connection(
        &mut self,
        connection_id: ConnectionId,
        peer_id: PeerId,
    )
        requires
            old(self).wf(),
        ensures
            final(self)@ == old(self)@.connection_established(peer_id@, connection_id),
            final(self).wf(),
    {
        self.on_connection_established(peer_id, connection_id);
    }

    /// An outbound connection was established: see
    /// [`Behaviour::on_connection_established`].
    pub fn handle_established_outbound_connection(
        &mut self,
        connection_id: ConnectionId,
        peer: PeerId,
    )
        requires
            old(self).wf(),
        ensures
            final(self)@ == old(self)@.connection_established(peer@, connection_id),
            final(self).wf(),
    {
        self.on_connection_established(peer, connection_id);
    }

    /// A connection to `peer_id` was closed. With the last one, what still
    /// waited in the queue of the peer is lost; the transactions of the local
    /// node among it are handed back so that the loss can be reported.
    pub fn on_connection_closed(
        &mut self,
        peer_id: &PeerId,
        connection_id: ConnectionId,
        remaining_established: usize,
    ) -> (lost: Vec<RawTransaction>)
        requires
            old(self).wf(),
        ensures
            final(self)@ == old(self)@.connection_closed(
                peer_id@,
                connection_id,
                remaining_established,
            ),
            final(self).wf(),
            raw_transactions_view(lost@) == match spec_find_peer(old(self)@.peers, peer_id@) {
                Some(i) => if remaining_established == 0 {
                    spec_publishes(old(self)@.peers[i].queue)
                } else {
                    Seq::empty()
                },
                None => Seq::empty(),
            },
    {
        let ghost before = self@.peers;
        proof {
            lemma_find_peer(before, peer_id@);
        }
        let found = self.find_peer(peer_id);
        if remaining_established != 0 {
            match found {
                Some(i) => {
                    let ghost all = before[i as int].connections;
                    let mut kept: Vec<ConnectionId> = Vec::new();
                    let mut k: usize = 0;
                    assert(kept@ =~= spec_without_connection(all.take(0), connection_id));
                    while k < self.connected_peers[i].connections.len()
                        invariant
                            i < self.connected_peers@.len(),
                            self@.peers == before,
                            all == before[i as int].connections,
                            k <= all.len(),
                            kept@ == spec_without_connection(all.take(k as int), connection_id),
                        decreases all.len() - k,
                    {
                        proof {
                            assert(all.take(k + 1).drop_last() =~= all.take(k as int));
                            assert(all.take(k + 1).last() == all[k as int]);
                        }
                        if self.connected_peers[i].connections[k] != connection_id {
                            kept.push(self.connected_peers[i].connections[k]);
                        }
                        k += 1;
                    }
                    assert(all.take(k as int) =~= all);
                    self.connected_peers[i].connections = kept;
                    assert(self@.peers =~= before.update(
                        i as int,
                        PeerView {
                            connections: spec_without_connection(all, connection_id),
                            ..before[i as int]
                        },
                    ));
                },
                None => {},
            }
            let lost: Vec<RawTransaction> = Vec::new();
            assert(raw_transactions_view(lost@) =~= Seq::empty());
            lost
        } else {
            let lost = match found {
                Some(i) => {
                    let mut entry = self.connected_peers.remove(i);
                    assert(self@.peers =~= before.remove(i as int));
                    entry.sender.close()
                },
                None => {
                    let lost: Vec<RawTransaction> = Vec::new();
                    assert(raw_transactions_view(lost@) =~= Seq::empty());
                    lost
                },
            };
            let closed_before: usize = self.router.disabled_routes().len();
            self.router.reset_routes_with_peer(peer_id);
            let closed_after: usize = self.router.disabled_routes().len();
            if closed_after != closed_before {
                self.push_routing_updated();
            }
            lost
        }
    }

    /// What the host tells about connections.
    pub fn on_swarm_event(&mut self, event: FromSwarm)
        requires
            old(self).wf(),
        ensures
            final(self).wf(),
            final(self)@ == match event {
                FromSwarm::ConnectionEstablished {
                    peer_id,
                    connection_id,
                    other_established,
                } => old(self)@.connection_established(peer_id@, connection_id),
                FromSwarm::ConnectionClosed {
                    peer_id,
                    connection_id,
                    remaining_established,
                } => old(self)@.connection_closed(peer_id@, connection_id, remaining_established),
            },
    {
        match event {
            FromSwarm::ConnectionEstablished { peer_id, connection_id, other_established: _ } => {
                self.on_connection_established(peer_id, connection_id);
            },
            FromSwarm::ConnectionClosed { peer_id, connection_id, remaining_established } => {
                let _ = self.on_connection_closed(&peer_id, connection_id, remaining_established);
            },
        }
    }

    /// The periodic evaluation: the controller of every peer is evaluated,
    /// and the control message that it asks for is offered to the queue of
    /// that peer.
    pub fn adjust_redundancy(&mut self)
        requires
            old(self).wf(),
        ensures
            final(self)@ == old(self)@.adjust_redundancy(),
            final(self).wf(),
    {
        let ghost before = self@.peers;
        let mut i: usize = 0;
        while i < self.connected_peers.len()
            invariant
                i <= self.connected_peers@.len(),
                before == old(self)@.peers,
                self.inv() == old(self).inv(),
                self@.peers.len() == before.len(),
                self@ == (BehaviourView { peers: self@.peers, ..old(self)@ }),
                forall|k: int| 0 <= k < i ==> #[trigger] self@.peers[k] == before[k].adjust(),
                forall|k: int| i <= k < before.len() ==> #[trigger] self@.peers[k] == before[k],
            decreases self.connected_peers@.len() - i,
        {
            let ghost current = self@.peers;
            assert(current[i as int] == before[i as int]);
            let action = self.connected_peers[i].controller.evaluate();
            let ghost evaluated = PeerView {
                controller: before[i as int].controller.spec_evaluate().0,
                ..before[i as int]
            };
            assert(self@.peers[i as int] == evaluated);
            assert(action == before[i as int].controller.spec_evaluate().1);
            match action {
                ControllerAction::Idle => {},
                ControllerAction::ResetRoute => {
                    let _ = self.connected_peers[i].sender.send_transaction(
                        RpcOut::ResetRoute(ResetRoute {  }),
                    );
                    assert(self@.peers[i as int] == evaluated.offer(RpcOutView::ResetRoute));
                },
                ControllerAction::HaveTx => {
                    let tx_id = match &self.connected_peers[i].last_duplicate {
                        Some(id) => Some(id.clone()),
                        None => None,
                    };
                    match tx_id {
                        Some(tx_id) => {
                            assert(before[i as int].last_duplicate == Some(tx_id@));
                            let _ = self.connected_peers[i].sender.send_transaction(
                                RpcOut::HaveTx(HaveTx { tx_id }),
                            );
                            assert(self@.peers[i as int] == evaluated.offer(
                                RpcOutView::HaveTx(
                                    crate::proto::ControlHaveTxView { tx_id: tx_id@ },
                                ),
                            ));
                        },
                        None => {
                            assert(before[i as int].last_duplicate is None);
                        },
                    }
                },
            }
            proof {
                assert(self@.peers[i as int] == before[i as int].adjust());
                assert forall|k: int| 0 <= k < i + 1 implies #[trigger] self@.peers[k]
                    == before[k].adjust() by {
                    if k < i {
                        assert(self@.peers[k] == current[k]);
                    }
                }
                assert forall|k: int| i + 1 <= k < before.len() implies #[trigger] self@.peers[k]
                    == before[k] by {
                    assert(self@.peers[k] == current[k]);
                }
            }
            i += 1;
        }
        assert(self@.peers =~= old(self)@.adjust_redundancy().peers);
    }

    /// One poll at the time `now`: hands out the first event that waits for
    /// the user. With none waiting, the periodic evaluation runs if its time
    /// has come.
    pub fn poll_at(&mut self, now: u64) -> (r: Option<Event>)
        requires
            old(self).wf(),
        ensures
            final(self).wf(),
            final(self)@ == old(self)@.poll(now).0,
            match r {
                Some(event) => old(self)@.poll(now).1 == Some(event@),
                None => old(self)@.poll(now).1 is None,
            },
    {
        let ghost before = self@.events;
        match self.events.pop_front() {
            Some(event) => {
                assert(self@.events =~= before.skip(1));
                assert(event@ == before[0]);
                return Some(event);
            },
            None => {
                assert(self@.events =~= before);
            },
        }
        if now >= self.next_evaluation {
            self.adjust_redundancy();
            self.next_evaluation = now.saturating_add(self.config.redundancy_interval());
        }
        None
    }

    /// One poll at the time that the node's clock shows.
    pub fn poll(&mut self) -> (r: Option<Event>)
        requires
            old(self).wf(),
        ensures
            final(self).wf(),
            exists|now: u64|
                final(self)@ == (#[trigger] old(self)@.poll(now)).0 && match r {
                    Some(event) => old(self)@.poll(now).1 == Some(event@),
                    None => old(self)@.poll(now).1 is None,
                },
    {
        let now = self.clock.now();
        self.poll_at(now)
    }
}

/// The identifiers that the `HAVE_TX` messages among `control_msgs` name,
/// in order, and whether a `RESET_ROUTE` is among them.
pub fn split_control_msgs(control_msgs: &Vec<ControlAction>) -> (r: (Vec<TransactionId>, bool))
    ensures
        ids_view(r.0@) == spec_have_tx_ids(control_actions_view(control_msgs@)),
        r.1 == (spec_reset_routes(control_actions_view(control_msgs@)) > 0),
{
    let ghost msgs = control_actions_view(control_msgs@);
    let mut have_tx_ids: Vec<TransactionId> = Vec::new();
    let mut reset_route: bool = false;
    let mut j: usize = 0;
    assert(ids_view(have_tx_ids@) =~= spec_have_tx_ids(msgs.take(0)));
    while j < control_msgs.len()
        invariant
            j <= control_msgs@.len(),
            msgs == control_actions_view(control_msgs@),
            ids_view(have_tx_ids@) == spec_have_tx_ids(msgs.take(j as int)),
            reset_route == (spec_reset_routes(msgs.take(j as int)) > 0),
        decreases control_msgs@.len() - j,
    {
        proof {
            assert(msgs.take(j + 1).drop_last() =~= msgs.take(j as int));
            assert(msgs.take(j + 1).last() == msgs[j as int]);
        }
        match &control_msgs[j] {
            ControlAction::HaveTx(have_tx) => {
                let ghost before = ids_view(have_tx_ids@);
                have_tx_ids.push(have_tx.tx_id.clone());
                assert(ids_view(have_tx_ids@) =~= before.push(have_tx.tx_id@));
            },
            ControlAction::ResetRoute(_) => {
                reset_route = true;
            },
        }
        j += 1;
    }
    assert(msgs.take(j as int) =~= msgs);
    (have_tx_ids, reset_route)
}

impl<D: DataTransform> Behaviour<D> {
    /// Handles the reception of the first `limit` of `transactions` from
    /// `propagation_source`, in turn: for each, the inbound transform is
    /// applied, the clock is read, and the reception goes on as
    /// [`Behaviour::deliver_transaction`] says.
    pub fn receive_transactions(
        &mut self,
        transactions: &Vec<RawTransaction>,
        limit: usize,
        propagation_source: &PeerId,
    )
        requires
            old(self).wf(),
            limit <= transactions@.len(),
        ensures
            final(self).wf(),
            exists|outcomes: Seq<(Option<TransactionView>, u64)>|
                outcomes.len() == limit && final(self)@ == #[trigger] old(self)@.receive_all(
                    raw_transactions_view(transactions@).take(limit as int),
                    outcomes,
                    propagation_source@,
                ),
    {
        let ghost handled = raw_transactions_view(transactions@).take(limit as int);
        let ghost mut outcomes: Seq<(Option<TransactionView>, u64)> = Seq::empty();
        let mut count: usize = 0;
        while count < limit
            invariant
                count <= limit <= transactions@.len(),
                self.wf(),
                handled == raw_transactions_view(transactions@).take(limit as int),
                outcomes.len() == count,
                self@ == old(self)@.receive_all(
                    handled.take(count as int),
                    outcomes,
                    propagation_source@,
                ),
            decreases limit - count,
        {
            let raw_transaction = transactions[count].clone();
            let transformed = self.data_transform.inbound_transform(raw_transaction.clone());
            let now = self.clock.now();
            proof {
                let outcome = (inbound_outcome(transformed), now);
                lemma_receive_all_push(
                    old(self)@,
                    handled.take(count as int),
                    outcomes,
                    handled[count as int],
                    outcome,
                    propagation_source@,
                );
                assert(handled.take(count as int).push(handled[count as int]) =~= handled.take(
                    count + 1,
                ));
                outcomes = outcomes.push(outcome);
            }
            self.deliver_transaction(raw_transaction, transformed, propagation_source, now);
            count += 1;
        }
        assert(handled.take(limit as int) =~= handled);
    }

    /// Answers the control messages of an RPC from `propagation_source`: the
    /// `HAVE_TX` messages, in order, and then, where a `RESET_ROUTE` is among
    /// them, one closed route to the peer, picked at random, is opened again.
    pub fn handle_control_msgs(
        &mut self,
        control_msgs: &Vec<ControlAction>,
        propagation_source: &PeerId,
    )
        requires
            old(self).wf(),
        ensures
            final(self).wf(),
            exists|pick: Option<int>|
                old(self)@.have_txs(
                    propagation_source@,
                    spec_have_tx_ids(control_actions_view(control_msgs@)),
                ).pick_allowed(propagation_source@, control_actions_view(control_msgs@), pick)
                    && final(self)@ == #[trigger] old(self)@.answer(
                    propagation_source@,
                    control_actions_view(control_msgs@),
                    pick,
                ),
    {
        let ghost msgs = control_actions_view(control_msgs@);
        let (have_tx_ids, reset_route) = split_control_msgs(control_msgs);
        proof {
            crate::model::lemma_have_txs_shape(
                self@,
                propagation_source@,
                spec_have_tx_ids(msgs),
            );
        }
        self.handle_have_tx(have_tx_ids, propagation_source);
        let ghost mut pick: Option<int> = None;
        if reset_route {
            let picked = self.handle_reset_route(propagation_source);
            proof {
                pick = match picked {
                    Some(index) => Some(index as int),
                    None => None,
                };
            }
        }
        assert(self@ == old(self)@.answer(propagation_source@, msgs, pick));
    }

    /// Handles what a connection handler reports about the peer
    /// `propagation_source`.
    ///
    /// The transactions of a received RPC are handled in turn, up to the
    /// configured limit, as [`Behaviour::receive_transactions`] says; then
    /// its control messages are answered, as
    /// [`Behaviour::handle_control_msgs`] says. The transactions that failed
    /// validation are passed over. An entry that a handler dropped changes
    /// nothing.
    pub fn on_connection_handler_event(
        &mut self,
        propagation_source: PeerId,
        connection_id: ConnectionId,
        event: HandlerEvent,
    )
        requires
            old(self).wf(),
        ensures
            final(self).wf(),
            match event@ {
                HandlerEventView::Transaction { rpc, invalid_transactions } => exists|
                    outcomes: Seq<(Option<TransactionView>, u64)>,
                    pick: Option<int>,
                |
                    old(self)@.rpc_outcome_allowed(propagation_source@, rpc, outcomes, pick)
                        && final(self)@ == #[trigger] old(self)@.handle_rpc(
                        propagation_source@,
                        rpc,
                        outcomes,
                        pick,
                    ),
                HandlerEventView::TransactionDropped(_) => final(self)@ == old(self)@,
            },
            final(self)@.queue_of(propagation_source@) == old(self)@.queue_of(propagation_source@),
    {
        let ghost reported = event@;
        match event {
            HandlerEvent::Transaction { rpc, invalid_transactions: _ } => {
                let ghost rpc_view = rpc@;
                let ghost source = propagation_source@;
                assert(reported matches HandlerEventView::Transaction { rpc: r, invalid_transactions: _ }
                    && r == rpc_view);
                let limit: usize = match self.config.max_transactions_per_rpc() {
                    Some(max) => if max < rpc.transactions.len() {
                        max
                    } else {
                        rpc.transactions.len()
                    },
                    None => rpc.transactions.len(),
                };
                let ghost handled = old(self)@.handled(rpc_view.transactions);
                assert(handled =~= rpc_view.transactions.take(limit as int));
                self.receive_transactions(&rpc.transactions, limit, &propagation_source);
                let ghost received = self@;
                self.handle_control_msgs(&rpc.control_msgs, &propagation_source);
                proof {
                    let outcomes = choose|outcomes: Seq<(Option<TransactionView>, u64)>|
                        outcomes.len() == limit && received == #[trigger] old(self)@.receive_all(
                            handled,
                            outcomes,
                            source,
                        );
                    let pick = choose|pick: Option<int>|
                        received.have_txs(
                            source,
                            spec_have_tx_ids(rpc_view.control_msgs),
                        ).pick_allowed(source, rpc_view.control_msgs, pick) && self@
                            == #[trigger] received.answer(source, rpc_view.control_msgs, pick);
                    assert(old(self)@.rpc_outcome_allowed(source, rpc_view, outcomes, pick));
                    assert(self@ == old(self)@.handle_rpc(source, rpc_view, outcomes, pick));
                    crate::model::lemma_rpc_keeps_queue_of_source(
                        old(self)@,
                        source,
                        rpc_view,
                        outcomes,
                        pick,
                    );
                }
            },
            HandlerEvent::TransactionDropped(_) => {},
        }
    }
}

impl<D: DataTransform + Default> Behaviour<D> {
    /// A node with the given configuration and the default transform, with
    /// no peer, no closed route and nothing seen, which keeps no counts.
    pub fn new(authenticity: TransactionAuthenticity, config: Config) -> (r: Result<
        Self,
        &'static str,
    >)
        ensures
            match (authenticity, r) {
                (TransactionAuthenticity::Author(author), Ok(node)) => {
                    &&& node.wf()
                    &&& node@.config == config
                    &&& node@.author == author@
                    &&& node@.events.len() == 0
                    &&& node@.peers.len() == 0
                    &&& node@.cache.len() == 0
                    &&& node@.routes.len() == 0
                    &&& node@.counts is None
                    &&& node@.next_evaluation == config.redundancy_interval
                },
                _ => false,
            },
    {
        Self::new_with_transform(authenticity, config, D::default())
    }
}

impl<D: DataTransform> Behaviour<D> {
    /// The configuration of the node.
    pub fn config(&self) -> (r: &Config)
        ensures
            *r == self@.config,
    {
        &self.config
    }

    /// The sequence number of the last transaction that the node built.
    pub fn last_seqno(&self) -> (r: u64)
        ensures
            r == self@.seqno,
    {
        match &self.publish_config {
            PublishConfig::Author { author: _, last_seqno } => last_seqno.0,
        }
    }

    /// Whether the duplicate filter holds `id`.
    pub fn has_seen(&self, id: &TransactionId) -> (r: bool)
        ensures
            r == crate::time_cache::spec_contains(self@.cache, id@),
    {
        self.duplicate_cache.contains(id)
    }

    /// The counts as they stand, where the node keeps them.
    pub fn counts(&self) -> (r: Option<Counts>)
        ensures
            r == self@.counts,
    {
        match &self.metrics {
            Some(metrics) => Some(metrics.counts()),
            None => None,
        }
    }

    /// The number of events that wait for the user.
    pub fn pending_events(&self) -> (r: usize)
        ensures
            r == self@.events.len(),
    {
        self.events.len()
    }

    /// A copy of what waits in the queue of `peer_id`, in order; nothing
    /// where the peer is not connected.
    pub fn queued(&self, peer_id: &PeerId) -> (r: Vec<RpcOut>)
        ensures
            rpc_outs_view(r@) == self@.queue_of(peer_id@),
    {
        match self.find_peer(peer_id) {
            Some(i) => self.connected_peers[i].sender.entries(),
            None => {
                let out: Vec<RpcOut> = Vec::new();
                assert(rpc_outs_view(out@) =~= Seq::empty());
                out
            },
        }
    }

    /// Lets `handler`, which serves a connection to `peer_id`, take the entry
    /// at the front of the queue of that peer at the time `now`. A
    /// transaction whose time limit has come is abandoned and reported as
    /// dropped; every other entry becomes the RPC to send. `None` where
    /// nothing waits or the peer is not connected.
    pub fn poll_handler(&mut self, peer_id: &PeerId, handler: &mut Handler, now: u64) -> (r: Option<
        HandlerOut,
    >)
        requires
            old(self).wf(),
        ensures
            final(self).wf(),
            final(self)@ == old(self)@.take_front(peer_id@),
            final(handler).inbound() == old(handler).inbound(),
            final(handler).codec() == old(handler).codec(),
            match r {
                Some(step) => old(self)@.front(peer_id@) matches Some(entry) && step@
                    == spec_outbound_step(entry, now),
                None => old(self)@.front(peer_id@) is None,
            },
    {
        let ghost before = self@.peers;
        match self.find_peer(peer_id) {
            Some(i) => {
                let r = handler.poll_outbound(&mut self.connected_peers[i].sender, now);
                proof {
                    if r is Some {
                        assert(self@.peers =~= before.update(
                            i as int,
                            PeerView { queue: before[i as int].queue.skip(1), ..before[i as int] },
                        ));
                    } else {
                        assert(self@.peers =~= before);
                    }
                }
                r
            },
            None => None,
        }
    }
}

impl SequenceNumber {
    /// The sequence number to start from, given the wall clock in nanoseconds
    /// since the Unix epoch: that reading, or zero where the wall clock
    /// stands before the epoch.
    pub fn from_unix_time(nanos: Option<u64>) -> (r: Self)
        ensures
            r.0 == match nanos {
                Some(n) => n,
                None => 0,
            },
    {
        match nanos {
            Some(n) => SequenceNumber(n),
            None => SequenceNumber(0),
        }
    }
}

} // verus!
