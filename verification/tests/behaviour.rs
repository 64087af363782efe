use std::hash::Hasher;

use libp2p_dog::behaviour::{Behaviour, Event, FromSwarm, SequenceNumber, TransactionAuthenticity};
use libp2p_dog::config::{Config, ConfigBuilder, ValidationMode};
use libp2p_dog::dog::Route;
use libp2p_dog::error::PublishError;
use libp2p_dog::handler::HandlerEvent;
use libp2p_dog::id::{be_bytes, fnv1a_update, transaction_id, FNV_OFFSET_BASIS};
use libp2p_dog::metrics::{Counts, Metrics};
use libp2p_dog::peer::{ConnectionId, PeerId};
use libp2p_dog::transform::{DataTransform, IdentityTransform};
use libp2p_dog::types::{
    ControlAction, HaveTx, RawTransaction, ResetRoute, Rpc, RpcOut, Transaction, TransactionId,
};

type Node = Behaviour<IdentityTransform>;

fn peer(n: u8) -> PeerId {
    PeerId::from_bytes(&[0, 4, n, n, n, n]).unwrap()
}

fn node_with(n: u8, config: Config) -> Node {
    Node::new(TransactionAuthenticity::Author(peer(n)), config).unwrap()
}

fn node(n: u8) -> Node {
    node_with(n, Config::default())
}

fn connect(node: &mut Node, n: u8) {
    node.on_connection_established(peer(n), ConnectionId(n as usize));
}

fn raw(from: u8, seqno: u64, data: &[u8]) -> RawTransaction {
    RawTransaction { from: peer(from), seqno, data: data.to_vec() }
}

fn ok(tx: &RawTransaction) -> Result<Transaction, std::io::Error> {
    Ok(Transaction { from: tx.from.clone(), seqno: tx.seqno, data: tx.data.clone() })
}

fn id_of(tx: &RawTransaction) -> TransactionId {
    transaction_id(&Transaction { from: tx.from.clone(), seqno: tx.seqno, data: tx.data.clone() })
}

fn drain(node: &mut Node) -> Vec<Event> {
    let mut events = Vec::new();
    while node.pending_events() > 0 {
        events.push(node.poll_at(0).unwrap());
    }
    events
}

fn pairs(routes: &[Route]) -> Vec<(u8, u8)> {
    routes.iter().map(|r| (r.source().to_bytes()[2], r.target().to_bytes()[2])).collect()
}

fn queued_seqnos(node: &Node, n: u8) -> Vec<u64> {
    node.queued(&peer(n))
        .iter()
        .map(|entry| match entry {
            RpcOut::Publish { tx, .. } | RpcOut::Forward { tx, .. } => tx.seqno,
            _ => panic!("unexpected entry {:?}", entry),
        })
        .collect()
}

#[test]
fn defaults_are_those_of_the_table() {
    let config = Config::default();
    assert_eq!(config.target_redundancy(), 1000);
    assert_eq!(config.redundancy_delta_percent(), 10);
    assert_eq!(config.redundancy_interval(), 1_000_000_000);
    assert_eq!(config.max_transmit_size(), 65536);
    assert_eq!(config.connection_handler_queue_len(), 128);
    assert_eq!(config.publish_queue_duration(), 10_000_000_000);
    assert_eq!(config.forward_queue_duration(), 10_000_000_000);
    assert_eq!(config.duplicate_cache_time(), 60_000_000_000);
    assert_eq!(config.validation_mode(), ValidationMode::Strict);
    assert!(config.forward_transactions());
    assert_eq!(config.max_transactions_per_rpc(), None);
    assert_eq!(ConfigBuilder::default().build(), config);
    assert_eq!(config.protocol_config().max_transmit_size, 65536);
}

#[test]
fn builder_sets_each_key() {
    let config = ConfigBuilder::default()
        .target_redundancy(0)
        .redundancy_delta_percent(0)
        .redundancy_interval(7)
        .max_transmit_size(100)
        .connection_handler_queue_len(3)
        .publish_queue_duration(11)
        .forward_queue_duration(12)
        .duplicate_cache_time(13)
        .validation_mode(ValidationMode::Unchecked)
        .forward_transactions(false)
        .max_transactions_per_rpc(Some(2))
        .build();
    assert_eq!(config.target_redundancy(), 0);
    assert_eq!(config.redundancy_delta_percent(), 0);
    assert_eq!(config.redundancy_interval(), 7);
    assert_eq!(config.max_transmit_size(), 100);
    assert_eq!(config.connection_handler_queue_len(), 3);
    assert_eq!(config.publish_queue_duration(), 11);
    assert_eq!(config.forward_queue_duration(), 12);
    assert_eq!(config.duplicate_cache_time(), 13);
    assert_eq!(config.validation_mode(), ValidationMode::Unchecked);
    assert!(!config.forward_transactions());
    assert_eq!(config.max_transactions_per_rpc(), Some(2));
}

#[test]
fn transaction_id_is_the_fnv1a_hash() {
    // the published test vectors of 64-bit FNV-1a
    assert_eq!(fnv1a_update(FNV_OFFSET_BASIS, b""), 0xcbf29ce484222325);
    assert_eq!(fnv1a_update(FNV_OFFSET_BASIS, b"a"), 0xaf63dc4c8601ec8c);
    assert_eq!(fnv1a_update(FNV_OFFSET_BASIS, b"foobar"), 0x85944171f73967e8);
    assert_eq!(be_bytes(0x0102030405060708), vec![1, 2, 3, 4, 5, 6, 7, 8]);

    let tx = raw(3, 0x0102030405060708, b"hello");
    let mut input = peer(3).to_bytes();
    input.extend_from_slice(&[1, 2, 3, 4, 5, 6, 7, 8]);
    input.extend_from_slice(b"hello");
    let mut hasher = fnv::FnvHasher::default();
    hasher.write(&input);
    assert_eq!(id_of(&tx).0, hasher.finish().to_be_bytes().to_vec());
    // deterministic, and sensitive to each part
    assert_eq!(id_of(&tx), id_of(&raw(3, 0x0102030405060708, b"hello")));
    assert_ne!(id_of(&tx), id_of(&raw(4, 0x0102030405060708, b"hello")));
    assert_ne!(id_of(&tx), id_of(&raw(3, 0x0102030405060709, b"hello")));
    assert_ne!(id_of(&tx), id_of(&raw(3, 0x0102030405060708, b"hellp")));
}

#[test]
fn sequence_number_starts_from_the_wall_clock_and_counts_up() {
    let mut seqno = SequenceNumber::new();
    // after the year 2020, in nanoseconds
    assert!(seqno.0 > 1_577_836_800_000_000_000);
    let first = seqno.next();
    let second = seqno.next();
    assert_eq!(second, first + 1);
    assert_eq!(seqno.0, second);
}

#[test]
fn a_new_node_is_empty() {
    let node = node(1);
    assert!(node.connected_peers().is_empty());
    assert!(node.disabled_routes().is_empty());
    assert_eq!(node.pending_events(), 0);
    assert_eq!(node.counts(), None);
    assert_eq!(*node.config(), Config::default());
}

#[test]
fn publish_without_peers_is_refused_but_remembered() {
    let mut node = node(1);
    let before = node.last_seqno();
    let err = node.publish_transformed(b"x".to_vec(), Ok(b"x".to_vec()), 5).unwrap_err();
    assert!(matches!(err, PublishError::InsufficientPeers));
    assert_eq!(node.last_seqno(), before + 1);
    assert!(node.has_seen(&id_of(&raw(1, before + 1, b"x"))));
}

#[test]
fn publish_checks_the_transformed_size() {
    let mut node = node_with(1, ConfigBuilder::default().max_transmit_size(4).build());
    connect(&mut node, 2);
    let before = node.last_seqno();
    let err = node.publish_transformed(vec![1], Ok(vec![0; 5]), 0).unwrap_err();
    assert!(matches!(err, PublishError::TransactionTooLarge));
    assert_eq!(node.last_seqno(), before);
    assert!(node.queued(&peer(2)).is_empty());
    // exactly the maximum passes, whatever the size before the transform
    assert!(node.publish_transformed(vec![1; 100], Ok(vec![0; 4]), 0).is_ok());
}

#[test]
fn publish_passes_a_failed_transform_on() {
    let mut node = node(1);
    connect(&mut node, 2);
    let before = node.last_seqno();
    let failure = std::io::Error::new(std::io::ErrorKind::Other, "no");
    let err = node.publish_transformed(vec![1], Err(failure), 0).unwrap_err();
    assert!(matches!(err, PublishError::TransformFailed(e) if e.to_string() == "no"));
    assert_eq!(node.last_seqno(), before);
    assert!(node.queued(&peer(2)).is_empty());
}

#[test]
fn publish_reaches_every_peer_whatever_routes_are_closed() {
    let mut node = node(1);
    connect(&mut node, 2);
    connect(&mut node, 3);
    // peer 2 asks not to get the transactions of node 1 itself
    let own = node.publish_transformed(b"a".to_vec(), Ok(b"A".to_vec()), 7).unwrap();
    node.handle_have_tx(vec![own.clone()], &peer(2));
    assert_eq!(pairs(&node.disabled_routes()), vec![(1, 2)]);
    let seqno = node.last_seqno();
    let id = node.publish_transformed(b"b".to_vec(), Ok(b"B".to_vec()), 9).unwrap();
    // the identifier is that of the content before the transform
    assert_eq!(id, id_of(&raw(1, seqno + 1, b"b")));
    assert!(node.has_seen(&id));
    for n in [2, 3] {
        let queue = node.queued(&peer(n));
        assert_eq!(queue.len(), 2);
        match &queue[1] {
            RpcOut::Publish { tx, timeout } => {
                assert!(tx.from.same(&peer(1)));
                assert_eq!(tx.seqno, seqno + 1);
                // what travels is the content after the transform
                assert_eq!(tx.data, b"B".to_vec());
                assert_eq!(*timeout, 9 + 10_000_000_000);
            }
            other => panic!("unexpected entry {:?}", other),
        }
    }
}

#[test]
fn publish_reports_full_queues() {
    let config = ConfigBuilder::default().connection_handler_queue_len(1).build();
    let mut node = node_with(1, config);
    connect(&mut node, 2);
    connect(&mut node, 3);
    assert!(node.publish_transformed(vec![1], Ok(vec![1]), 0).is_ok());
    let err = node.publish_transformed(vec![2], Ok(vec![2]), 0).unwrap_err();
    assert!(matches!(err, PublishError::AllQueuesFull(2)));
    // one queue with room is enough
    let mut handler = libp2p_dog::handler::Handler::new(config.protocol_config());
    assert!(node.poll_handler(&peer(3), &mut handler, 0).is_some());
    assert!(node.publish_transformed(vec![3], Ok(vec![3]), 0).is_ok());
    assert_eq!(node.queued(&peer(2)).len(), 1);
    assert_eq!(node.queued(&peer(3)).len(), 1);
}

#[test]
fn consecutive_publishes_have_increasing_seqnos() {
    let mut node = node(1);
    connect(&mut node, 2);
    let first = node.publish(b"one".to_vec()).unwrap();
    let second = node.publish(b"two".to_vec()).unwrap();
    assert_ne!(first, second);
    let seqnos = queued_seqnos(&node, 2);
    assert_eq!(seqnos.len(), 2);
    assert!(seqnos[0] < seqnos[1]);
    assert_eq!(seqnos[1], seqnos[0] + 1);
    assert!(node.has_seen(&first) && node.has_seen(&second));
}

#[test]
fn publish_timeout_saturates() {
    let mut node = node(1);
    connect(&mut node, 2);
    node.publish_transformed(vec![1], Ok(vec![1]), u64::MAX - 5).unwrap();
    assert!(matches!(&node.queued(&peer(2))[0], RpcOut::Publish { timeout: u64::MAX, .. }));
}

#[test]
fn a_transaction_is_delivered_once_and_never_sent_back() {
    let mut node = node(1);
    for n in [2, 3, 4] {
        connect(&mut node, n);
    }
    let tx = raw(9, 5, b"payload");
    node.deliver_transaction(tx.clone(), ok(&tx), &peer(2), 100);
    // again from the same peer, and from another one
    node.deliver_transaction(tx.clone(), ok(&tx), &peer(2), 200);
    node.deliver_transaction(tx.clone(), ok(&tx), &peer(3), 300);
    let events = drain(&mut node);
    assert_eq!(events.len(), 1);
    match &events[0] {
        Event::Transaction { propagation_source, transaction_id, transaction } => {
            assert!(propagation_source.same(&peer(2)));
            assert_eq!(*transaction_id, id_of(&tx));
            assert!(transaction.from.same(&peer(9)));
            assert_eq!((transaction.seqno, transaction.data.clone()), (5, b"payload".to_vec()));
        }
        other => panic!("unexpected event {:?}", other),
    }
    assert!(node.queued(&peer(2)).is_empty());
    for n in [3, 4] {
        let queue = node.queued(&peer(n));
        assert_eq!(queue.len(), 1);
        assert!(matches!(&queue[0], RpcOut::Forward { tx, timeout }
            if tx.seqno == 5 && tx.from.same(&peer(9)) && *timeout == 100 + 10_000_000_000));
    }
}

#[test]
fn a_transaction_is_delivered_again_once_the_filter_forgot_it() {
    let mut node = node_with(1, ConfigBuilder::default().duplicate_cache_time(50).build());
    connect(&mut node, 2);
    let tx = raw(9, 5, b"payload");
    node.deliver_transaction(tx.clone(), ok(&tx), &peer(2), 100);
    node.deliver_transaction(tx.clone(), ok(&tx), &peer(2), 149);
    assert_eq!(drain(&mut node).len(), 1);
    node.deliver_transaction(tx.clone(), ok(&tx), &peer(2), 150);
    assert_eq!(drain(&mut node).len(), 1);
}

#[test]
fn a_transaction_that_fails_the_transform_is_dropped() {
    let mut node = node(1);
    connect(&mut node, 2);
    connect(&mut node, 3);
    let tx = raw(9, 5, b"payload");
    let failure = std::io::Error::new(std::io::ErrorKind::InvalidData, "bad");
    node.deliver_transaction(tx.clone(), Err(failure), &peer(2), 100);
    assert!(drain(&mut node).is_empty());
    assert!(node.queued(&peer(3)).is_empty());
    assert!(!node.has_seen(&id_of(&tx)));
}

#[test]
fn closed_routes_filter_what_is_forwarded() {
    let mut node = node(1);
    for n in [2, 3, 4] {
        connect(&mut node, n);
    }
    let first = raw(9, 1, b"one");
    node.deliver_transaction(first.clone(), ok(&first), &peer(2), 0);
    // peer 3 has it already: the route (9 -> 3) is closed
    node.handle_have_tx(vec![id_of(&first)], &peer(3));
    assert_eq!(pairs(&node.disabled_routes()), vec![(9, 3)]);
    let second = raw(9, 2, b"two");
    node.deliver_transaction(second.clone(), ok(&second), &peer(2), 0);
    let other = raw(8, 1, b"other");
    node.deliver_transaction(other.clone(), ok(&other), &peer(2), 0);
    assert_eq!(queued_seqnos(&node, 3), vec![1, 1]);
    assert_eq!(queued_seqnos(&node, 4), vec![1, 2, 1]);
    assert!(node.queued(&peer(2)).is_empty());
}

#[test]
fn a_leaf_delivers_and_does_not_forward() {
    let mut node = node_with(1, ConfigBuilder::default().forward_transactions(false).build());
    connect(&mut node, 2);
    connect(&mut node, 3);
    let tx = raw(9, 1, b"one");
    node.deliver_transaction(tx.clone(), ok(&tx), &peer(2), 0);
    assert_eq!(drain(&mut node).len(), 1);
    assert!(node.queued(&peer(3)).is_empty());
}

#[test]
fn forward_goes_to_every_other_peer_with_an_open_route() {
    let mut node = node(1);
    for n in [2, 3, 4] {
        connect(&mut node, n);
    }
    let tx = raw(9, 1, b"one");
    assert!(node.forward_transaction(&id_of(&tx), tx.clone(), &peer(3), 50));
    assert_eq!(queued_seqnos(&node, 2), vec![1]);
    assert!(node.queued(&peer(3)).is_empty());
    assert_eq!(queued_seqnos(&node, 4), vec![1]);
    let mut lonely = self::node(1);
    connect(&mut lonely, 2);
    assert!(!lonely.forward_transaction(&id_of(&tx), tx, &peer(2), 50));
}

#[test]
fn have_tx_names_the_origin_through_the_filter() {
    let mut node = node(1);
    connect(&mut node, 2);
    connect(&mut node, 3);
    let tx = raw(9, 1, b"one");
    node.deliver_transaction(tx.clone(), ok(&tx), &peer(2), 0);
    drain(&mut node);
    // an identifier that was never seen changes nothing
    node.handle_have_tx(vec![TransactionId::new(&[1, 2, 3])], &peer(3));
    assert!(node.disabled_routes().is_empty());
    assert_eq!(node.pending_events(), 0);
    node.handle_have_tx(vec![id_of(&tx), id_of(&tx)], &peer(3));
    assert_eq!(pairs(&node.disabled_routes()), vec![(9, 3), (9, 3)]);
    let events = drain(&mut node);
    assert_eq!(events.len(), 2);
    assert!(matches!(&events[0], Event::RoutingUpdated { disabled_routes } if pairs(disabled_routes) == vec![(9, 3)]));
    assert!(matches!(&events[1], Event::RoutingUpdated { disabled_routes } if pairs(disabled_routes) == vec![(9, 3), (9, 3)]));
}

#[test]
fn reset_route_opens_one_route_to_the_sender() {
    let mut node = node(1);
    connect(&mut node, 2);
    connect(&mut node, 3);
    let a = raw(8, 1, b"a");
    let b = raw(9, 1, b"b");
    node.deliver_transaction(a.clone(), ok(&a), &peer(2), 0);
    node.deliver_transaction(b.clone(), ok(&b), &peer(2), 0);
    node.handle_have_tx(vec![id_of(&a), id_of(&b)], &peer(3));
    node.handle_have_tx(vec![id_of(&a)], &peer(2));
    drain(&mut node);
    // nothing closed towards peer 4
    assert_eq!(node.handle_reset_route(&peer(4)), None);
    assert_eq!(node.pending_events(), 0);
    let picked = node.handle_reset_route(&peer(3)).unwrap();
    assert!(picked == 0 || picked == 1);
    let left = pairs(&node.disabled_routes());
    assert_eq!(left, if picked == 0 { vec![(9, 3), (8, 2)] } else { vec![(8, 3), (8, 2)] });
    let events = drain(&mut node);
    assert_eq!(events.len(), 1);
    assert!(matches!(&events[0], Event::RoutingUpdated { disabled_routes } if pairs(disabled_routes) == left));
    node.reset_route_at(0);
    assert_eq!(pairs(&node.disabled_routes()), vec![(8, 2)]);
}

#[test]
fn connections_are_listed_once_and_peers_leave_with_the_last() {
    let mut node = node(1);
    node.handle_established_inbound_connection(ConnectionId(1), peer(2));
    node.on_swarm_event(FromSwarm::ConnectionEstablished {
        peer_id: peer(2),
        connection_id: ConnectionId(1),
        other_established: 0,
    });
    node.handle_established_outbound_connection(ConnectionId(2), peer(2));
    node.on_connection_established(peer(3), ConnectionId(3));
    assert_eq!(node.connected_peers().len(), 2);
    node.publish_transformed(vec![1], Ok(vec![1]), 0).unwrap();
    assert_eq!(node.queued(&peer(2)).len(), 1);

    // one of two connections closes: the peer stays, and so does its queue
    let lost = node.on_connection_closed(&peer(2), ConnectionId(1), 1);
    assert!(lost.is_empty());
    assert_eq!(node.connected_peers().len(), 2);
    assert_eq!(node.queued(&peer(2)).len(), 1);
    // the last one closes: the peer goes, and the pending publish is handed back
    let lost = node.on_connection_closed(&peer(2), ConnectionId(2), 0);
    assert_eq!(lost.len(), 1);
    assert_eq!(lost[0].data, vec![1]);
    assert_eq!(node.connected_peers().len(), 1);
    assert!(node.connected_peers()[0].same(&peer(3)));
    assert!(node.queued(&peer(2)).is_empty());
    // no route was closed, so the user is not told anything
    assert_eq!(node.pending_events(), 0);
    // a peer that is not connected
    assert!(node.on_connection_closed(&peer(7), ConnectionId(9), 0).is_empty());
}

#[test]
fn a_peer_that_leaves_takes_its_routes_along() {
    let mut node = node(1);
    for n in [2, 3] {
        connect(&mut node, n);
    }
    let from2 = raw(2, 1, b"a");
    let from9 = raw(9, 1, b"b");
    node.deliver_transaction(from2.clone(), ok(&from2), &peer(2), 0);
    node.deliver_transaction(from9.clone(), ok(&from9), &peer(2), 0);
    node.handle_have_tx(vec![id_of(&from2), id_of(&from9)], &peer(3));
    node.handle_have_tx(vec![id_of(&from9)], &peer(2));
    drain(&mut node);
    assert_eq!(pairs(&node.disabled_routes()), vec![(2, 3), (9, 3), (9, 2)]);
    node.on_swarm_event(FromSwarm::ConnectionClosed {
        peer_id: peer(2),
        connection_id: ConnectionId(2),
        remaining_established: 0,
    });
    assert_eq!(pairs(&node.disabled_routes()), vec![(9, 3)]);
    for route in node.disabled_routes() {
        assert!(!route.source().same(&peer(2)) && !route.target().same(&peer(2)));
    }
    let events = drain(&mut node);
    assert_eq!(events.len(), 1);
    assert!(matches!(&events[0], Event::RoutingUpdated { disabled_routes } if pairs(disabled_routes) == vec![(9, 3)]));
}

#[test]
fn evaluation_sends_have_tx_then_reset_route() {
    let config = ConfigBuilder::default().target_redundancy(0).redundancy_delta_percent(0).build();
    let mut node = node_with(1, config);
    connect(&mut node, 2);
    connect(&mut node, 3);
    let a = raw(9, 1, b"a");
    let b = raw(9, 2, b"b");
    // peer 3 sends one first-time transaction and one duplicate
    node.deliver_transaction(a.clone(), ok(&a), &peer(2), 0);
    node.deliver_transaction(b.clone(), ok(&b), &peer(3), 0);
    node.deliver_transaction(a.clone(), ok(&a), &peer(3), 0);
    let before2 = node.queued(&peer(2)).len();
    node.adjust_redundancy();
    // peer 2 sent no duplicate: nothing for it
    assert_eq!(node.queued(&peer(2)).len(), before2);
    let queue = node.queued(&peer(3));
    assert!(matches!(queue.last().unwrap(), RpcOut::HaveTx(h) if h.tx_id == id_of(&a)));
    let len = queue.len();
    // again above the band, but blocked: no second HAVE_TX
    let c = raw(9, 3, b"c");
    node.deliver_transaction(c.clone(), ok(&c), &peer(3), 0);
    node.deliver_transaction(a.clone(), ok(&a), &peer(3), 0);
    node.adjust_redundancy();
    assert_eq!(node.queued(&peer(3)).len(), len);
    // with nothing received, nothing is evaluated
    node.adjust_redundancy();
    assert_eq!(node.queued(&peer(3)).len(), len);
}

#[test]
fn evaluation_asks_for_a_reset_when_redundancy_is_too_low() {
    let config = ConfigBuilder::default().target_redundancy(1000).redundancy_delta_percent(0).build();
    let mut node = node_with(1, config);
    connect(&mut node, 2);
    let txs: Vec<RawTransaction> = (1..=4).map(|i| raw(9, i, b"x")).collect();
    // two first-time receptions and three duplicates: above the band
    for tx in [&txs[0], &txs[1], &txs[0], &txs[0], &txs[1]] {
        node.deliver_transaction(tx.clone(), ok(tx), &peer(2), 0);
    }
    node.adjust_redundancy();
    assert!(matches!(node.queued(&peer(2)).last().unwrap(), RpcOut::HaveTx(h) if h.tx_id == id_of(&txs[1])));
    // two first-time receptions, no duplicate: below the band, and blocked
    for tx in [&txs[2], &txs[3]] {
        node.deliver_transaction(tx.clone(), ok(tx), &peer(2), 0);
    }
    node.adjust_redundancy();
    assert!(matches!(node.queued(&peer(2)).last().unwrap(), RpcOut::ResetRoute(_)));
}

#[test]
fn poll_hands_out_events_first_and_ticks_when_due() {
    let config = ConfigBuilder::default()
        .target_redundancy(0)
        .redundancy_delta_percent(0)
        .redundancy_interval(1000)
        .build();
    let mut node = node_with(1, config);
    connect(&mut node, 2);
    let a = raw(9, 1, b"a");
    let b = raw(9, 2, b"b");
    node.deliver_transaction(a.clone(), ok(&a), &peer(2), 0);
    node.deliver_transaction(b.clone(), ok(&b), &peer(2), 0);
    node.deliver_transaction(a.clone(), ok(&a), &peer(2), 0);
    // events come first, even when the evaluation is due
    assert!(matches!(node.poll_at(5000), Some(Event::Transaction { transaction, .. }) if transaction.seqno == 1));
    assert!(matches!(node.poll_at(5000), Some(Event::Transaction { transaction, .. }) if transaction.seqno == 2));
    assert!(node.queued(&peer(2)).is_empty());
    // not yet due
    assert!(node.poll_at(999).is_none());
    assert!(node.queued(&peer(2)).is_empty());
    // due
    assert!(node.poll_at(1000).is_none());
    assert_eq!(node.queued(&peer(2)).len(), 1);
    // the next one is an interval later
    node.deliver_transaction(a.clone(), ok(&a), &peer(2), 0);
    assert!(node.poll_at(1999).is_none());
    assert!(node.poll().is_none());
}

#[test]
fn handler_events_are_handled_in_order_and_up_to_the_limit() {
    let config = ConfigBuilder::default().max_transactions_per_rpc(Some(2)).build();
    let mut node = node_with(1, config);
    connect(&mut node, 2);
    connect(&mut node, 3);
    let first = raw(9, 1, b"a");
    let rpc = Rpc {
        transactions: vec![first.clone(), raw(9, 2, b"b"), raw(9, 3, b"c")],
        control_msgs: vec![
            ControlAction::ResetRoute(ResetRoute {}),
            ControlAction::HaveTx(HaveTx { tx_id: id_of(&first) }),
        ],
    };
    let invalid = vec![(raw(7, 7, b"zz"), libp2p_dog::error::ValidationError::InvalidPeerId)];
    node.on_connection_handler_event(
        peer(2),
        ConnectionId(2),
        HandlerEvent::Transaction { rpc, invalid_transactions: invalid },
    );
    // two transactions handled, the third one ignored
    assert_eq!(queued_seqnos(&node, 3), vec![1, 2]);
    assert!(node.queued(&peer(2)).is_empty());
    // HAVE_TX is answered before RESET_ROUTE, which opens the route again
    assert!(node.disabled_routes().is_empty());
    let events = drain(&mut node);
    assert_eq!(events.len(), 4);
    assert!(matches!(&events[0], Event::Transaction { transaction, .. } if transaction.seqno == 1));
    assert!(matches!(&events[1], Event::Transaction { transaction, .. } if transaction.seqno == 2));
    assert!(matches!(&events[2], Event::RoutingUpdated { disabled_routes } if pairs(disabled_routes) == vec![(9, 2)]));
    assert!(matches!(&events[3], Event::RoutingUpdated { disabled_routes } if disabled_routes.is_empty()));
    // a dropped entry changes nothing
    node.on_connection_handler_event(
        peer(3),
        ConnectionId(3),
        HandlerEvent::TransactionDropped(RpcOut::ResetRoute(ResetRoute {})),
    );
    assert_eq!(node.pending_events(), 0);
}

#[test]
fn handle_received_transaction_applies_the_identity_transform() {
    let mut node = node(1);
    connect(&mut node, 2);
    connect(&mut node, 3);
    let tx = raw(9, 1, b"a");
    node.handle_received_transaction(tx.clone(), &peer(2));
    node.handle_received_transaction(tx.clone(), &peer(3));
    assert_eq!(drain(&mut node).len(), 1);
    assert!(node.has_seen(&id_of(&tx)));
    assert_eq!(queued_seqnos(&node, 3), vec![1]);
}

#[test]
fn identity_transform_changes_nothing() {
    let transform = IdentityTransform::default();
    assert_eq!(transform.outbound_transform(vec![1, 2]).unwrap(), vec![1, 2]);
    let tx = transform.inbound_transform(raw(3, 4, b"x")).unwrap();
    assert!(tx.from.same(&peer(3)));
    assert_eq!((tx.seqno, tx.data), (4, b"x".to_vec()));
}

#[test]
fn counts_follow_what_happens_and_reach_the_registry() {
    let mut registry = prometheus_client::registry::Registry::default();
    let metrics = Metrics::new(&mut registry);
    let mut node = node(1).with_metrics(metrics);
    connect(&mut node, 2);
    connect(&mut node, 3);
    node.publish_transformed(vec![1; 10], Ok(vec![1; 10]), 0).unwrap();
    let tx = raw(9, 1, b"abc");
    node.deliver_transaction(tx.clone(), ok(&tx), &peer(2), 0);
    node.deliver_transaction(tx.clone(), ok(&tx), &peer(3), 0);
    node.handle_have_tx(vec![id_of(&tx)], &peer(3));
    assert_eq!(
        node.counts().unwrap(),
        Counts {
            txs_sent_counts: 3,
            txs_sent_bytes: 23,
            txs_sent_published: 1,
            txs_recv_counts_unfiltered: 2,
            txs_recv_counts: 1,
            txs_recv_bytes: 6,
        }
    );
    let mut text = String::new();
    prometheus_client::encoding::text::encode(&mut text, &registry).unwrap();
    for line in [
        "txs_sent_counts_total 3",
        "txs_sent_bytes_total 23",
        "txs_sent_published_total 1",
        "txs_recv_counts_unfiltered_total 2",
        "txs_recv_counts_total 1",
        "txs_recv_bytes_total 6",
    ] {
        assert!(text.lines().any(|l| l == line), "{} not in {}", line, text);
    }
}

#[test]
fn counts_wrap_like_the_counters_of_the_registry() {
    let mut registry = prometheus_client::registry::Registry::default();
    let mut metrics = Metrics::new(&mut registry);
    assert_eq!(metrics.counts().txs_sent_counts, 0);
    metrics.tx_sent(usize::MAX);
    metrics.tx_sent(2);
    metrics.register_published_tx();
    metrics.tx_recv_unfiltered(5);
    metrics.tx_recv();
    let counts = metrics.counts();
    assert_eq!(counts.txs_sent_counts, 2);
    assert_eq!(counts.txs_sent_bytes, (usize::MAX as u64).wrapping_add(2));
    assert_eq!(counts.txs_sent_published, 1);
    assert_eq!((counts.txs_recv_counts_unfiltered, counts.txs_recv_bytes, counts.txs_recv_counts), (1, 5, 1));
}

#[test]
fn publish_refuses_what_the_filter_already_holds() {
    let mut node = node(1);
    connect(&mut node, 2);
    // the next transaction of the node itself comes in from a peer first
    let next = raw(1, node.last_seqno() + 1, b"echo");
    node.deliver_transaction(next.clone(), ok(&next), &peer(2), 0);
    let err = node.publish_transformed(b"echo".to_vec(), Ok(b"echo".to_vec()), 1).unwrap_err();
    assert!(matches!(err, PublishError::Duplicate));
    assert!(node.queued(&peer(2)).is_empty());
    // the sequence number is used up all the same
    assert_eq!(node.last_seqno(), next.seqno);
    assert!(node.publish_transformed(b"echo".to_vec(), Ok(b"echo".to_vec()), 2).is_ok());
}

#[test]
fn counters_are_registered_under_their_names_in_order() {
    let mut registry = prometheus_client::registry::Registry::with_prefix("node");
    // a metric that was there before stays in front
    registry.register(
        "before",
        "Something else",
        prometheus_client::metrics::counter::Counter::<u64>::default(),
    );
    let _metrics = Metrics::new(&mut registry);
    let mut text = String::new();
    prometheus_client::encoding::text::encode(&mut text, &registry).unwrap();
    let names = [
        "before",
        "txs_sent_counts",
        "txs_sent_bytes",
        "txs_sent_published",
        "txs_recv_counts_unfiltered",
        "txs_recv_counts",
        "txs_recv_bytes",
    ];
    let listed: Vec<&str> = text
        .lines()
        .filter_map(|line| line.strip_prefix("# TYPE node_"))
        .map(|rest| rest.split_whitespace().next().unwrap())
        .collect();
    assert_eq!(listed, names);
}

#[test]
fn sequence_number_seed_is_the_reading_of_the_wall_clock() {
    assert_eq!(SequenceNumber::from_unix_time(Some(1_700_000_000_000_000_000)).0, 1_700_000_000_000_000_000);
    assert_eq!(SequenceNumber::from_unix_time(Some(u64::MAX)).0, u64::MAX);
    assert_eq!(SequenceNumber::from_unix_time(None).0, 0);
}
