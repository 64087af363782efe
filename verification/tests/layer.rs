use libp2p_dog::behaviour::FromSwarm;
use libp2p_dog::config::DogConfig;
use libp2p_dog::error::PublishError;
use libp2p_dog::layer::{
    filter_key, Behaviour, DogEvent, DogRpc, DogTransaction, InnerMessage, ToSwarm,
};
use libp2p_dog::peer::{ConnectionId, PeerId};
use libp2p_dog::types::TransactionId;

fn peer(n: u8) -> PeerId {
    PeerId::from_bytes(&[0, 4, n, n, n, n]).unwrap()
}

fn tx(from: u8, id: u8, data: &[u8]) -> DogTransaction {
    DogTransaction { from: peer(from), tx_id: vec![id; 20], data: data.to_vec() }
}

fn drain(layer: &mut Behaviour) -> Vec<ToSwarm> {
    let mut events = Vec::new();
    while let Some(event) = layer.poll() {
        events.push(event);
    }
    events
}

fn connected(n: u8, peers: &[u8], targets: &[u8]) -> Behaviour {
    let mut layer = Behaviour::new(peer(n));
    for p in targets {
        layer.add_target_peer(peer(*p));
    }
    for p in peers {
        layer.on_connection_established(peer(*p), 0);
    }
    layer
}

#[test]
fn filter_key_is_exact() {
    let key = filter_key(&DogTransaction { from: peer(7), tx_id: vec![1, 2], data: vec![9, 9, 9] });
    assert_eq!(key, vec![6, 0, 4, 7, 7, 7, 7, 2, 1, 2, 9, 9, 9]);
}

#[test]
fn publish_goes_to_the_user_and_to_connected_targets() {
    let mut layer = connected(1, &[2, 3, 4], &[4, 2, 9]);
    // a second connection of a known peer changes nothing
    layer.on_connection_established(peer(2), 1);
    layer.on_connection_established(peer(2), 0);
    layer.add_target_peer(peer(4));
    layer.publish(b"hello".to_vec());
    let events = drain(&mut layer);
    assert_eq!(events.len(), 3);
    let id = match &events[0] {
        ToSwarm::GenerateEvent(DogEvent::Transaction(t)) => {
            assert!(t.from.same(&peer(1)));
            assert_eq!(t.data, b"hello".to_vec());
            assert_eq!(t.tx_id.len(), 20);
            t.tx_id.clone()
        }
        other => panic!("unexpected {:?}", other),
    };
    // in the order in which the peers connected; peer 3 is no target
    for (event, n) in events[1..].iter().zip([2u8, 4]) {
        match event {
            ToSwarm::NotifyHandler { peer_id, event } => {
                assert!(peer_id.same(&peer(n)));
                assert_eq!(event.transactions.len(), 1);
                assert_eq!(event.transactions[0].tx_id, id);
            }
            other => panic!("unexpected {:?}", other),
        }
    }
    // two publishes draw two identifiers
    layer.publish_with_id(b"x".to_vec(), vec![5; 20]);
    layer.publish(b"hello".to_vec());
    let events = drain(&mut layer);
    assert!(matches!(&events[0], ToSwarm::GenerateEvent(DogEvent::Transaction(t)) if t.tx_id == vec![5; 20]));
    assert!(matches!(&events[3], ToSwarm::GenerateEvent(DogEvent::Transaction(t)) if t.tx_id != id));
}

#[test]
fn received_transactions_are_flooded_once() {
    let mut layer = connected(1, &[2, 3, 4], &[2, 3, 4]);
    let rpc = DogRpc { transactions: vec![tx(9, 1, b"a"), tx(9, 2, b"b"), tx(9, 1, b"a")] };
    layer.on_connection_handler_event(peer(3), ConnectionId(0), Ok(InnerMessage::from(rpc)));
    let events = drain(&mut layer);
    assert_eq!(events.len(), 4);
    assert!(matches!(&events[0], ToSwarm::GenerateEvent(DogEvent::Transaction(t)) if t.tx_id == vec![1; 20]));
    assert!(matches!(&events[1], ToSwarm::GenerateEvent(DogEvent::Transaction(t)) if t.tx_id == vec![2; 20]));
    for (event, n) in events[2..].iter().zip([2u8, 4]) {
        match event {
            ToSwarm::NotifyHandler { peer_id, event } => {
                assert!(peer_id.same(&peer(n)));
                let ids: Vec<u8> = event.transactions.iter().map(|t| t.tx_id[0]).collect();
                assert_eq!(ids, vec![1, 2]);
            }
            other => panic!("unexpected {:?}", other),
        }
    }
    // all of it again, from another peer: nothing new, nothing to do
    let rpc = DogRpc { transactions: vec![tx(9, 1, b"a"), tx(9, 2, b"b")] };
    layer.on_connection_handler_event(peer(2), ConnectionId(0), Ok(InnerMessage::Rx(rpc)));
    assert!(drain(&mut layer).is_empty());
}

#[test]
fn own_publishes_are_known_when_they_come_back() {
    let mut layer = connected(1, &[2], &[2]);
    layer.publish_with_id(b"mine".to_vec(), vec![7; 20]);
    drain(&mut layer);
    let rpc = DogRpc { transactions: vec![tx(1, 7, b"mine")] };
    layer.on_connection_handler_event(peer(2), ConnectionId(0), Ok(InnerMessage::Rx(rpc)));
    assert!(drain(&mut layer).is_empty());
}

#[test]
fn screen_and_dispatch() {
    let mut layer = connected(1, &[2, 3], &[2, 3]);
    assert!(layer.screen(&tx(9, 1, b"a")));
    assert!(!layer.screen(&tx(9, 1, b"a")));
    assert!(layer.screen(&tx(9, 1, b"b")));
    layer.dispatch(&peer(2), vec![tx(9, 1, b"a"), tx(9, 2, b"b"), tx(9, 3, b"c")], &vec![false, true, true]);
    let events = drain(&mut layer);
    assert_eq!(events.len(), 3);
    assert!(matches!(&events[2], ToSwarm::NotifyHandler { peer_id, event }
        if peer_id.same(&peer(3)) && event.transactions.len() == 2 && event.transactions[0].tx_id[0] == 2));
    layer.dispatch(&peer(2), vec![tx(9, 1, b"a")], &vec![false]);
    assert!(drain(&mut layer).is_empty());
    assert_eq!(layer.recipients(None).len(), 2);
    assert_eq!(layer.recipients(Some(&peer(3))).len(), 1);
}

#[test]
fn sent_reports_change_nothing_and_failures_close_the_connection() {
    let mut layer = connected(1, &[2], &[2]);
    layer.on_connection_handler_event(peer(2), ConnectionId(4), Ok(InnerMessage::from(())));
    assert!(drain(&mut layer).is_empty());
    layer.on_connection_handler_event(peer(2), ConnectionId(4), Err("timeout".to_string()));
    let events = drain(&mut layer);
    assert_eq!(events.len(), 1);
    assert!(matches!(&events[0], ToSwarm::CloseConnection { peer_id, connection }
        if peer_id.same(&peer(2)) && *connection == ConnectionId(4)));
}

#[test]
fn a_target_that_disconnects_is_dialed_again() {
    let mut layer = Behaviour::from_config(DogConfig::new(peer(1)));
    layer.add_target_peer(peer(2));
    layer.on_connection_established(peer(2), 0);
    layer.on_connection_established(peer(3), 0);
    layer.on_connection_closed(peer(2), 1);
    assert!(drain(&mut layer).is_empty());
    layer.on_connection_closed(peer(3), 0);
    assert!(drain(&mut layer).is_empty());
    layer.on_connection_closed(peer(2), 0);
    let events = drain(&mut layer);
    assert_eq!(events.len(), 1);
    assert!(matches!(&events[0], ToSwarm::Dial { peer_id } if peer_id.same(&peer(2))));
    // the same through the events of the host
    layer.on_swarm_event(FromSwarm::ConnectionEstablished {
        peer_id: peer(4),
        connection_id: ConnectionId(1),
        other_established: 0,
    });
    layer.add_target_peer(peer(4));
    assert_eq!(layer.recipients(None).len(), 2);
    layer.on_swarm_event(FromSwarm::ConnectionClosed {
        peer_id: peer(4),
        connection_id: ConnectionId(1),
        remaining_established: 0,
    });
    assert!(matches!(&drain(&mut layer)[..], [ToSwarm::Dial { peer_id }] if peer_id.same(&peer(4))));
}

#[test]
fn transaction_id_prints_as_hex() {
    assert_eq!(TransactionId::new(&[0x00, 0x0f, 0xa5, 0xff]).to_string(), "000fa5ff");
    assert_eq!(TransactionId::new(&[]).to_string(), "");
    let long = TransactionId::from(vec![0xab; 40]);
    assert_eq!(long.to_string(), "ab".repeat(40));
    assert!(long.same(&long.clone()));
}

#[test]
fn publish_error_source_is_the_transform_failure() {
    let err = PublishError::from(std::io::Error::new(std::io::ErrorKind::Other, "boom"));
    assert_eq!(err.source().unwrap().to_string(), "boom");
    assert!(PublishError::Duplicate.source().is_none());
    assert!(PublishError::InsufficientPeers.source().is_none());
    assert!(PublishError::TransactionTooLarge.source().is_none());
    assert!(PublishError::AllQueuesFull(3).source().is_none());
}
