use libp2p_dog::config::ValidationMode;
use libp2p_dog::error::{CodecError, ValidationError};
use libp2p_dog::handler::{Handler, HandlerEvent, HandlerOut};
use libp2p_dog::peer::PeerId;
use libp2p_dog::proto::{ControlHaveTx, ControlMessage, ControlResetRoute, Transaction, RPC};
use libp2p_dog::protocol::{
    classify_transaction, control_actions, DogCodec, ProtocolConfig, DEFAULT_MAX_TRANSMIT_SIZE,
    DOG_PROTOCOL,
};
use libp2p_dog::rpc::Sender;
use libp2p_dog::types::{ControlAction, HaveTx, RawTransaction, ResetRoute, RpcOut, TransactionId};

fn peer(n: u8) -> PeerId {
    PeerId::from_bytes(&[0, 4, n, n, n, n]).unwrap()
}

fn frame(rpc: &RPC) -> Vec<u8> {
    let mut codec = DogCodec::new(65536, ValidationMode::Strict);
    let mut out = Vec::new();
    codec.encode(rpc.clone(), &mut out).unwrap();
    out
}

#[test]
fn protocol_defaults() {
    let config = ProtocolConfig::default();
    assert_eq!(config.max_transmit_size, 65536);
    assert_eq!(DEFAULT_MAX_TRANSMIT_SIZE, 65536);
    assert_eq!(config.validation_mode, ValidationMode::Strict);
    assert_eq!(config.protocol_info(), "/dog/1.0.0");
    assert_eq!(DOG_PROTOCOL, "/dog/1.0.0");
}

#[test]
fn peer_id_parses_what_libp2p_writes() {
    let theirs = libp2p::PeerId::random();
    let mine = PeerId::from_bytes(&theirs.to_bytes()).unwrap();
    assert_eq!(mine.to_bytes(), theirs.to_bytes());
    assert!(mine.same(&mine.clone()));
    assert!(!mine.same(&PeerId::random()));
    assert_eq!(PeerId::random().to_bytes().len(), 34);
}

#[test]
fn peer_id_refuses_what_libp2p_refuses() {
    assert_eq!(PeerId::from_bytes(&[]).unwrap_err(), ValidationError::InvalidPeerId);
    assert_eq!(PeerId::from_bytes(&[1, 2, 3]).unwrap_err(), ValidationError::InvalidPeerId);
    // an unsupported multihash code
    assert!(PeerId::from_bytes(&[0x13, 2, 1, 1]).is_err());
    // trailing bytes
    assert!(PeerId::from_bytes(&[0, 2, 1, 1, 1]).is_err());
}

#[test]
fn peer_id_is_held_in_its_canonical_encoding() {
    // The code 0x12 written in ten bytes: libp2p reads it, and writes it in one.
    let mut padded = vec![0x92, 0x80, 0x80, 0x80, 0x80, 0x80, 0x80, 0x80, 0x80, 0x02];
    padded.push(2);
    padded.extend_from_slice(&[7, 7]);
    let mine = PeerId::from_bytes(&padded).unwrap();
    assert_eq!(mine.to_bytes(), vec![0x12, 2, 7, 7]);
}

#[test]
fn encode_writes_length_then_body() {
    let rpc = RPC { txs: vec![Transaction { from: vec![1], seqno: 1, data: vec![2] }], control: None };
    assert_eq!(frame(&rpc), vec![10, 10, 8, 10, 1, 1, 16, 1, 26, 1, 2]);
    assert_eq!(frame(&RPC::default()), vec![0]);
}

#[test]
fn decode_frame_waits_for_the_whole_frame() {
    let rpc = RPC { txs: vec![Transaction { from: vec![1], seqno: 1, data: vec![2; 200] }], control: None };
    let whole = frame(&rpc);
    let mut codec = DogCodec::new(65536, ValidationMode::Strict);
    for cut in 0..whole.len() {
        let mut src = whole[..cut].to_vec();
        assert_eq!(codec.decode_frame(&mut src), Ok(None));
        assert_eq!(src, whole[..cut].to_vec());
    }
    let mut src = whole.clone();
    src.extend_from_slice(&[0xde, 0xad]);
    assert_eq!(codec.decode_frame(&mut src), Ok(Some(rpc)));
    assert_eq!(src, vec![0xde, 0xad]);
}

#[test]
fn decode_frame_errors() {
    let mut codec = DogCodec::new(4, ValidationMode::Strict);
    // five bytes announced, four allowed
    let mut src = vec![5, 0, 0, 0, 0, 0];
    assert_eq!(codec.decode_frame(&mut src), Err(CodecError::TooLarge));
    assert_eq!(src.len(), 6);
    // exactly the maximum is accepted
    let mut src = vec![4, 16, 1, 16, 2, 9];
    assert!(codec.decode_frame(&mut src).unwrap().is_some());
    assert_eq!(src, vec![9]);
    // a length of eleven bytes
    let mut src = vec![0x80; 11];
    assert_eq!(codec.decode_frame(&mut src), Err(CodecError::InvalidLength));
    assert_eq!(src.len(), 11);
    // a body that is no RPC: the frame is gone all the same
    let mut src = vec![2, 10, 5, 77];
    assert_eq!(codec.decode_frame(&mut src), Err(CodecError::Malformed));
    assert_eq!(src, vec![77]);
}

#[test]
fn classify_keeps_or_sets_aside() {
    let tx = Transaction { from: vec![9], seqno: 4, data: vec![1, 2] };
    let kept = classify_transaction(tx.clone(), Ok(peer(1))).unwrap();
    assert!(kept.from.same(&peer(1)));
    assert_eq!((kept.seqno, kept.data), (4, vec![1, 2]));
    let (aside, reason) = classify_transaction(tx, Err(peer(2))).unwrap_err();
    assert!(aside.from.same(&peer(2)));
    assert_eq!((aside.seqno, aside.data, reason), (4, vec![1, 2], ValidationError::InvalidPeerId));
}

#[test]
fn control_actions_keep_have_tx_first() {
    let control = ControlMessage {
        have_tx: vec![ControlHaveTx { tx_id: vec![1] }, ControlHaveTx { tx_id: vec![2] }],
        reset_route: vec![ControlResetRoute {}],
    };
    let actions = control_actions(control);
    assert_eq!(actions.len(), 3);
    assert!(matches!(&actions[0], ControlAction::HaveTx(h) if h.tx_id.0 == vec![1]));
    assert!(matches!(&actions[1], ControlAction::HaveTx(h) if h.tx_id.0 == vec![2]));
    assert!(matches!(&actions[2], ControlAction::ResetRoute(_)));
}

fn rpc_with_origins(origins: Vec<Vec<u8>>) -> RPC {
    RPC {
        txs: origins
            .into_iter()
            .enumerate()
            .map(|(i, from)| Transaction { from, seqno: i as u64 + 1, data: vec![i as u8] })
            .collect(),
        control: Some(ControlMessage {
            have_tx: vec![ControlHaveTx { tx_id: vec![0xaa] }],
            reset_route: vec![ControlResetRoute {}],
        }),
    }
}

#[test]
fn strict_decode_sets_invalid_origins_aside() {
    let rpc = rpc_with_origins(vec![peer(1).to_bytes(), vec![1, 2, 3], peer(2).to_bytes(), vec![]]);
    let mut src = frame(&rpc);
    let mut codec = DogCodec::new(65536, ValidationMode::Strict);
    let event = codec.decode(&mut src).unwrap().unwrap();
    assert!(src.is_empty());
    match event {
        HandlerEvent::Transaction { rpc, invalid_transactions } => {
            assert_eq!(rpc.transactions.len(), 2);
            assert!(rpc.transactions[0].from.same(&peer(1)));
            assert_eq!((rpc.transactions[0].seqno, rpc.transactions[0].data.clone()), (1, vec![0]));
            assert!(rpc.transactions[1].from.same(&peer(2)));
            assert_eq!((rpc.transactions[1].seqno, rpc.transactions[1].data.clone()), (3, vec![2]));
            assert_eq!(invalid_transactions.len(), 2);
            assert_eq!(invalid_transactions[0].0.seqno, 2);
            assert_eq!(invalid_transactions[0].0.data, vec![1]);
            assert_eq!(invalid_transactions[0].1, ValidationError::InvalidPeerId);
            assert_eq!(invalid_transactions[1].0.seqno, 4);
            assert_eq!(rpc.control_msgs.len(), 2);
            assert!(matches!(&rpc.control_msgs[0], ControlAction::HaveTx(h) if h.tx_id.0 == vec![0xaa]));
            assert!(matches!(&rpc.control_msgs[1], ControlAction::ResetRoute(_)));
        }
        other => panic!("unexpected event {:?}", other),
    }
}

#[test]
fn unchecked_decode_keeps_everything_under_random_origins() {
    let rpc = rpc_with_origins(vec![peer(1).to_bytes(), vec![1, 2, 3]]);
    let mut src = frame(&rpc);
    let mut codec = DogCodec::new(65536, ValidationMode::Unchecked);
    match codec.decode(&mut src).unwrap().unwrap() {
        HandlerEvent::Transaction { rpc, invalid_transactions } => {
            assert!(invalid_transactions.is_empty());
            assert_eq!(rpc.transactions.len(), 2);
            assert_eq!((rpc.transactions[0].seqno, rpc.transactions[0].data.clone()), (1, vec![0]));
            assert_eq!((rpc.transactions[1].seqno, rpc.transactions[1].data.clone()), (2, vec![1]));
            assert!(!rpc.transactions[0].from.same(&peer(1)));
            assert_eq!(rpc.transactions[0].from.to_bytes().len(), 34);
        }
        other => panic!("unexpected event {:?}", other),
    }
}

#[test]
fn decode_passes_frame_errors_on() {
    let mut codec = DogCodec::new(2, ValidationMode::Strict);
    assert!(matches!(codec.decode(&mut vec![]), Ok(None)));
    assert!(matches!(codec.decode(&mut vec![3, 0, 0, 0]), Err(CodecError::TooLarge)));
    assert!(matches!(codec.decode(&mut vec![0x80; 12]), Err(CodecError::InvalidLength)));
    assert!(matches!(codec.decode(&mut vec![1, 10]), Err(CodecError::Malformed)));
}

fn raw(n: u8) -> RawTransaction {
    RawTransaction { from: peer(n), seqno: n as u64, data: vec![n; 3] }
}

#[test]
fn handler_frames_what_is_in_time_and_drops_what_is_late() {
    let mut handler = Handler::new(ProtocolConfig::default());
    let mut queue = Sender::new(8);
    queue.send_transaction(RpcOut::Forward { tx: raw(1), timeout: 100 }).unwrap();
    queue.send_transaction(RpcOut::Publish { tx: raw(2), timeout: 100 }).unwrap();
    queue.send_transaction(RpcOut::Forward { tx: raw(3), timeout: 101 }).unwrap();
    queue.send_transaction(RpcOut::HaveTx(HaveTx { tx_id: TransactionId::new(&[5]) })).unwrap();
    queue.send_transaction(RpcOut::ResetRoute(ResetRoute {})).unwrap();

    // in time: sent
    match handler.poll_outbound(&mut queue, 99).unwrap() {
        HandlerOut::Send(rpc) => {
            let expected = RpcOut::Forward { tx: raw(1), timeout: 100 }.into_protobuf();
            assert_eq!(rpc, expected);
            assert_eq!(rpc.txs.len(), 1);
            assert_eq!(rpc.txs[0].from, peer(1).to_bytes());
            assert_eq!((rpc.txs[0].seqno, rpc.txs[0].data.clone()), (1, vec![1; 3]));
            assert!(rpc.control.is_none());
        }
        other => panic!("unexpected {:?}", other),
    }
    // the time limit has come: dropped and reported
    match handler.poll_outbound(&mut queue, 100).unwrap() {
        HandlerOut::Notify(HandlerEvent::TransactionDropped(RpcOut::Publish { tx, timeout })) => {
            assert_eq!((tx.seqno, timeout), (2, 100));
        }
        other => panic!("unexpected {:?}", other),
    }
    assert!(matches!(handler.poll_outbound(&mut queue, 100).unwrap(), HandlerOut::Send(_)));
    // control messages have no time limit
    match handler.poll_outbound(&mut queue, u64::MAX).unwrap() {
        HandlerOut::Send(rpc) => assert_eq!(frame(&rpc), vec![7, 18, 5, 10, 3, 10, 1, 5]),
        other => panic!("unexpected {:?}", other),
    }
    match handler.poll_outbound(&mut queue, u64::MAX).unwrap() {
        HandlerOut::Send(rpc) => assert_eq!(frame(&rpc), vec![4, 18, 2, 18, 0]),
        other => panic!("unexpected {:?}", other),
    }
    assert!(handler.poll_outbound(&mut queue, 0).is_none());
}

#[test]
fn handler_decodes_frames_as_bytes_arrive() {
    let rpc = rpc_with_origins(vec![peer(1).to_bytes()]);
    let bytes = frame(&rpc);
    let mut handler = Handler::new(ProtocolConfig::default());
    handler.receive(&bytes[..3]);
    assert!(matches!(handler.poll_inbound(), Ok(None)));
    handler.receive(&bytes[3..]);
    handler.receive(&bytes);
    assert!(matches!(handler.poll_inbound(), Ok(Some(HandlerEvent::Transaction { .. }))));
    assert!(matches!(handler.poll_inbound(), Ok(Some(HandlerEvent::Transaction { .. }))));
    assert!(matches!(handler.poll_inbound(), Ok(None)));
}

#[test]
fn queue_is_bounded_and_first_in_first_out() {
    let mut queue = Sender::new(2);
    assert!(queue.send_transaction(RpcOut::Publish { tx: raw(1), timeout: 1 }).is_ok());
    assert!(!queue.is_full());
    assert!(queue.send_transaction(RpcOut::Forward { tx: raw(2), timeout: 2 }).is_ok());
    assert!(queue.is_full());
    let back = queue.send_transaction(RpcOut::Publish { tx: raw(3), timeout: 3 }).unwrap_err();
    assert!(matches!(back, RpcOut::Publish { tx, timeout: 3 } if tx.seqno == 3));
    assert_eq!(queue.len(), 2);
    assert!(matches!(queue.try_recv(), Some(RpcOut::Publish { tx, .. }) if tx.seqno == 1));
    assert!(matches!(queue.try_recv(), Some(RpcOut::Forward { tx, .. }) if tx.seqno == 2));
    assert!(queue.try_recv().is_none());
}

#[test]
fn closing_a_queue_hands_back_the_publishes() {
    let mut queue = Sender::new(8);
    queue.send_transaction(RpcOut::Publish { tx: raw(1), timeout: 1 }).unwrap();
    queue.send_transaction(RpcOut::Forward { tx: raw(2), timeout: 1 }).unwrap();
    queue.send_transaction(RpcOut::ResetRoute(ResetRoute {})).unwrap();
    queue.send_transaction(RpcOut::Publish { tx: raw(4), timeout: 1 }).unwrap();
    let lost = queue.close();
    assert_eq!(lost.iter().map(|tx| tx.seqno).collect::<Vec<_>>(), vec![1, 4]);
    assert_eq!(queue.len(), 0);
}
