use libp2p_dog::proto::{ControlHaveTx, ControlMessage, ControlResetRoute, Malformed, Transaction, RPC};
use libp2p_dog::varint::{read_varint, varint_len, write_varint, VarintRead};
use libp2p_dog::wire::{read_field, read_fields};

fn encode(v: u64) -> Vec<u8> {
    let mut out = Vec::new();
    write_varint(v, &mut out);
    out
}

#[test]
fn varint_encodings_are_exact() {
    assert_eq!(encode(0), vec![0x00]);
    assert_eq!(encode(1), vec![0x01]);
    assert_eq!(encode(127), vec![0x7f]);
    assert_eq!(encode(128), vec![0x80, 0x01]);
    assert_eq!(encode(150), vec![0x96, 0x01]);
    assert_eq!(encode(300), vec![0xac, 0x02]);
    assert_eq!(encode(16383), vec![0xff, 0x7f]);
    assert_eq!(encode(16384), vec![0x80, 0x80, 0x01]);
    assert_eq!(
        encode(u64::MAX),
        vec![0xff, 0xff, 0xff, 0xff, 0xff, 0xff, 0xff, 0xff, 0xff, 0x01]
    );
}

#[test]
fn varint_len_matches_the_encoding() {
    for v in [0u64, 1, 127, 128, 16383, 16384, 1 << 21, 1 << 35, 1 << 63, u64::MAX] {
        assert_eq!(varint_len(v), encode(v).len());
    }
}

#[test]
fn varint_round_trip_leaves_the_rest() {
    for v in [0u64, 1, 127, 128, 300, 65535, 1 << 32, (1 << 56) - 1, 1 << 63, u64::MAX] {
        let mut bytes = vec![0xee, 0xee];
        write_varint(v, &mut bytes);
        let end = bytes.len();
        bytes.extend_from_slice(&[0xaa, 0xbb]);
        assert_eq!(read_varint(&bytes, 2), VarintRead::Value(v, end));
    }
}

#[test]
fn varint_truncated_and_malformed() {
    assert_eq!(read_varint(&[], 0), VarintRead::Truncated);
    assert_eq!(read_varint(&[0x80], 0), VarintRead::Truncated);
    assert_eq!(read_varint(&[0x80, 0xff, 0x80], 0), VarintRead::Truncated);
    // Eleven bytes, none of the first ten without the continuation bit.
    assert_eq!(read_varint(&[0x80; 11], 0), VarintRead::Malformed);
    // Ten bytes whose value needs more than 64 bits.
    let mut over = vec![0xff; 9];
    over.push(0x02);
    assert_eq!(read_varint(&over, 0), VarintRead::Malformed);
    // A padded encoding of zero is read as zero.
    assert_eq!(read_varint(&[0x80, 0x00], 0), VarintRead::Value(0, 2));
}

#[test]
fn fields_of_each_wire_type() {
    // varint field 2 = 300, fixed64 field 3, len field 1 = "ab", fixed32 field 4
    let body: Vec<u8> = vec![
        16, 0xac, 0x02, 25, 1, 2, 3, 4, 5, 6, 7, 8, 10, 2, b'a', b'b', 37, 9, 9, 9, 9,
    ];
    let fields = read_fields(&body).unwrap();
    assert_eq!(fields.len(), 4);
    assert_eq!((fields[0].tag, fields[0].value, fields[0].payload.clone()), (16, 300, vec![]));
    assert_eq!((fields[1].tag, fields[1].payload.clone()), (25, vec![1, 2, 3, 4, 5, 6, 7, 8]));
    assert_eq!((fields[2].tag, fields[2].payload.clone()), (10, b"ab".to_vec()));
    assert_eq!((fields[3].tag, fields[3].payload.clone()), (37, vec![9, 9, 9, 9]));
    let (first, next) = read_field(&body, 0).unwrap();
    assert_eq!((first.tag, first.value, next), (16, 300, 3));
}

#[test]
fn fields_that_cannot_be_read() {
    // group wire types
    assert!(read_fields(&[11, 0]).is_none());
    assert!(read_fields(&[12, 0]).is_none());
    // unknown wire types
    assert!(read_fields(&[14, 0]).is_none());
    assert!(read_fields(&[15, 0]).is_none());
    // length runs past the end
    assert!(read_fields(&[10, 3, 1, 2]).is_none());
    // fixed-width value cut short
    assert!(read_fields(&[25, 1, 2, 3]).is_none());
    assert!(read_fields(&[37, 1, 2, 3]).is_none());
    // tag without a value
    assert!(read_fields(&[16]).is_none());
    // a tag over 32 bits
    assert!(read_fields(&[0x80, 0x80, 0x80, 0x80, 0x10, 0]).is_none());
    // the empty body holds no field
    assert_eq!(read_fields(&[]).unwrap().len(), 0);
}

fn sample_rpc() -> RPC {
    RPC {
        txs: vec![
            Transaction { from: vec![1, 2], seqno: 300, data: vec![9] },
            Transaction { from: vec![], seqno: 0, data: vec![] },
            Transaction { from: vec![7; 200], seqno: u64::MAX, data: vec![3; 1000] },
        ],
        control: Some(ControlMessage {
            have_tx: vec![ControlHaveTx { tx_id: vec![0xaa, 0xbb] }, ControlHaveTx { tx_id: vec![] }],
            reset_route: vec![ControlResetRoute {}, ControlResetRoute {}],
        }),
    }
}

#[test]
fn transaction_encoding_is_exact() {
    let tx = Transaction { from: vec![1, 2], seqno: 300, data: vec![9] };
    let mut out = Vec::new();
    tx.write_message(&mut out);
    assert_eq!(out, vec![10, 2, 1, 2, 16, 0xac, 0x02, 26, 1, 9]);
    let empty = Transaction::default();
    let mut out = Vec::new();
    empty.write_message(&mut out);
    assert!(out.is_empty());
}

#[test]
fn rpc_encoding_is_exact() {
    let rpc = RPC {
        txs: vec![Transaction { from: vec![1], seqno: 1, data: vec![2] }],
        control: Some(ControlMessage {
            have_tx: vec![ControlHaveTx { tx_id: vec![5] }],
            reset_route: vec![ControlResetRoute {}],
        }),
    };
    assert_eq!(
        rpc.to_bytes(),
        vec![10, 8, 10, 1, 1, 16, 1, 26, 1, 2, 18, 7, 10, 3, 10, 1, 5, 18, 0]
    );
    assert!(RPC::default().to_bytes().is_empty());
    let only_control = RPC { txs: vec![], control: Some(ControlMessage::default()) };
    assert_eq!(only_control.to_bytes(), vec![18, 0]);
}

#[test]
fn rpc_round_trip() {
    for rpc in [sample_rpc(), RPC::default(), RPC { txs: vec![], control: Some(ControlMessage::default()) }] {
        let bytes = rpc.to_bytes();
        assert_eq!(RPC::from_reader(&bytes), Ok(rpc.clone()));
    }
}

#[test]
fn reader_skips_unknown_fields_and_keeps_the_last_value() {
    // unknown varint field 9, then from = [1], then from = [2, 3]
    let body = vec![72, 5, 10, 1, 1, 10, 2, 2, 3];
    let tx = Transaction::from_reader(&body).unwrap();
    assert_eq!(tx, Transaction { from: vec![2, 3], seqno: 0, data: vec![] });
    // a field 1 with the wrong wire type is passed over
    let body = vec![8, 5, 16, 7];
    let tx = Transaction::from_reader(&body).unwrap();
    assert_eq!(tx, Transaction { from: vec![], seqno: 7, data: vec![] });
    // two control parts: the last one stands
    let body = vec![18, 2, 18, 0, 18, 0];
    let rpc = RPC::from_reader(&body).unwrap();
    assert_eq!(rpc.control, Some(ControlMessage::default()));
}

#[test]
fn reader_refuses_a_malformed_nested_message() {
    // a transaction whose body ends inside a field
    assert_eq!(RPC::from_reader(&[10, 2, 10, 5]), Err(Malformed));
    // a have_tx whose body ends inside a field
    assert_eq!(RPC::from_reader(&[18, 4, 10, 2, 10, 9]), Err(Malformed));
    assert_eq!(ControlMessage::from_reader(&[10, 2, 10, 9]), Err(Malformed));
    assert_eq!(ControlHaveTx::from_reader(&[10, 9]), Err(Malformed));
    // a reset_route accepts whatever its body holds
    assert_eq!(ControlResetRoute::from_reader(&[255, 255]), Ok(ControlResetRoute {}));
    let rpc = RPC::from_reader(&[18, 4, 18, 2, 255, 255]).unwrap();
    assert_eq!(rpc.control.unwrap().reset_route.len(), 1);
}

#[test]
fn bytes_agree_with_quick_protobuf() {
    let tx = Transaction { from: vec![1, 2, 3], seqno: 1_000_000, data: vec![8; 300] };
    let mut mine = Vec::new();
    tx.write_message(&mut mine);

    let mut theirs = Vec::new();
    {
        let mut w = quick_protobuf::Writer::new(&mut theirs);
        w.write_with_tag(10, |w| w.write_bytes(&tx.from)).unwrap();
        w.write_with_tag(16, |w| w.write_uint64(tx.seqno)).unwrap();
        w.write_with_tag(26, |w| w.write_bytes(&tx.data)).unwrap();
    }
    assert_eq!(mine, theirs);

    let mut r = quick_protobuf::BytesReader::from_bytes(&mine);
    assert_eq!(r.next_tag(&mine).unwrap(), 10);
    assert_eq!(r.read_bytes(&mine).unwrap(), &tx.from[..]);
    assert_eq!(r.next_tag(&mine).unwrap(), 16);
    assert_eq!(r.read_uint64(&mine).unwrap(), tx.seqno);
    assert_eq!(r.next_tag(&mine).unwrap(), 26);
    assert_eq!(r.read_bytes(&mine).unwrap(), &tx.data[..]);
    assert!(r.is_eof());
}

#[test]
fn get_size_is_the_length_of_what_is_written() {
    let rpc = sample_rpc();
    assert_eq!(rpc.get_size(), rpc.to_bytes().len());
    assert_eq!(RPC::default().get_size(), 0);
    for tx in &rpc.txs {
        let mut out = Vec::new();
        tx.write_message(&mut out);
        assert_eq!(tx.get_size(), out.len());
    }
    let control = rpc.control.clone().unwrap();
    let mut out = Vec::new();
    control.write_message(&mut out);
    assert_eq!(control.get_size(), out.len());
    assert_eq!(control.get_size(), 6 + 2 + 4);
    assert_eq!(ControlHaveTx { tx_id: vec![1, 2, 3] }.get_size(), 5);
    assert_eq!(Transaction { from: vec![1; 128], seqno: 128, data: vec![] }.get_size(), 1 + 2 + 128 + 1 + 2);
}
