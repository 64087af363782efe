// The wire format held against quick_protobuf and quick_protobuf_codec: what
// one side writes, the other reads.

use asynchronous_codec::{Decoder, Encoder};
use bytes::BytesMut;
use libp2p_dog::config::ValidationMode;
use libp2p_dog::proto::{ControlHaveTx, ControlMessage, ControlResetRoute, Transaction, RPC};
use libp2p_dog::protocol::DogCodec;
use quick_protobuf::sizeofs::{sizeof_len, sizeof_varint};
use quick_protobuf::{BytesReader, MessageRead, MessageWrite, Writer, WriterBackend};

#[derive(Debug, Default, PartialEq, Clone)]
struct PbTransaction {
    from: Vec<u8>,
    seqno: u64,
    data: Vec<u8>,
}

impl<'a> MessageRead<'a> for PbTransaction {
    fn from_reader(r: &mut BytesReader, bytes: &'a [u8]) -> quick_protobuf::Result<Self> {
        let mut msg = Self::default();
        while !r.is_eof() {
            match r.next_tag(bytes) {
                Ok(10) => msg.from = r.read_bytes(bytes)?.to_owned(),
                Ok(16) => msg.seqno = r.read_uint64(bytes)?,
                Ok(26) => msg.data = r.read_bytes(bytes)?.to_owned(),
                Ok(t) => {
                    r.read_unknown(bytes, t)?;
                }
                Err(e) => return Err(e),
            }
        }
        Ok(msg)
    }
}

impl MessageWrite for PbTransaction {
    fn get_size(&self) -> usize {
        (if self.from.is_empty() { 0 } else { 1 + sizeof_len(self.from.len()) })
            + (if self.seqno == 0 { 0 } else { 1 + sizeof_varint(self.seqno) })
            + (if self.data.is_empty() { 0 } else { 1 + sizeof_len(self.data.len()) })
    }

    fn write_message<W: WriterBackend>(&self, w: &mut Writer<W>) -> quick_protobuf::Result<()> {
        if !self.from.is_empty() {
            w.write_with_tag(10, |w| w.write_bytes(&self.from))?;
        }
        if self.seqno != 0 {
            w.write_with_tag(16, |w| w.write_uint64(self.seqno))?;
        }
        if !self.data.is_empty() {
            w.write_with_tag(26, |w| w.write_bytes(&self.data))?;
        }
        Ok(())
    }
}

#[derive(Debug, Default, PartialEq, Clone)]
struct PbHaveTx {
    tx_id: Vec<u8>,
}

impl<'a> MessageRead<'a> for PbHaveTx {
    fn from_reader(r: &mut BytesReader, bytes: &'a [u8]) -> quick_protobuf::Result<Self> {
        let mut msg = Self::default();
        while !r.is_eof() {
            match r.next_tag(bytes) {
                Ok(10) => msg.tx_id = r.read_bytes(bytes)?.to_owned(),
                Ok(t) => {
                    r.read_unknown(bytes, t)?;
                }
                Err(e) => return Err(e),
            }
        }
        Ok(msg)
    }
}

impl MessageWrite for PbHaveTx {
    fn get_size(&self) -> usize {
        if self.tx_id.is_empty() {
            0
        } else {
            1 + sizeof_len(self.tx_id.len())
        }
    }

    fn write_message<W: WriterBackend>(&self, w: &mut Writer<W>) -> quick_protobuf::Result<()> {
        if !self.tx_id.is_empty() {
            w.write_with_tag(10, |w| w.write_bytes(&self.tx_id))?;
        }
        Ok(())
    }
}

#[derive(Debug, Default, PartialEq, Clone)]
struct PbResetRoute {}

impl<'a> MessageRead<'a> for PbResetRoute {
    fn from_reader(r: &mut BytesReader, _: &[u8]) -> quick_protobuf::Result<Self> {
        r.read_to_end();
        Ok(Self::default())
    }
}

impl MessageWrite for PbResetRoute {}

#[derive(Debug, Default, PartialEq, Clone)]
struct PbControl {
    have_tx: Vec<PbHaveTx>,
    reset_route: Vec<PbResetRoute>,
}

impl<'a> MessageRead<'a> for PbControl {
    fn from_reader(r: &mut BytesReader, bytes: &'a [u8]) -> quick_protobuf::Result<Self> {
        let mut msg = Self::default();
        while !r.is_eof() {
            match r.next_tag(bytes) {
                Ok(10) => msg.have_tx.push(r.read_message::<PbHaveTx>(bytes)?),
                Ok(18) => msg.reset_route.push(r.read_message::<PbResetRoute>(bytes)?),
                Ok(t) => {
                    r.read_unknown(bytes, t)?;
                }
                Err(e) => return Err(e),
            }
        }
        Ok(msg)
    }
}

impl MessageWrite for PbControl {
    fn get_size(&self) -> usize {
        self.have_tx.iter().map(|s| 1 + sizeof_len(s.get_size())).sum::<usize>()
            + self.reset_route.iter().map(|s| 1 + sizeof_len(s.get_size())).sum::<usize>()
    }

    fn write_message<W: WriterBackend>(&self, w: &mut Writer<W>) -> quick_protobuf::Result<()> {
        for s in &self.have_tx {
            w.write_with_tag(10, |w| w.write_message(s))?;
        }
        for s in &self.reset_route {
            w.write_with_tag(18, |w| w.write_message(s))?;
        }
        Ok(())
    }
}

#[derive(Debug, Default, PartialEq, Clone)]
struct PbRpc {
    txs: Vec<PbTransaction>,
    control: Option<PbControl>,
}

impl<'a> MessageRead<'a> for PbRpc {
    fn from_reader(r: &mut BytesReader, bytes: &'a [u8]) -> quick_protobuf::Result<Self> {
        let mut msg = Self::default();
        while !r.is_eof() {
            match r.next_tag(bytes) {
                Ok(10) => msg.txs.push(r.read_message::<PbTransaction>(bytes)?),
                Ok(18) => msg.control = Some(r.read_message::<PbControl>(bytes)?),
                Ok(t) => {
                    r.read_unknown(bytes, t)?;
                }
                Err(e) => return Err(e),
            }
        }
        Ok(msg)
    }
}

impl MessageWrite for PbRpc {
    fn get_size(&self) -> usize {
        self.txs.iter().map(|s| 1 + sizeof_len(s.get_size())).sum::<usize>()
            + self.control.as_ref().map_or(0, |m| 1 + sizeof_len(m.get_size()))
    }

    fn write_message<W: WriterBackend>(&self, w: &mut Writer<W>) -> quick_protobuf::Result<()> {
        for s in &self.txs {
            w.write_with_tag(10, |w| w.write_message(s))?;
        }
        if let Some(ref s) = self.control {
            w.write_with_tag(18, |w| w.write_message(s))?;
        }
        Ok(())
    }
}

fn to_pb(rpc: &RPC) -> PbRpc {
    PbRpc {
        txs: rpc
            .txs
            .iter()
            .map(|t| PbTransaction { from: t.from.clone(), seqno: t.seqno, data: t.data.clone() })
            .collect(),
        control: rpc.control.as_ref().map(|c| PbControl {
            have_tx: c.have_tx.iter().map(|h| PbHaveTx { tx_id: h.tx_id.clone() }).collect(),
            reset_route: c.reset_route.iter().map(|_| PbResetRoute {}).collect(),
        }),
    }
}

fn samples() -> Vec<RPC> {
    let mut samples = vec![
        RPC::default(),
        RPC { txs: vec![], control: Some(ControlMessage::default()) },
        RPC { txs: vec![Transaction::default()], control: None },
        RPC {
            txs: vec![
                Transaction { from: vec![0, 4, 1, 2, 3, 4], seqno: 1, data: b"hello".to_vec() },
                Transaction { from: vec![], seqno: u64::MAX, data: vec![0; 300] },
                Transaction { from: vec![9; 127], seqno: 127, data: vec![] },
                Transaction { from: vec![9; 128], seqno: 128, data: vec![1; 16384] },
            ],
            control: Some(ControlMessage {
                have_tx: vec![
                    ControlHaveTx { tx_id: vec![1, 2, 3] },
                    ControlHaveTx { tx_id: vec![] },
                    ControlHaveTx { tx_id: vec![7; 200] },
                ],
                reset_route: vec![ControlResetRoute {}; 3],
            }),
        },
    ];
    for seqno in [0u64, 1, 127, 128, 16383, 16384, 1 << 32, 1 << 63] {
        samples.push(RPC {
            txs: vec![Transaction { from: vec![1], seqno, data: vec![2] }],
            control: None,
        });
    }
    samples
}

#[test]
fn messages_are_written_as_quick_protobuf_writes_them() {
    for rpc in samples() {
        let pb = to_pb(&rpc);
        let mut theirs = Vec::new();
        pb.write_message(&mut Writer::new(&mut theirs)).unwrap();
        assert_eq!(rpc.to_bytes(), theirs);
        assert_eq!(rpc.get_size(), pb.get_size());
    }
}

#[test]
fn messages_are_read_as_quick_protobuf_reads_them() {
    for rpc in samples() {
        let bytes = rpc.to_bytes();
        let mut reader = BytesReader::from_bytes(&bytes);
        let theirs = PbRpc::from_reader(&mut reader, &bytes).unwrap();
        assert_eq!(theirs, to_pb(&rpc));
        assert_eq!(to_pb(&RPC::from_reader(&bytes).unwrap()), theirs);
    }
    // unknown fields of every wire type, before and between the known ones
    let body: Vec<u8> = vec![
        72, 5, 81, 1, 2, 3, 4, 5, 6, 7, 8, 10, 2, 16, 9, 85, 1, 2, 3, 4, 90, 1, 0, 18, 2, 18, 0,
    ];
    let mut reader = BytesReader::from_bytes(&body);
    let theirs = PbRpc::from_reader(&mut reader, &body).unwrap();
    assert_eq!(to_pb(&RPC::from_reader(&body).unwrap()), theirs);
    assert_eq!(theirs.txs[0].seqno, 9);
}

#[test]
fn frames_are_those_of_quick_protobuf_codec() {
    for rpc in samples() {
        let mut theirs = BytesMut::new();
        let mut codec = quick_protobuf_codec::Codec::<PbRpc>::new(1 << 20);
        codec.encode(to_pb(&rpc), &mut theirs).unwrap();

        let mut mine = Vec::new();
        let mut dog = DogCodec::new(1 << 20, ValidationMode::Strict);
        dog.encode(rpc.clone(), &mut mine).unwrap();
        assert_eq!(mine, theirs.to_vec());

        // what each wrote, the other reads
        let mut src = BytesMut::from(&mine[..]);
        assert_eq!(codec.decode(&mut src).unwrap(), Some(to_pb(&rpc)));
        assert!(src.is_empty());
        let mut src = theirs.to_vec();
        assert_eq!(dog.decode_frame(&mut src), Ok(Some(rpc)));
        assert!(src.is_empty());
    }
}

#[test]
fn both_codecs_wait_and_refuse_alike() {
    let rpc = samples().remove(3);
    let mut whole = Vec::new();
    let mut dog = DogCodec::new(100, ValidationMode::Strict);
    let mut codec = quick_protobuf_codec::Codec::<PbRpc>::new(100);
    dog.encode(rpc, &mut whole).unwrap();
    // over the maximum, as soon as the length can be read
    let mut src = BytesMut::from(&whole[..3]);
    assert!(codec.decode(&mut src).is_err());
    assert!(dog.decode_frame(&mut whole[..3].to_vec()).is_err());
    // a length that is not in its shortest encoding
    let padded = vec![0x81, 0x00, 16];
    assert!(codec.decode(&mut BytesMut::from(&padded[..])).is_err());
    assert_eq!(
        dog.decode_frame(&mut padded.clone()),
        Err(libp2p_dog::error::CodecError::InvalidLength)
    );
    // a length of more than ten bytes
    let long = vec![0x80; 11];
    assert!(codec.decode(&mut BytesMut::from(&long[..])).is_err());
    assert!(dog.decode_frame(&mut long.clone()).is_err());
    // an incomplete frame
    let small = RPC { txs: vec![Transaction { from: vec![1], seqno: 1, data: vec![2; 50] }], control: None };
    let mut frame = Vec::new();
    dog.encode(small, &mut frame).unwrap();
    for cut in 0..frame.len() {
        let mut src = BytesMut::from(&frame[..cut]);
        assert_eq!(codec.decode(&mut src).unwrap(), None);
        assert_eq!(dog.decode_frame(&mut frame[..cut].to_vec()), Ok(None));
    }
}
