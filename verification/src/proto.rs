//! The messages of the wire format and their encoding.
//!
//! ```text
//! RPC            { txs: repeated Transaction = 1; control: optional ControlMessage = 2 }
//! Transaction    { from: bytes = 1; seqno: uint64 = 2; data: bytes = 3 }
//! ControlMessage { have_tx: repeated ControlHaveTx = 1; reset_route: repeated ControlResetRoute = 2 }
//! ControlHaveTx  { tx_id: bytes = 1 }
//! ControlResetRoute { }
//! ```
//!
//! A field that holds its default (an empty byte string, a zero) is not
//! written. A reader skips the fields it does not know and keeps the last
//! value of a field that is written twice.

use vstd::prelude::*;
use crate::bytes::bytes_clone;
use crate::varint::{spec_encode_varint, varint_len};
use crate::wire::{
    lemma_read_fields_step,
    lemma_read_len_field,
    lemma_read_varint_field,
    read_fields,
    spec_len_field,
    spec_read_fields,
    spec_varint_field,
    write_len_field,
    write_varint_field,
    Field,
    FieldView,
    fields_view,
};

verus! {

/// Tag of field 1 with a length-delimited value.
pub const TAG_FIELD_1_LEN: u8 = 10;

/// Tag of field 2 with an integer value.
pub const TAG_FIELD_2_VARINT: u8 = 16;

/// Tag of field 2 with a length-delimited value.
pub const TAG_FIELD_2_LEN: u8 = 18;

/// Tag of field 3 with a length-delimited value.
pub const TAG_FIELD_3_LEN: u8 = 26;

/// A message body could not be read.
#[derive(Debug, Clone, Copy, PartialEq, Eq, Structural)]
pub struct Malformed;

/// Reading a body that starts with a length-delimited field gives that field,
/// then the fields of what follows.
pub proof fn lemma_read_fields_len_field(tag: u8, payload: Seq<u8>, rest: Seq<u8>)
    requires
        tag < 128,
        tag % 8 == 2,
        payload.len() <= u64::MAX,
    ensures
        spec_read_fields(spec_len_field(tag, payload) + rest) == match spec_read_fields(rest) {
            Some(fields) => Some(
                seq![FieldView { tag: tag as u64, value: 0, payload }] + fields,
            ),
            None => None,
        },
{
    lemma_read_len_field(tag, payload, rest);
    lemma_read_fields_step(
        spec_len_field(tag, payload),
        rest,
        FieldView { tag: tag as u64, value: 0, payload },
    );
}

/// Reading a body that starts with an integer field gives that field, then
/// the fields of what follows.
pub proof fn lemma_read_fields_varint_field(tag: u8, value: u64, rest: Seq<u8>)
    requires
        tag < 128,
        tag % 8 == 0,
    ensures
        spec_read_fields(spec_varint_field(tag, value) + rest) == match spec_read_fields(rest) {
            Some(fields) => Some(
                seq![FieldView { tag: tag as u64, value, payload: Seq::empty() }] + fields,
            ),
            None => None,
        },
{
    lemma_read_varint_field(tag, value, rest);
    lemma_read_fields_step(
        spec_varint_field(tag, value),
        rest,
        FieldView { tag: tag as u64, value, payload: Seq::empty() },
    );
}

// ---------------------------------------------------------------------------
// Transaction
// ---------------------------------------------------------------------------
/// A transaction as it travels: the origin's peer id as bytes, the origin's
/// sequence number, the payload.
#[derive(Debug, PartialEq)]
pub struct Transaction {
    pub from: Vec<u8>,
    pub seqno: u64,
    pub data: Vec<u8>,
}

pub struct TransactionView {
    pub from: Seq<u8>,
    pub seqno: u64,
    pub data: Seq<u8>,
}

impl View for Transaction {
    type V = TransactionView;

    open spec fn view(&self) -> TransactionView {
        TransactionView { from: self.from@, seqno: self.seqno, data: self.data@ }
    }
}

impl TransactionView {
    /// The message with no field set.
    pub open spec fn empty() -> TransactionView {
        TransactionView { from: Seq::empty(), seqno: 0, data: Seq::empty() }
    }

    /// The message after one more field was read.
    pub open spec fn apply(self, field: FieldView) -> TransactionView {
        if field.tag == TAG_FIELD_1_LEN {
            TransactionView { from: field.payload, ..self }
        } else if field.tag == TAG_FIELD_2_VARINT {
            TransactionView { seqno: field.value, ..self }
        } else if field.tag == TAG_FIELD_3_LEN {
            TransactionView { data: field.payload, ..self }
        } else {
            self
        }
    }

    /// The message after a run of fields was read, first to last.
    pub open spec fn fold(self, fields: Seq<FieldView>) -> TransactionView
        decreases fields.len(),
    {
        if fields.len() == 0 {
            self
        } else {
            self.apply(fields[0]).fold(fields.skip(1))
        }
    }

    /// The message that a body holds.
    pub open spec fn parse(body: Seq<u8>) -> Option<TransactionView> {
        match spec_read_fields(body) {
            Some(fields) => Some(Self::empty().fold(fields)),
            None => None,
        }
    }

    pub open spec fn from_part(self) -> Seq<u8> {
        if self.from.len() > 0 {
            spec_len_field(TAG_FIELD_1_LEN, self.from)
        } else {
            Seq::empty()
        }
    }

    pub open spec fn seqno_part(self) -> Seq<u8> {
        if self.seqno != 0 {
            spec_varint_field(TAG_FIELD_2_VARINT, self.seqno)
        } else {
            Seq::empty()
        }
    }

    pub open spec fn data_part(self) -> Seq<u8> {
        if self.data.len() > 0 {
            spec_len_field(TAG_FIELD_3_LEN, self.data)
        } else {
            Seq::empty()
        }
    }

    /// The body that is written for this message.
    pub open spec fn encoding(self) -> Seq<u8> {
        self.from_part() + self.seqno_part() + self.data_part()
    }

    /// The byte strings are short enough for their lengths to be written.
    pub open spec fn fits(self) -> bool {
        self.from.len() <= u64::MAX && self.data.len() <= u64::MAX
    }

    /// What is written for a transaction is read back as that transaction.
    pub proof fn lemma_round_trip(self)
        requires
            self.fits(),
        ensures
            Self::parse(self.encoding()) == Some(self),
    {
        reveal_with_fuel(TransactionView::fold, 4);
        let none = Seq::<u8>::empty();
        let a = self.from_part();
        let b = self.seqno_part();
        let c = self.data_part();
        assert(spec_read_fields(none) == Some(Seq::<FieldView>::empty()));
        if self.data.len() > 0 {
            lemma_read_fields_len_field(TAG_FIELD_3_LEN, self.data, none);
        }
        assert(c + none =~= c);
        let fc = spec_read_fields(c).unwrap();
        if self.seqno != 0 {
            lemma_read_fields_varint_field(TAG_FIELD_2_VARINT, self.seqno, c);
        }
        assert(none + c =~= c);
        let fb = spec_read_fields(b + c).unwrap();
        if self.from.len() > 0 {
            lemma_read_fields_len_field(TAG_FIELD_1_LEN, self.from, b + c);
        }
        assert(none + (b + c) =~= b + c);
        assert(a + (b + c) =~= self.encoding());
        let fa = spec_read_fields(self.encoding()).unwrap();
        let parsed = Self::empty().fold(fa);
        assert(parsed.from =~= self.from);
        assert(parsed.data =~= self.data);
    }
}

impl Clone for Transaction {
    fn clone(&self) -> (r: Self)
        ensures
            r@ == self@,
    {
        Transaction { from: bytes_clone(&self.from), seqno: self.seqno, data: bytes_clone(&self.data) }
    }
}

impl Default for Transaction {
    fn default() -> (r: Self)
        ensures
            r@ == TransactionView::empty(),
    {
        Transaction { from: Vec::new(), seqno: 0, data: Vec::new() }
    }
}

impl Transaction {
    /// Reads a transaction from a message body.
    pub fn from_reader(bytes: &[u8]) -> (r: Result<Transaction, Malformed>)
        ensures
            match r {
                Ok(tx) => TransactionView::parse(bytes@) == Some(tx@),
                Err(_) => TransactionView::parse(bytes@) is None,
            },
    {
        let fields = match read_fields(bytes) {
            Some(fields) => fields,
            None => {
                return Err(Malformed);
            },
        };
        let ghost all = fields_view(fields@);
        let mut msg = Transaction::default();
        let mut i: usize = 0;
        assert(all.skip(0) =~= all);
        while i < fields.len()
            invariant
                i <= fields@.len(),
                all == fields_view(fields@),
                TransactionView::empty().fold(all) == msg@.fold(all.skip(i as int)),
            decreases fields@.len() - i,
        {
            let field: &Field = &fields[i];
            assert(all.skip(i as int)[0] == field@);
            assert(all.skip(i as int).skip(1) =~= all.skip(i + 1));
            if field.tag == TAG_FIELD_1_LEN as u64 {
                msg.from = bytes_clone(&field.payload);
            } else if field.tag == TAG_FIELD_2_VARINT as u64 {
                msg.seqno = field.value;
            } else if field.tag == TAG_FIELD_3_LEN as u64 {
                msg.data = bytes_clone(&field.payload);
            }
            i += 1;
        }
        Ok(msg)
    }

    /// The number of bytes that the body of this transaction takes.
    pub fn get_size(&self) -> (r: usize)
        requires
            self@.encoding().len() <= usize::MAX,
        ensures
            r == self@.encoding().len(),
    {
        let from: usize = if self.from.len() == 0 {
            0
        } else {
            1 + varint_len(self.from.len() as u64) + self.from.len()
        };
        let seqno: usize = if self.seqno == 0 {
            0
        } else {
            1 + varint_len(self.seqno)
        };
        let data: usize = if self.data.len() == 0 {
            0
        } else {
            1 + varint_len(self.data.len() as u64) + self.data.len()
        };
        from + seqno + data
    }

    /// Appends the body of this transaction to `out`.
    pub fn write_message(&self, out: &mut Vec<u8>)
        ensures
            final(out)@ == old(out)@ + self@.encoding(),
    {
        if self.from.len() > 0 {
            write_len_field(TAG_FIELD_1_LEN, self.from.as_slice(), out);
        }
        if self.seqno != 0 {
            write_varint_field(TAG_FIELD_2_VARINT, self.seqno, out);
        }
        if self.data.len() > 0 {
            write_len_field(TAG_FIELD_3_LEN, self.data.as_slice(), out);
        }
        assert(out@ =~= old(out)@ + self@.encoding());
    }
}

// ---------------------------------------------------------------------------
// ControlHaveTx
// ---------------------------------------------------------------------------
/// "I already have this transaction; stop sending me those of its origin."
#[derive(Debug, PartialEq)]
pub struct ControlHaveTx {
    pub tx_id: Vec<u8>,
}

pub struct ControlHaveTxView {
    pub tx_id: Seq<u8>,
}

impl View for ControlHaveTx {
    type V = ControlHaveTxView;

    open spec fn view(&self) -> ControlHaveTxView {
        ControlHaveTxView { tx_id: self.tx_id@ }
    }
}

impl ControlHaveTxView {
    pub open spec fn empty() -> ControlHaveTxView {
        ControlHaveTxView { tx_id: Seq::empty() }
    }

    pub open spec fn apply(self, field: FieldView) -> ControlHaveTxView {
        if field.tag == TAG_FIELD_1_LEN {
            ControlHaveTxView { tx_id: field.payload }
        } else {
            self
        }
    }

    pub open spec fn fold(self, fields: Seq<FieldView>) -> ControlHaveTxView
        decreases fields.len(),
    {
        if fields.len() == 0 {
            self
        } else {
            self.apply(fields[0]).fold(fields.skip(1))
        }
    }

    /// The message that a body holds.
    pub open spec fn parse(body: Seq<u8>) -> Option<ControlHaveTxView> {
        match spec_read_fields(body) {
            Some(fields) => Some(Self::empty().fold(fields)),
            None => None,
        }
    }

    /// The body that is written for this message.
    pub open spec fn encoding(self) -> Seq<u8> {
        if self.tx_id.len() > 0 {
            spec_len_field(TAG_FIELD_1_LEN, self.tx_id)
        } else {
            Seq::empty()
        }
    }

    pub open spec fn fits(self) -> bool {
        self.tx_id.len() <= u64::MAX
    }

    /// What is written for the message is read back as that message.
    pub proof fn lemma_round_trip(self)
        requires
            self.fits(),
        ensures
            Self::parse(self.encoding()) == Some(self),
    {
        reveal_with_fuel(ControlHaveTxView::fold, 2);
        let none = Seq::<u8>::empty();
        assert(spec_read_fields(none) == Some(Seq::<FieldView>::empty()));
        if self.tx_id.len() > 0 {
            lemma_read_fields_len_field(TAG_FIELD_1_LEN, self.tx_id, none);
            assert(self.encoding() + none =~= self.encoding());
        }
        let parsed = Self::empty().fold(spec_read_fields(self.encoding()).unwrap());
        assert(parsed.tx_id =~= self.tx_id);
    }
}

impl Clone for ControlHaveTx {
    fn clone(&self) -> (r: Self)
        ensures
            r@ == self@,
    {
        ControlHaveTx { tx_id: bytes_clone(&self.tx_id) }
    }
}

impl Default for ControlHaveTx {
    fn default() -> (r: Self)
        ensures
            r@ == ControlHaveTxView::empty(),
    {
        ControlHaveTx { tx_id: Vec::new() }
    }
}

impl ControlHaveTx {
    /// Reads the message from a message body.
    pub fn from_reader(bytes: &[u8]) -> (r: Result<ControlHaveTx, Malformed>)
        ensures
            match r {
                Ok(msg) => ControlHaveTxView::parse(bytes@) == Some(msg@),
                Err(_) => ControlHaveTxView::parse(bytes@) is None,
            },
    {
        let fields = match read_fields(bytes) {
            Some(fields) => fields,
            None => {
                return Err(Malformed);
            },
        };
        let ghost all = fields_view(fields@);
        let mut msg = ControlHaveTx::default();
        let mut i: usize = 0;
        assert(all.skip(0) =~= all);
        while i < fields.len()
            invariant
                i <= fields@.len(),
                all == fields_view(fields@),
                ControlHaveTxView::empty().fold(all) == msg@.fold(all.skip(i as int)),
            decreases fields@.len() - i,
        {
            let field: &Field = &fields[i];
            assert(all.skip(i as int)[0] == field@);
            assert(all.skip(i as int).skip(1) =~= all.skip(i + 1));
            if field.tag == TAG_FIELD_1_LEN as u64 {
                msg.tx_id = bytes_clone(&field.payload);
            }
            i += 1;
        }
        Ok(msg)
    }

    /// The number of bytes that the body of this message takes.
    pub fn get_size(&self) -> (r: usize)
        requires
            self@.encoding().len() <= usize::MAX,
        ensures
            r == self@.encoding().len(),
    {
        if self.tx_id.len() == 0 {
            0
        } else {
            1 + varint_len(self.tx_id.len() as u64) + self.tx_id.len()
        }
    }

    /// Appends the body of this message to `out`.
    pub fn write_message(&self, out: &mut Vec<u8>)
        ensures
            final(out)@ == old(out)@ + self@.encoding(),
    {
        if self.tx_id.len() > 0 {
            write_len_field(TAG_FIELD_1_LEN, self.tx_id.as_slice(), out);
        }
        assert(out@ =~= old(out)@ + self@.encoding());
    }
}

// ---------------------------------------------------------------------------
// ControlResetRoute
// ---------------------------------------------------------------------------
/// "Open again a route to me that you had closed." The message has no field,
/// and whatever its body holds is passed over.
#[derive(Debug, Clone, Copy, PartialEq, Eq, Structural)]
pub struct ControlResetRoute {}

impl Default for ControlResetRoute {
    fn default() -> (r: Self)
        ensures
            r == (ControlResetRoute {  }),
    {
        ControlResetRoute {  }
    }
}

impl ControlResetRoute {
    /// Reads the message from a message body: every body is accepted.
    pub fn from_reader(bytes: &[u8]) -> (r: Result<ControlResetRoute, Malformed>)
        ensures
            r == Ok::<ControlResetRoute, Malformed>(ControlResetRoute {  }),
    {
        Ok(ControlResetRoute {  })
    }

    /// Appends the body of this message to `out`: nothing.
    pub fn write_message(&self, out: &mut Vec<u8>)
        ensures
            final(out)@ == old(out)@,
    {
    }
}

// ---------------------------------------------------------------------------
// ControlMessage
// ---------------------------------------------------------------------------
/// The control part of an RPC.
#[derive(Debug, PartialEq)]
pub struct ControlMessage {
    pub have_tx: Vec<ControlHaveTx>,
    pub reset_route: Vec<ControlResetRoute>,
}

pub struct ControlMessageView {
    pub have_tx: Seq<ControlHaveTxView>,
    /// How many `reset_route` entries the message holds.
    pub reset_route: nat,
}

/// The views of a run of `have_tx` entries.
pub open spec fn have_txs_view(entries: Seq<ControlHaveTx>) -> Seq<ControlHaveTxView> {
    Seq::new(entries.len(), |i: int| entries[i]@)
}

impl View for ControlMessage {
    type V = ControlMessageView;

    open spec fn view(&self) -> ControlMessageView {
        ControlMessageView {
            have_tx: have_txs_view(self.have_tx@),
            reset_route: self.reset_route@.len(),
        }
    }
}

/// What is written for a run of `have_tx` entries.
pub open spec fn spec_write_have_txs(entries: Seq<ControlHaveTxView>) -> Seq<u8>
    decreases entries.len(),
{
    if entries.len() == 0 {
        Seq::empty()
    } else {
        spec_write_have_txs(entries.drop_last()) + spec_len_field(
            TAG_FIELD_1_LEN,
            entries.last().encoding(),
        )
    }
}

/// What is written for `n` `reset_route` entries.
pub open spec fn spec_write_reset_routes(n: nat) -> Seq<u8>
    decreases n,
{
    if n == 0 {
        Seq::empty()
    } else {
        spec_write_reset_routes((n - 1) as nat) + spec_len_field(TAG_FIELD_2_LEN, Seq::empty())
    }
}

/// What is written for the first entries is no longer than what is written
/// for all.
pub proof fn lemma_write_have_txs_prefix(entries: Seq<ControlHaveTxView>, i: int)
    requires
        0 <= i <= entries.len(),
    ensures
        spec_write_have_txs(entries.take(i)).len() <= spec_write_have_txs(entries).len(),
        i < entries.len() ==> spec_write_have_txs(entries.take(i)).len() + spec_len_field(
            TAG_FIELD_1_LEN,
            entries[i].encoding(),
        ).len() <= spec_write_have_txs(entries).len(),
    decreases entries.len() - i,
{
    if i == entries.len() {
        assert(entries.take(i) =~= entries);
    } else {
        lemma_write_have_txs_prefix(entries, i + 1);
        assert(entries.take(i + 1).drop_last() =~= entries.take(i));
        assert(entries.take(i + 1).last() == entries[i]);
    }
}

/// What is written for `n` `reset_route` entries is two bytes for each.
pub proof fn lemma_write_reset_routes_len(n: nat)
    ensures
        spec_write_reset_routes(n).len() == 2 * n,
    decreases n,
{
    if n == 0 {
    } else {
        lemma_write_reset_routes_len((n - 1) as nat);
        assert(spec_encode_varint(0).len() == 1);
    }
}

impl ControlMessageView {
    pub open spec fn empty() -> ControlMessageView {
        ControlMessageView { have_tx: Seq::empty(), reset_route: 0 }
    }

    /// The message after one more field was read, or `None` where the field
    /// holds a message that cannot be read.
    pub open spec fn apply(self, field: FieldView) -> Option<ControlMessageView> {
        if field.tag == TAG_FIELD_1_LEN {
            match ControlHaveTxView::parse(field.payload) {
                Some(entry) => Some(
                    ControlMessageView { have_tx: self.have_tx.push(entry), ..self },
                ),
                None => None,
            }
        } else if field.tag == TAG_FIELD_2_LEN {
            Some(ControlMessageView { reset_route: self.reset_route + 1, ..self })
        } else {
            Some(self)
        }
    }

    pub open spec fn fold(self, fields: Seq<FieldView>) -> Option<ControlMessageView>
        decreases fields.len(),
    {
        if fields.len() == 0 {
            Some(self)
        } else {
            match self.apply(fields[0]) {
                Some(next) => next.fold(fields.skip(1)),
                None => None,
            }
        }
    }

    /// The message that a body holds.
    pub open spec fn parse(body: Seq<u8>) -> Option<ControlMessageView> {
        match spec_read_fields(body) {
            Some(fields) => Self::empty().fold(fields),
            None => None,
        }
    }

    /// The body that is written for this message.
    pub open spec fn encoding(self) -> Seq<u8> {
        spec_write_have_txs(self.have_tx) + spec_write_reset_routes(self.reset_route)
    }

    /// Every byte string in the message, and every message in it once
    /// written, is short enough for its length to be written.
    pub open spec fn fits(self) -> bool {
        forall|i: int|
            0 <= i < self.have_tx.len() ==> (#[trigger] self.have_tx[i]).fits()
                && self.have_tx[i].encoding().len() <= u64::MAX
    }

    /// Reading what is written for `n` `reset_route` entries counts them.
    pub proof fn lemma_read_reset_routes(self, n: nat, rest: Seq<u8>, fields: Seq<FieldView>)
        requires
            spec_read_fields(rest) == Some(fields),
        ensures
            match spec_read_fields(spec_write_reset_routes(n) + rest) {
                Some(all) => self.fold(all) == (ControlMessageView {
                    reset_route: self.reset_route + n,
                    ..self
                }).fold(fields),
                None => false,
            },
        decreases n,
    {
        if n == 0 {
            assert(spec_write_reset_routes(n) + rest =~= rest);
        } else {
            let one = spec_len_field(TAG_FIELD_2_LEN, Seq::empty());
            let field = FieldView { tag: TAG_FIELD_2_LEN as u64, value: 0, payload: Seq::empty() };
            lemma_read_fields_len_field(TAG_FIELD_2_LEN, Seq::empty(), rest);
            let inner = seq![field] + fields;
            assert(spec_read_fields(one + rest) == Some(inner));
            self.lemma_read_reset_routes((n - 1) as nat, one + rest, inner);
            assert(spec_write_reset_routes(n) + rest =~= spec_write_reset_routes((n - 1) as nat)
                + (one + rest));
            let mid = ControlMessageView {
                reset_route: self.reset_route + (n - 1) as nat,
                ..self
            };
            assert(inner.skip(1) =~= fields);
            assert(mid.fold(inner) == mid.apply(field).unwrap().fold(fields));
        }
    }

    /// Reading what is written for a run of `have_tx` entries appends them.
    pub proof fn lemma_read_have_txs(
        self,
        entries: Seq<ControlHaveTxView>,
        rest: Seq<u8>,
        fields: Seq<FieldView>,
    )
        requires
            spec_read_fields(rest) == Some(fields),
            forall|i: int|
                0 <= i < entries.len() ==> (#[trigger] entries[i]).fits()
                    && entries[i].encoding().len() <= u64::MAX,
        ensures
            match spec_read_fields(spec_write_have_txs(entries) + rest) {
                Some(all) => self.fold(all) == (ControlMessageView {
                    have_tx: self.have_tx + entries,
                    ..self
                }).fold(fields),
                None => false,
            },
        decreases entries.len(),
    {
        if entries.len() == 0 {
            assert(spec_write_have_txs(entries) + rest =~= rest);
            assert(self.have_tx + entries =~= self.have_tx);
        } else {
            let last = entries.last();
            let init = entries.drop_last();
            let one = spec_len_field(TAG_FIELD_1_LEN, last.encoding());
            let field = FieldView { tag: TAG_FIELD_1_LEN as u64, value: 0, payload: last.encoding() };
            lemma_read_fields_len_field(TAG_FIELD_1_LEN, last.encoding(), rest);
            let inner = seq![field] + fields;
            assert(spec_read_fields(one + rest) == Some(inner));
            assert forall|i: int| 0 <= i < init.len() implies (#[trigger] init[i]).fits()
                && init[i].encoding().len() <= u64::MAX by {
                assert(init[i] == entries[i]);
            }
            self.lemma_read_have_txs(init, one + rest, inner);
            assert(spec_write_have_txs(entries) + rest =~= spec_write_have_txs(init) + (one
                + rest));
            let mid = ControlMessageView { have_tx: self.have_tx + init, ..self };
            last.lemma_round_trip();
            assert(inner.skip(1) =~= fields);
            assert(mid.fold(inner) == mid.apply(field).unwrap().fold(fields));
            assert((self.have_tx + init).push(last) =~= self.have_tx + entries);
        }
    }

    /// What is written for a control message is read back as that message.
    pub proof fn lemma_round_trip(self)
        requires
            self.fits(),
        ensures
            Self::parse(self.encoding()) == Some(self),
    {
        let none = Seq::<u8>::empty();
        let resets = spec_write_reset_routes(self.reset_route);
        let start = Self::empty();
        let mid = ControlMessageView { have_tx: self.have_tx, reset_route: 0 };
        assert(spec_read_fields(none) == Some(Seq::<FieldView>::empty()));
        mid.lemma_read_reset_routes(self.reset_route, none, Seq::empty());
        assert(resets + none =~= resets);
        let tail = spec_read_fields(resets).unwrap();
        start.lemma_read_have_txs(self.have_tx, resets, tail);
        assert(start.have_tx + self.have_tx =~= self.have_tx);
    }
}

impl Default for ControlMessage {
    fn default() -> (r: Self)
        ensures
            r@ == ControlMessageView::empty(),
    {
        let r = ControlMessage { have_tx: Vec::new(), reset_route: Vec::new() };
        assert(r@.have_tx =~= Seq::empty());
        r
    }
}

impl Clone for ControlMessage {
    fn clone(&self) -> (r: Self)
        ensures
            r@ == self@,
    {
        let mut have_tx: Vec<ControlHaveTx> = Vec::new();
        let mut i: usize = 0;
        while i < self.have_tx.len()
            invariant
                i <= self.have_tx@.len(),
                have_txs_view(have_tx@) == have_txs_view(self.have_tx@).take(i as int),
            decreases self.have_tx@.len() - i,
        {
            let entry = self.have_tx[i].clone();
            assert(entry@ == have_txs_view(self.have_tx@)[i as int]);
            let ghost before = have_txs_view(have_tx@);
            have_tx.push(entry);
            assert(have_txs_view(have_tx@) =~= before.push(entry@));
            assert(have_txs_view(have_tx@) =~= have_txs_view(self.have_tx@).take(i + 1));
            i += 1;
        }
        assert(have_txs_view(self.have_tx@).take(i as int) =~= have_txs_view(self.have_tx@));
        let mut reset_route: Vec<ControlResetRoute> = Vec::new();
        let mut j: usize = 0;
        while j < self.reset_route.len()
            invariant
                j <= self.reset_route@.len(),
                reset_route@.len() == j,
            decreases self.reset_route@.len() - j,
        {
            reset_route.push(ControlResetRoute {  });
            j += 1;
        }
        ControlMessage { have_tx, reset_route }
    }
}

impl ControlMessage {
    /// The number of bytes that the body of this message takes.
    pub fn get_size(&self) -> (r: usize)
        requires
            self@.encoding().len() <= usize::MAX,
        ensures
            r == self@.encoding().len(),
    {
        let ghost entries = have_txs_view(self.have_tx@);
        let mut size: usize = 0;
        let mut i: usize = 0;
        proof {
            lemma_write_reset_routes_len(self.reset_route@.len());
            assert(entries.take(0) =~= Seq::<ControlHaveTxView>::empty());
        }
        while i < self.have_tx.len()
            invariant
                i <= self.have_tx@.len(),
                entries == have_txs_view(self.have_tx@),
                spec_write_have_txs(entries).len() + 2 * self.reset_route@.len() <= usize::MAX,
                size == spec_write_have_txs(entries.take(i as int)).len(),
            decreases self.have_tx@.len() - i,
        {
            proof {
                lemma_write_have_txs_prefix(entries, i as int);
                assert(entries.take(i + 1).drop_last() =~= entries.take(i as int));
                assert(entries.take(i + 1).last() == entries[i as int]);
            }
            let inner = self.have_tx[i].get_size();
            size = size + 1 + varint_len(inner as u64) + inner;
            i += 1;
        }
        assert(entries.take(i as int) =~= entries);
        size + 2 * self.reset_route.len()
    }

    /// Reads a control message from a message body.
    pub fn from_reader(bytes: &[u8]) -> (r: Result<ControlMessage, Malformed>)
        ensures
            match r {
                Ok(msg) => ControlMessageView::parse(bytes@) == Some(msg@),
                Err(_) => ControlMessageView::parse(bytes@) is None,
            },
    {
        let fields = match read_fields(bytes) {
            Some(fields) => fields,
            None => {
                return Err(Malformed);
            },
        };
        let ghost all = fields_view(fields@);
        let mut msg = ControlMessage::default();
        let mut i: usize = 0;
        assert(all.skip(0) =~= all);
        while i < fields.len()
            invariant
                i <= fields@.len(),
                all == fields_view(fields@),
                spec_read_fields(bytes@) == Some(all),
                ControlMessageView::empty().fold(all) == msg@.fold(all.skip(i as int)),
            decreases fields@.len() - i,
        {
            let field: &Field = &fields[i];
            assert(all.skip(i as int)[0] == field@);
            assert(all.skip(i as int).skip(1) =~= all.skip(i + 1));
            let ghost before = msg@;
            if field.tag == TAG_FIELD_1_LEN as u64 {
                match ControlHaveTx::from_reader(field.payload.as_slice()) {
                    Ok(entry) => {
                        msg.have_tx.push(entry);
                        assert(msg@.have_tx =~= before.have_tx.push(entry@));
                    },
                    Err(e) => {
                        return Err(e);
                    },
                }
            } else if field.tag == TAG_FIELD_2_LEN as u64 {
                msg.reset_route.push(ControlResetRoute {  });
                assert(msg@.have_tx =~= before.have_tx);
            }
            i += 1;
        }
        Ok(msg)
    }

    /// Appends the body of this message to `out`.
    pub fn write_message(&self, out: &mut Vec<u8>)
        ensures
            final(out)@ == old(out)@ + self@.encoding(),
    {
        let ghost entries = have_txs_view(self.have_tx@);
        let mut i: usize = 0;
        assert(out@ =~= old(out)@ + spec_write_have_txs(entries.take(0)));
        while i < self.have_tx.len()
            invariant
                i <= self.have_tx@.len(),
                entries == have_txs_view(self.have_tx@),
                out@ == old(out)@ + spec_write_have_txs(entries.take(i as int)),
            decreases self.have_tx@.len() - i,
        {
            let mut body: Vec<u8> = Vec::new();
            self.have_tx[i].write_message(&mut body);
            assert(body@ =~= entries[i as int].encoding());
            let ghost before = out@;
            write_len_field(TAG_FIELD_1_LEN, body.as_slice(), out);
            proof {
                assert(entries.take(i + 1).drop_last() =~= entries.take(i as int));
                assert(entries.take(i + 1).last() == entries[i as int]);
                assert(out@ =~= old(out)@ + spec_write_have_txs(entries.take(i + 1)));
            }
            i += 1;
        }
        assert(entries.take(i as int) =~= entries);
        let ghost mid = out@;
        let mut j: usize = 0;
        assert(out@ =~= mid + spec_write_reset_routes(0));
        while j < self.reset_route.len()
            invariant
                j <= self.reset_route@.len(),
                out@ == mid + spec_write_reset_routes(j as nat),
            decreases self.reset_route@.len() - j,
        {
            let body: Vec<u8> = Vec::new();
            write_len_field(TAG_FIELD_2_LEN, body.as_slice(), out);
            proof {
                assert(body@ =~= Seq::<u8>::empty());
                assert(out@ =~= mid + spec_write_reset_routes((j + 1) as nat));
            }
            j += 1;
        }
        assert(out@ =~= old(out)@ + self@.encoding());
    }
}

// ---------------------------------------------------------------------------
// RPC
// ---------------------------------------------------------------------------
/// The top-level message: transactions and, optionally, control entries.
#[derive(Debug, PartialEq)]
pub struct RPC {
    pub txs: Vec<Transaction>,
    pub control: Option<ControlMessage>,
}

pub struct RPCView {
    pub txs: Seq<TransactionView>,
    pub control: Option<ControlMessageView>,
}

/// The views of a run of transactions.
pub open spec fn txs_view(txs: Seq<Transaction>) -> Seq<TransactionView> {
    Seq::new(txs.len(), |i: int| txs[i]@)
}

impl View for RPC {
    type V = RPCView;

    open spec fn view(&self) -> RPCView {
        RPCView {
            txs: txs_view(self.txs@),
            control: match self.control {
                Some(control) => Some(control@),
                None => None,
            },
        }
    }
}

/// What is written for a run of transactions.
pub open spec fn spec_write_txs(txs: Seq<TransactionView>) -> Seq<u8>
    decreases txs.len(),
{
    if txs.len() == 0 {
        Seq::empty()
    } else {
        spec_write_txs(txs.drop_last()) + spec_len_field(TAG_FIELD_1_LEN, txs.last().encoding())
    }
}

/// What is written for the first transactions is no longer than what is
/// written for all.
pub proof fn lemma_write_txs_prefix(txs: Seq<TransactionView>, i: int)
    requires
        0 <= i <= txs.len(),
    ensures
        spec_write_txs(txs.take(i)).len() <= spec_write_txs(txs).len(),
        i < txs.len() ==> spec_write_txs(txs.take(i)).len() + spec_len_field(
            TAG_FIELD_1_LEN,
            txs[i].encoding(),
        ).len() <= spec_write_txs(txs).len(),
    decreases txs.len() - i,
{
    if i == txs.len() {
        assert(txs.take(i) =~= txs);
    } else {
        lemma_write_txs_prefix(txs, i + 1);
        assert(txs.take(i + 1).drop_last() =~= txs.take(i));
        assert(txs.take(i + 1).last() == txs[i]);
    }
}

impl RPCView {
    pub open spec fn empty() -> RPCView {
        RPCView { txs: Seq::empty(), control: None }
    }

    /// The message after one more field was read, or `None` where the field
    /// holds a message that cannot be read.
    pub open spec fn apply(self, field: FieldView) -> Option<RPCView> {
        if field.tag == TAG_FIELD_1_LEN {
            match TransactionView::parse(field.payload) {
                Some(tx) => Some(RPCView { txs: self.txs.push(tx), ..self }),
                None => None,
            }
        } else if field.tag == TAG_FIELD_2_LEN {
            match ControlMessageView::parse(field.payload) {
                Some(control) => Some(RPCView { control: Some(control), ..self }),
                None => None,
            }
        } else {
            Some(self)
        }
    }

    pub open spec fn fold(self, fields: Seq<FieldView>) -> Option<RPCView>
        decreases fields.len(),
    {
        if fields.len() == 0 {
            Some(self)
        } else {
            match self.apply(fields[0]) {
                Some(next) => next.fold(fields.skip(1)),
                None => None,
            }
        }
    }

    /// The message that a body holds.
    pub open spec fn parse(body: Seq<u8>) -> Option<RPCView> {
        match spec_read_fields(body) {
            Some(fields) => Self::empty().fold(fields),
            None => None,
        }
    }

    pub open spec fn control_part(self) -> Seq<u8> {
        match self.control {
            Some(control) => spec_len_field(TAG_FIELD_2_LEN, control.encoding()),
            None => Seq::empty(),
        }
    }

    /// The body that is written for this message.
    pub open spec fn encoding(self) -> Seq<u8> {
        spec_write_txs(self.txs) + self.control_part()
    }

    /// Every byte string in the message, and every message in it once
    /// written, is short enough for its length to be written.
    pub open spec fn fits(self) -> bool {
        &&& forall|i: int|
            0 <= i < self.txs.len() ==> (#[trigger] self.txs[i]).fits()
                && self.txs[i].encoding().len() <= u64::MAX
        &&& match self.control {
            Some(control) => control.fits() && control.encoding().len() <= u64::MAX,
            None => true,
        }
    }

    /// Reading what is written for a run of transactions appends them.
    pub proof fn lemma_read_txs(
        self,
        txs: Seq<TransactionView>,
        rest: Seq<u8>,
        fields: Seq<FieldView>,
    )
        requires
            spec_read_fields(rest) == Some(fields),
            forall|i: int|
                0 <= i < txs.len() ==> (#[trigger] txs[i]).fits() && txs[i].encoding().len()
                    <= u64::MAX,
        ensures
            match spec_read_fields(spec_write_txs(txs) + rest) {
                Some(all) => self.fold(all) == (RPCView { txs: self.txs + txs, ..self }).fold(
                    fields,
                ),
                None => false,
            },
        decreases txs.len(),
    {
        if txs.len() == 0 {
            assert(spec_write_txs(txs) + rest =~= rest);
            assert(self.txs + txs =~= self.txs);
        } else {
            let last = txs.last();
            let init = txs.drop_last();
            let one = spec_len_field(TAG_FIELD_1_LEN, last.encoding());
            let field = FieldView { tag: TAG_FIELD_1_LEN as u64, value: 0, payload: last.encoding() };
            lemma_read_fields_len_field(TAG_FIELD_1_LEN, last.encoding(), rest);
            let inner = seq![field] + fields;
            assert(spec_read_fields(one + rest) == Some(inner));
            assert forall|i: int| 0 <= i < init.len() implies (#[trigger] init[i]).fits()
                && init[i].encoding().len() <= u64::MAX by {
                assert(init[i] == txs[i]);
            }
            self.lemma_read_txs(init, one + rest, inner);
            assert(spec_write_txs(txs) + rest =~= spec_write_txs(init) + (one + rest));
            let mid = RPCView { txs: self.txs + init, ..self };
            last.lemma_round_trip();
            assert(inner.skip(1) =~= fields);
            assert(mid.fold(inner) == mid.apply(field).unwrap().fold(fields));
            assert((self.txs + init).push(last) =~= self.txs + txs);
        }
    }

    /// The law of the wire format: what is written for an RPC is read back as
    /// that RPC.
    pub proof fn lemma_round_trip(self)
        requires
            self.fits(),
        ensures
            Self::parse(self.encoding()) == Some(self),
    {
        reveal_with_fuel(RPCView::fold, 2);
        let none = Seq::<u8>::empty();
        let part = self.control_part();
        let start = Self::empty();
        assert(spec_read_fields(none) == Some(Seq::<FieldView>::empty()));
        match self.control {
            Some(control) => {
                lemma_read_fields_len_field(TAG_FIELD_2_LEN, control.encoding(), none);
                control.lemma_round_trip();
            },
            None => {},
        }
        assert(part + none =~= part);
        let tail = spec_read_fields(part).unwrap();
        start.lemma_read_txs(self.txs, part, tail);
        assert(start.txs + self.txs =~= self.txs);
    }
}

impl Default for RPC {
    fn default() -> (r: Self)
        ensures
            r@ == RPCView::empty(),
    {
        let r = RPC { txs: Vec::new(), control: None };
        assert(r@.txs =~= Seq::empty());
        r
    }
}

impl Clone for RPC {
    fn clone(&self) -> (r: Self)
        ensures
            r@ == self@,
    {
        let mut txs: Vec<Transaction> = Vec::new();
        let mut i: usize = 0;
        while i < self.txs.len()
            invariant
                i <= self.txs@.len(),
                txs_view(txs@) == txs_view(self.txs@).take(i as int),
            decreases self.txs@.len() - i,
        {
            let tx = self.txs[i].clone();
            assert(tx@ == txs_view(self.txs@)[i as int]);
            let ghost before = txs_view(txs@);
            txs.push(tx);
            assert(txs_view(txs@) =~= before.push(tx@));
            assert(txs_view(txs@) =~= txs_view(self.txs@).take(i + 1));
            i += 1;
        }
        assert(txs_view(self.txs@).take(i as int) =~= txs_view(self.txs@));
        let control = match &self.control {
            Some(control) => Some(control.clone()),
            None => None,
        };
        RPC { txs, control }
    }
}

impl RPC {
    /// The number of bytes that the body of this message takes.
    pub fn get_size(&self) -> (r: usize)
        requires
            self@.encoding().len() <= usize::MAX,
        ensures
            r == self@.encoding().len(),
    {
        let ghost txs = txs_view(self.txs@);
        let mut size: usize = 0;
        let mut i: usize = 0;
        assert(txs.take(0) =~= Seq::<TransactionView>::empty());
        while i < self.txs.len()
            invariant
                i <= self.txs@.len(),
                txs == txs_view(self.txs@),
                spec_write_txs(txs).len() + self@.control_part().len() <= usize::MAX,
                size == spec_write_txs(txs.take(i as int)).len(),
            decreases self.txs@.len() - i,
        {
            proof {
                lemma_write_txs_prefix(txs, i as int);
                assert(txs.take(i + 1).drop_last() =~= txs.take(i as int));
                assert(txs.take(i + 1).last() == txs[i as int]);
            }
            let inner = self.txs[i].get_size();
            size = size + 1 + varint_len(inner as u64) + inner;
            i += 1;
        }
        assert(txs.take(i as int) =~= txs);
        match &self.control {
            Some(control) => {
                let inner = control.get_size();
                size + 1 + varint_len(inner as u64) + inner
            },
            None => size,
        }
    }

    /// Reads an RPC from a message body.
    pub fn from_reader(bytes: &[u8]) -> (r: Result<RPC, Malformed>)
        ensures
            match r {
                Ok(msg) => RPCView::parse(bytes@) == Some(msg@),
                Err(_) => RPCView::parse(bytes@) is None,
            },
    {
        let fields = match read_fields(bytes) {
            Some(fields) => fields,
            None => {
                return Err(Malformed);
            },
        };
        let ghost all = fields_view(fields@);
        let mut msg = RPC::default();
        let mut i: usize = 0;
        assert(all.skip(0) =~= all);
        while i < fields.len()
            invariant
                i <= fields@.len(),
                all == fields_view(fields@),
                spec_read_fields(bytes@) == Some(all),
                RPCView::empty().fold(all) == msg@.fold(all.skip(i as int)),
            decreases fields@.len() - i,
        {
            let field: &Field = &fields[i];
            assert(all.skip(i as int)[0] == field@);
            assert(all.skip(i as int).skip(1) =~= all.skip(i + 1));
            let ghost before = msg@;
            if field.tag == TAG_FIELD_1_LEN as u64 {
                match Transaction::from_reader(field.payload.as_slice()) {
                    Ok(tx) => {
                        msg.txs.push(tx);
                        assert(msg@.txs =~= before.txs.push(tx@));
                    },
                    Err(e) => {
                        return Err(e);
                    },
                }
            } else if field.tag == TAG_FIELD_2_LEN as u64 {
                match ControlMessage::from_reader(field.payload.as_slice()) {
                    Ok(control) => {
                        msg.control = Some(control);
                        assert(msg@.txs =~= before.txs);
                    },
                    Err(e) => {
                        return Err(e);
                    },
                }
            }
            i += 1;
        }
        Ok(msg)
    }

    /// Appends the body of this message to `out`.
    pub fn write_message(&self, out: &mut Vec<u8>)
        ensures
            final(out)@ == old(out)@ + self@.encoding(),
    {
        let ghost txs = txs_view(self.txs@);
        let mut i: usize = 0;
        assert(out@ =~= old(out)@ + spec_write_txs(txs.take(0)));
        while i < self.txs.len()
            invariant
                i <= self.txs@.len(),
                txs == txs_view(self.txs@),
                out@ == old(out)@ + spec_write_txs(txs.take(i as int)),
            decreases self.txs@.len() - i,
        {
            let mut body: Vec<u8> = Vec::new();
            self.txs[i].write_message(&mut body);
            assert(body@ =~= txs[i as int].encoding());
            write_len_field(TAG_FIELD_1_LEN, body.as_slice(), out);
            proof {
                assert(txs.take(i + 1).drop_last() =~= txs.take(i as int));
                assert(txs.take(i + 1).last() == txs[i as int]);
                assert(out@ =~= old(out)@ + spec_write_txs(txs.take(i + 1)));
            }
            i += 1;
        }
        assert(txs.take(i as int) =~= txs);
        match &self.control {
            Some(control) => {
                let mut body: Vec<u8> = Vec::new();
                control.write_message(&mut body);
                assert(body@ =~= control@.encoding());
                write_len_field(TAG_FIELD_2_LEN, body.as_slice(), out);
            },
            None => {},
        }
        assert(out@ =~= old(out)@ + self@.encoding());
    }

    /// The body of this message.
    pub fn to_bytes(&self) -> (r: Vec<u8>)
        ensures
            r@ == self@.encoding(),
    {
        let mut out: Vec<u8> = Vec::new();
        self.write_message(&mut out);
        assert(out@ =~= self@.encoding());
        out
    }
}

} // verus!
