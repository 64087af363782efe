//! The field layer of the wire format: a message body is a run of fields,
//! each a tag followed by a value whose shape the tag's low three bits give.

use vstd::prelude::*;
use crate::bytes::bytes_of;
use crate::varint::{
    lemma_read_varint_of_encoding,
    read_varint,
    spec_encode_varint,
    spec_read_varint,
    write_varint,
    VarintRead,
    VarintView,
};

verus! {

/// Wire type of a field whose value is a variable-length integer.
pub const WIRE_VARINT: u64 = 0;

/// Wire type of a field whose value is eight bytes.
pub const WIRE_FIXED64: u64 = 1;

/// Wire type of a field whose value is a length and that many bytes.
pub const WIRE_LEN: u64 = 2;

/// Wire type of a field whose value is four bytes.
pub const WIRE_FIXED32: u64 = 5;

/// One field of a message body.
pub struct FieldView {
    /// Field number and wire type, as written.
    pub tag: u64,
    /// The integer of a variable-length field; 0 for the other wire types.
    pub value: u64,
    /// The bytes of a length-delimited or fixed-width field; empty for an
    /// integer.
    pub payload: Seq<u8>,
}

/// One field of a message body, as read.
#[derive(Debug)]
pub struct Field {
    pub tag: u64,
    pub value: u64,
    pub payload: Vec<u8>,
}

impl View for Field {
    type V = FieldView;

    open spec fn view(&self) -> FieldView {
        FieldView { tag: self.tag, value: self.value, payload: self.payload@ }
    }
}

/// The views of a run of fields.
pub open spec fn fields_view(fields: Seq<Field>) -> Seq<FieldView> {
    Seq::new(fields.len(), |i: int| fields[i]@)
}

/// A field of `width` bytes that follows a tag of `n` bytes.
pub open spec fn spec_fixed_field(s: Seq<u8>, tag: u64, n: nat, width: nat) -> Option<
    (FieldView, nat),
> {
    if s.len() >= n + width {
        Some(
            (
                FieldView { tag, value: 0, payload: s.subrange(n as int, (n + width) as int) },
                n + width,
            ),
        )
    } else {
        None
    }
}

/// Reads one field from the front of `s`: the field and the number of bytes it
/// takes, or `None` where the bytes hold no complete field. A tag does not
/// exceed 32 bits, and the wire types are 0, 1, 2 and 5.
#[verifier::opaque]
pub open spec fn spec_read_field(s: Seq<u8>) -> Option<(FieldView, nat)> {
    match spec_read_varint(s) {
        VarintView::Value { value: tag, len: n } => {
            let body = s.skip(n as int);
            if tag > u32::MAX {
                None
            } else if tag % 8 == WIRE_VARINT {
                match spec_read_varint(body) {
                    VarintView::Value { value, len } => Some(
                        (FieldView { tag, value, payload: Seq::empty() }, n + len),
                    ),
                    _ => None,
                }
            } else if tag % 8 == WIRE_FIXED64 {
                spec_fixed_field(s, tag, n, 8)
            } else if tag % 8 == WIRE_LEN {
                match spec_read_varint(body) {
                    VarintView::Value { value, len } => if n + len + value <= s.len() {
                        Some(
                            (
                                FieldView {
                                    tag,
                                    value: 0,
                                    payload: s.subrange(
                                        (n + len) as int,
                                        (n + len + value) as int,
                                    ),
                                },
                                (n + len + value) as nat,
                            ),
                        )
                    } else {
                        None
                    },
                    _ => None,
                }
            } else if tag % 8 == WIRE_FIXED32 {
                spec_fixed_field(s, tag, n, 4)
            } else {
                None
            }
        },
        _ => None,
    }
}

/// Reads a whole message body as a run of fields, or `None` where some part
/// of it is no field.
pub open spec fn spec_read_fields(s: Seq<u8>) -> Option<Seq<FieldView>>
    decreases s.len(),
{
    if s.len() == 0 {
        Some(Seq::empty())
    } else {
        match spec_read_field(s) {
            Some((field, n)) => if 0 < n <= s.len() {
                match spec_read_fields(s.skip(n as int)) {
                    Some(rest) => Some(seq![field] + rest),
                    None => None,
                }
            } else {
                None
            },
            None => None,
        }
    }
}

/// A length-delimited field with a one-byte tag: the tag, the length of the
/// payload, the payload.
pub open spec fn spec_len_field(tag: u8, payload: Seq<u8>) -> Seq<u8> {
    seq![tag] + spec_encode_varint(payload.len()) + payload
}

/// An integer field with a one-byte tag.
pub open spec fn spec_varint_field(tag: u8, value: u64) -> Seq<u8> {
    seq![tag] + spec_encode_varint(value as nat)
}

/// A length-delimited field that was written is read back, whatever follows.
pub proof fn lemma_read_len_field(tag: u8, payload: Seq<u8>, rest: Seq<u8>)
    requires
        tag < 128,
        tag % 8 == 2,
        payload.len() <= u64::MAX,
    ensures
        spec_read_field(spec_len_field(tag, payload) + rest) == Some(
            (
                FieldView { tag: tag as u64, value: 0, payload },
                spec_len_field(tag, payload).len(),
            ),
        ),
{
    reveal(spec_read_field);
    let s = spec_len_field(tag, payload) + rest;
    let enc = spec_encode_varint(payload.len());
    assert(s[0] == tag);
    assert(spec_read_varint(s) == (VarintView::Value { value: tag as u64, len: 1 }));
    assert(s.skip(1) =~= enc + (payload + rest));
    lemma_read_varint_of_encoding(payload.len() as u64, payload + rest);
    assert(s.subrange((1 + enc.len()) as int, (1 + enc.len() + payload.len()) as int)
        =~= payload);
}

/// An integer field that was written is read back, whatever follows.
pub proof fn lemma_read_varint_field(tag: u8, value: u64, rest: Seq<u8>)
    requires
        tag < 128,
        tag % 8 == 0,
    ensures
        spec_read_field(spec_varint_field(tag, value) + rest) == Some(
            (
                FieldView { tag: tag as u64, value, payload: Seq::empty() },
                spec_varint_field(tag, value).len(),
            ),
        ),
{
    reveal(spec_read_field);
    let s = spec_varint_field(tag, value) + rest;
    let enc = spec_encode_varint(value as nat);
    assert(s[0] == tag);
    assert(spec_read_varint(s) == (VarintView::Value { value: tag as u64, len: 1 }));
    assert(s.skip(1) =~= enc + rest);
    lemma_read_varint_of_encoding(value, rest);
}

/// Reading a body that starts with a field gives that field, then the fields
/// of what follows it.
pub proof fn lemma_read_fields_step(head: Seq<u8>, rest: Seq<u8>, field: FieldView)
    requires
        spec_read_field(head + rest) == Some((field, head.len())),
        head.len() > 0,
    ensures
        spec_read_fields(head + rest) == match spec_read_fields(rest) {
            Some(fields) => Some(seq![field] + fields),
            None => None,
        },
{
    assert((head + rest).skip(head.len() as int) =~= rest);
}

/// Reads the field that starts at `buf[start]`: the field and the index after
/// it.
pub fn read_field(buf: &[u8], start: usize) -> (r: Option<(Field, usize)>)
    requires
        start <= buf@.len(),
    ensures
        match r {
            Some((field, next)) => start < next <= buf@.len() && spec_read_field(
                buf@.skip(start as int),
            ) == Some((field@, (next - start) as nat)),
            None => spec_read_field(buf@.skip(start as int)) is None,
        },
{
    reveal(spec_read_field);
    let ghost s = buf@.skip(start as int);
    let n: usize = buf.len();
    let (tag, body) = match read_varint(buf, start) {
        VarintRead::Value(tag, body) => (tag, body),
        _ => {
            return None;
        },
    };
    assert(s.skip(body - start) =~= buf@.skip(body as int));
    if tag > u32::MAX as u64 {
        return None;
    }
    let wire: u64 = tag % 8;
    if wire == WIRE_VARINT {
        match read_varint(buf, body) {
            VarintRead::Value(value, next) => Some(
                (Field { tag, value, payload: Vec::new() }, next),
            ),
            _ => None,
        }
    } else if wire == WIRE_FIXED64 || wire == WIRE_FIXED32 {
        let width: usize = if wire == WIRE_FIXED64 {
            8
        } else {
            4
        };
        if n - body < width {
            return None;
        }
        let payload = bytes_of(vstd::slice::slice_subrange(buf, body, body + width));
        assert(payload@ =~= s.subrange(body - start, body - start + width));
        Some((Field { tag, value: 0, payload }, body + width))
    } else if wire == WIRE_LEN {
        match read_varint(buf, body) {
            VarintRead::Value(len, data) => {
                if len > (n - data) as u64 {
                    return None;
                }
                let end: usize = data + len as usize;
                let payload = bytes_of(vstd::slice::slice_subrange(buf, data, end));
                assert(payload@ =~= s.subrange(data - start, end - start));
                Some((Field { tag, value: 0, payload }, end))
            },
            _ => None,
        }
    } else {
        None
    }
}

/// Reads a message body as a run of fields.
pub fn read_fields(buf: &[u8]) -> (r: Option<Vec<Field>>)
    ensures
        match r {
            Some(fields) => spec_read_fields(buf@) == Some(fields_view(fields@)),
            None => spec_read_fields(buf@) is None,
        },
{
    let n: usize = buf.len();
    let mut out: Vec<Field> = Vec::new();
    let mut pos: usize = 0;
    assert(buf@.skip(0) =~= buf@);
    assert(fields_view(out@) + Seq::<FieldView>::empty() =~= Seq::<FieldView>::empty());
    while pos < n
        invariant
            n == buf@.len(),
            pos <= n,
            spec_read_fields(buf@) == match spec_read_fields(buf@.skip(pos as int)) {
                Some(rest) => Some(fields_view(out@) + rest),
                None => None,
            },
        decreases n - pos,
    {
        let ghost before = fields_view(out@);
        match read_field(buf, pos) {
            Some((field, next)) => {
                proof {
                    assert(buf@.skip(pos as int).skip(next - pos) =~= buf@.skip(next as int));
                    match spec_read_fields(buf@.skip(next as int)) {
                        Some(rest) => {
                            assert(before + (seq![field@] + rest) =~= (before + seq![field@])
                                + rest);
                        },
                        None => {},
                    }
                }
                out.push(field);
                assert(fields_view(out@) =~= before + seq![field@]);
                pos = next;
            },
            None => {
                return None;
            },
        }
    }
    assert(fields_view(out@) + Seq::<FieldView>::empty() =~= fields_view(out@));
    Some(out)
}

/// Appends a length-delimited field with a one-byte tag.
pub fn write_len_field(tag: u8, payload: &[u8], out: &mut Vec<u8>)
    ensures
        final(out)@ == old(out)@ + spec_len_field(tag, payload@),
{
    out.push(tag);
    write_varint(payload.len() as u64, out);
    crate::bytes::append_bytes(out, payload);
    assert(out@ =~= old(out)@ + spec_len_field(tag, payload@));
}

/// Appends an integer field with a one-byte tag.
pub fn write_varint_field(tag: u8, value: u64, out: &mut Vec<u8>)
    ensures
        final(out)@ == old(out)@ + spec_varint_field(tag, value),
{
    out.push(tag);
    write_varint(value, out);
    assert(out@ =~= old(out)@ + spec_varint_field(tag, value));
}

} // verus!
