//! Base-128 variable-length integers, least significant group first, as the
//! wire format uses them for tags, lengths and `uint64` fields.

use vstd::prelude::*;

verus! {

/// The longest encoding that is read: ten bytes carry 70 bits.
pub const MAX_VARINT_LEN: usize = 10;

/// What the front of a byte string holds, read as a variable-length integer.
pub enum VarintPrefix {
    /// A complete encoding of `value` in the first `len` bytes.
    Done { value: nat, len: nat },
    /// The bytes end before a byte without the continuation bit.
    Truncated,
    /// No byte without the continuation bit among the bytes that may be read.
    Overlong,
}

/// The encoding of `v`: groups of seven bits, the low group first, every byte
/// but the last with its high bit set.
pub open spec fn spec_encode_varint(v: nat) -> Seq<u8>
    decreases v,
{
    if v < 128 {
        seq![v as u8]
    } else {
        seq![(v % 128 + 128) as u8] + spec_encode_varint(v / 128)
    }
}

/// Reads an encoding from the front of `s`, looking at no more than `budget`
/// bytes.
pub open spec fn spec_varint_prefix(s: Seq<u8>, budget: nat) -> VarintPrefix
    decreases budget,
{
    if budget == 0 {
        VarintPrefix::Overlong
    } else if s.len() == 0 {
        VarintPrefix::Truncated
    } else if s[0] < 128 {
        VarintPrefix::Done { value: s[0] as nat, len: 1 }
    } else {
        match spec_varint_prefix(s.skip(1), (budget - 1) as nat) {
            VarintPrefix::Done { value, len } => VarintPrefix::Done {
                value: (s[0] - 128) as nat + 128 * value,
                len: len + 1,
            },
            other => other,
        }
    }
}

/// What [`read_varint`] finds at the front of a byte string.
pub enum VarintView {
    /// `value` is encoded in the first `len` bytes.
    Value { value: u64, len: nat },
    /// More bytes are needed to complete the encoding.
    Truncated,
    /// The encoding runs over ten bytes or its value over 64 bits.
    Malformed,
}

/// Reads a 64-bit integer from the front of `s`.
pub open spec fn spec_read_varint(s: Seq<u8>) -> VarintView {
    match spec_varint_prefix(s, MAX_VARINT_LEN as nat) {
        VarintPrefix::Done { value, len } => if value <= u64::MAX {
            VarintView::Value { value: value as u64, len }
        } else {
            VarintView::Malformed
        },
        VarintPrefix::Truncated => VarintView::Truncated,
        VarintPrefix::Overlong => VarintView::Malformed,
    }
}

/// 128 to the power `i`.
pub open spec fn pow128(i: nat) -> nat
    decreases i,
{
    if i == 0 {
        1
    } else {
        128 * pow128((i - 1) as nat)
    }
}

pub proof fn lemma_pow128_monotonic(i: nat, j: nat)
    requires
        i <= j,
    ensures
        1 <= pow128(i) <= pow128(j),
    decreases j,
{
    if j == 0 {
    } else if i == j {
        lemma_pow128_monotonic(0, (j - 1) as nat);
    } else {
        lemma_pow128_monotonic(i, (j - 1) as nat);
    }
}

pub proof fn lemma_pow128_ten()
    ensures
        pow128(9) == 0x8000_0000_0000_0000,
        pow128(10) == 0x40_0000_0000_0000_0000,
{
    reveal_with_fuel(pow128, 11);
}

/// An encoding of a number below `128^k` has at most `k` bytes.
pub proof fn lemma_encode_varint_len(v: nat, k: nat)
    requires
        k >= 1,
        v < pow128(k),
    ensures
        1 <= spec_encode_varint(v).len() <= k,
    decreases v,
{
    if v < 128 {
    } else {
        if k == 1 {
            reveal_with_fuel(pow128, 2);
        } else {
            assert(v / 128 < pow128((k - 1) as nat)) by (nonlinear_arith)
                requires
                    v < 128 * pow128((k - 1) as nat),
            ;
            lemma_encode_varint_len(v / 128, (k - 1) as nat);
        }
    }
}

/// Reading the encoding of `v`, whatever follows it, gives `v` back.
pub proof fn lemma_varint_prefix_of_encoding(v: nat, rest: Seq<u8>, budget: nat)
    requires
        spec_encode_varint(v).len() <= budget,
    ensures
        spec_varint_prefix(spec_encode_varint(v) + rest, budget) == (VarintPrefix::Done {
            value: v,
            len: spec_encode_varint(v).len(),
        }),
    decreases v,
{
    let enc = spec_encode_varint(v);
    if v < 128 {
        assert((enc + rest)[0] == v as u8);
    } else {
        let tail = spec_encode_varint(v / 128);
        assert(enc == seq![(v % 128 + 128) as u8] + tail);
        assert((enc + rest)[0] == (v % 128 + 128) as u8);
        assert((enc + rest).skip(1) =~= tail + rest);
        lemma_varint_prefix_of_encoding(v / 128, rest, (budget - 1) as nat);
        assert((v % 128) + 128 * (v / 128) == v) by (nonlinear_arith);
    }
}

/// An encoding of more than one byte does not end in a zero byte: the
/// encoding is the shortest one.
pub proof fn lemma_encode_varint_minimal(v: nat)
    ensures
        spec_encode_varint(v).len() >= 1,
        spec_encode_varint(v).len() > 1 ==> spec_encode_varint(v).last() != 0,
    decreases v,
{
    if v < 128 {
    } else {
        lemma_encode_varint_minimal(v / 128);
        let head = seq![(v % 128 + 128) as u8];
        let tail = spec_encode_varint(v / 128);
        assert((head + tail).last() == tail.last());
        if tail.len() == 1 {
            let w = v / 128;
            if w >= 128 {
                lemma_encode_varint_minimal(w / 128);
                assert(tail == seq![(w % 128 + 128) as u8] + spec_encode_varint(w / 128));
            } else {
                assert(tail[0] == w as u8);
            }
        }
    }
}

/// The law of the encoding: what [`spec_encode_varint`] writes for a 64-bit
/// number, [`spec_read_varint`] reads back, with the bytes that follow left
/// over.
pub proof fn lemma_read_varint_of_encoding(v: u64, rest: Seq<u8>)
    ensures
        1 <= spec_encode_varint(v as nat).len() <= MAX_VARINT_LEN,
        spec_read_varint(spec_encode_varint(v as nat) + rest) == (VarintView::Value {
            value: v,
            len: spec_encode_varint(v as nat).len(),
        }),
{
    lemma_pow128_ten();
    lemma_encode_varint_len(v as nat, 10);
    lemma_varint_prefix_of_encoding(v as nat, rest, 10);
}

/// What [`read_varint`] returns: the value and the index after its encoding.
#[derive(Debug, Clone, Copy, PartialEq, Eq, Structural)]
pub enum VarintRead {
    Value(u64, usize),
    Truncated,
    Malformed,
}

/// Reads a variable-length 64-bit integer that starts at `buf[start]`.
pub fn read_varint(buf: &[u8], start: usize) -> (r: VarintRead)
    requires
        start <= buf@.len(),
    ensures
        match r {
            VarintRead::Value(value, next) => start < next <= buf@.len() && spec_read_varint(
                buf@.skip(start as int),
            ) == (VarintView::Value { value, len: (next - start) as nat }),
            VarintRead::Truncated => spec_read_varint(buf@.skip(start as int))
                == VarintView::Truncated,
            VarintRead::Malformed => spec_read_varint(buf@.skip(start as int))
                == VarintView::Malformed,
        },
{
    let ghost s = buf@.skip(start as int);
    let n: usize = buf.len();
    let mut acc: u128 = 0;
    let mut mult: u128 = 1;
    let mut i: usize = 0;
    assert(s.skip(0) =~= s);
    while i < MAX_VARINT_LEN
        invariant
            i <= MAX_VARINT_LEN,
            n == buf@.len(),
            start + i <= n,
            s == buf@.skip(start as int),
            mult == pow128(i as nat),
            acc < mult,
            spec_varint_prefix(s, MAX_VARINT_LEN as nat) == (match spec_varint_prefix(
                s.skip(i as int),
                (MAX_VARINT_LEN - i) as nat,
            ) {
                VarintPrefix::Done { value, len } => VarintPrefix::Done {
                    value: acc as nat + mult as nat * value,
                    len: len + i as nat,
                },
                other => other,
            }),
        decreases MAX_VARINT_LEN - i,
    {
        proof {
            lemma_pow128_ten();
            lemma_pow128_monotonic(i as nat, 9);
        }
        if start + i >= n {
            assert(s.skip(i as int).len() == 0);
            return VarintRead::Truncated;
        }
        let b: u8 = buf[start + i];
        assert(s.skip(i as int)[0] == b);
        if b < 128 {
            assert((b as u128) * mult <= 127 * 0x8000_0000_0000_0000) by (nonlinear_arith)
                requires
                    0 <= b <= 127,
                    0 <= mult <= 0x8000_0000_0000_0000,
            ;
            let total: u128 = acc + (b as u128) * mult;
            assert(acc as nat + mult as nat * (b as nat) == total) by (nonlinear_arith)
                requires
                    total == acc + (b as u128) * mult,
            ;
            if total > u64::MAX as u128 {
                return VarintRead::Malformed;
            }
            return VarintRead::Value(total as u64, start + i + 1);
        }
        let ghost prev_acc = acc;
        let ghost prev_mult = mult;
        assert((b - 128) * mult <= 127 * 0x8000_0000_0000_0000) by (nonlinear_arith)
            requires
                0 <= b - 128 <= 127,
                0 <= mult <= 0x8000_0000_0000_0000,
        ;
        acc = acc + ((b - 128) as u128) * mult;
        mult = mult * 128;
        proof {
            assert(s.skip(i as int).skip(1) =~= s.skip(i + 1));
            assert(acc < mult) by (nonlinear_arith)
                requires
                    acc == prev_acc + (b - 128) * prev_mult,
                    mult == prev_mult * 128,
                    prev_acc < prev_mult,
                    b - 128 < 128,
            ;
            match spec_varint_prefix(s.skip(i + 1), (MAX_VARINT_LEN - i - 1) as nat) {
                VarintPrefix::Done { value, len } => {
                    assert(prev_acc as nat + prev_mult as nat * ((b - 128) as nat + 128 * value)
                        == acc as nat + mult as nat * value) by (nonlinear_arith)
                        requires
                            acc == prev_acc + (b - 128) * prev_mult,
                            mult == prev_mult * 128,
                            b >= 128,
                    ;
                },
                _ => {},
            }
        }
        i += 1;
    }
    VarintRead::Malformed
}

/// Appends the encoding of `v` to `out`.
pub fn write_varint(v: u64, out: &mut Vec<u8>)
    ensures
        final(out)@ == old(out)@ + spec_encode_varint(v as nat),
{
    let mut rest: u64 = v;
    while rest >= 128
        invariant
            old(out)@ + spec_encode_varint(v as nat) == out@ + spec_encode_varint(rest as nat),
        decreases rest,
    {
        let ghost before = out@;
        out.push((rest % 128 + 128) as u8);
        proof {
            assert(spec_encode_varint(rest as nat) == seq![(rest % 128 + 128) as u8]
                + spec_encode_varint((rest / 128) as nat));
            assert(before + spec_encode_varint(rest as nat) =~= out@ + spec_encode_varint(
                (rest / 128) as nat,
            ));
        }
        rest = rest / 128;
    }
    out.push(rest as u8);
    assert(out@ =~= old(out)@ + spec_encode_varint(v as nat));
}

/// The number of bytes that the encoding of `v` takes.
pub fn varint_len(v: u64) -> (r: usize)
    ensures
        r == spec_encode_varint(v as nat).len(),
        1 <= r <= MAX_VARINT_LEN,
{
    let mut rest: u64 = v;
    let mut n: usize = 1;
    proof {
        lemma_read_varint_of_encoding(v, Seq::empty());
    }
    while rest >= 128
        invariant
            1 <= n,
            spec_encode_varint(v as nat).len() == spec_encode_varint(rest as nat).len() + n - 1,
            spec_encode_varint(v as nat).len() <= MAX_VARINT_LEN,
        decreases rest,
    {
        rest = rest / 128;
        n += 1;
    }
    n
}

} // verus!
