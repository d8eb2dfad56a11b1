//! Little-endian integers as arithmetic on byte sequences.

use vstd::prelude::*;

verus! {

/// 256 to the power `n`.
pub open spec fn pow256(n: nat) -> nat
    decreases n,
{
    if n == 0 {
        1
    } else {
        256 * pow256((n - 1) as nat)
    }
}

/// The number that a little-endian byte string stands for: the first byte
/// counts least.
pub open spec fn le_value(bytes: Seq<u8>) -> nat
    decreases bytes.len(),
{
    if bytes.len() == 0 {
        0
    } else {
        bytes[0] as nat + 256 * le_value(bytes.drop_first())
    }
}

/// The `width` low-order bytes of `value`, least significant first.
pub open spec fn le_bytes(value: nat, width: nat) -> Seq<u8>
    decreases width,
{
    if width == 0 {
        Seq::empty()
    } else {
        seq![(value % 256) as u8] + le_bytes(value / 256, (width - 1) as nat)
    }
}

/// The two's-complement reading of an unsigned `width`-byte number.
pub open spec fn as_signed(value: nat, width: nat) -> int {
    if 2 * value >= pow256(width) {
        value - pow256(width)
    } else {
        value as int
    }
}

/// The unsigned `width`-byte number whose two's-complement reading is `value`.
pub open spec fn as_unsigned(value: int, width: nat) -> nat {
    if value < 0 {
        (value + pow256(width)) as nat
    } else {
        value as nat
    }
}

/// The powers of 256 that the widths of the format need.
pub proof fn lemma_pow256_values()
    ensures
        pow256(0) == 1,
        pow256(1) == 0x100,
        pow256(2) == 0x1_0000,
        pow256(4) == 0x1_0000_0000,
        pow256(8) == 0x1_0000_0000_0000_0000,
{
    reveal_with_fuel(pow256, 9);
}

/// A power of 256 is positive and grows with its exponent.
pub proof fn lemma_pow256_monotonic(a: nat, b: nat)
    requires
        a <= b,
    ensures
        0 < pow256(a) <= pow256(b),
    decreases b,
{
    if b == 0 {
    } else if a == b {
        lemma_pow256_monotonic((a - 1) as nat, (b - 1) as nat);
    } else {
        lemma_pow256_monotonic(a, (b - 1) as nat);
    }
}

/// A number is written in as many bytes as the width asks for.
pub proof fn lemma_le_bytes_len(value: nat, width: nat)
    ensures
        le_bytes(value, width).len() == width,
    decreases width,
{
    if width > 0 {
        lemma_le_bytes_len(value / 256, (width - 1) as nat);
    }
}

/// What a byte string stands for is below 256 to the power of its length.
pub proof fn lemma_le_value_bound(bytes: Seq<u8>)
    ensures
        le_value(bytes) < pow256(bytes.len()),
    decreases bytes.len(),
{
    if bytes.len() > 0 {
        lemma_le_value_bound(bytes.drop_first());
    }
}

/// Writing a number that fits in `width` bytes and reading it back gives the number.
pub proof fn lemma_le_value_of_bytes(value: nat, width: nat)
    requires
        value < pow256(width),
    ensures
        le_value(le_bytes(value, width)) == value,
    decreases width,
{
    lemma_le_bytes_len(value, width);
    if width > 0 {
        let rest = le_bytes(value / 256, (width - 1) as nat);
        assert(value / 256 < pow256((width - 1) as nat)) by (nonlinear_arith)
            requires
                value < 256 * pow256((width - 1) as nat),
        ;
        lemma_le_value_of_bytes(value / 256, (width - 1) as nat);
        assert(le_bytes(value, width).drop_first() =~= rest);
        assert(value % 256 + 256 * (value / 256) == value) by (nonlinear_arith);
    }
}

/// Reading a byte string and writing the number back in as many bytes gives the string.
pub proof fn lemma_le_bytes_of_value(bytes: Seq<u8>)
    ensures
        le_bytes(le_value(bytes), bytes.len()) == bytes,
    decreases bytes.len(),
{
    if bytes.len() > 0 {
        let first = bytes[0] as nat;
        let rest = le_value(bytes.drop_first());
        lemma_le_bytes_of_value(bytes.drop_first());
        assert((first + 256 * rest) % 256 == first && (first + 256 * rest) / 256 == rest)
            by (nonlinear_arith)
            requires
                first < 256,
        ;
        assert(le_bytes(le_value(bytes), bytes.len()) =~= bytes);
    } else {
        assert(le_bytes(le_value(bytes), bytes.len()) =~= bytes);
    }
}

/// The two's-complement reading of a number leads back to the number.
pub proof fn lemma_signed_round_trip(value: nat, width: nat)
    requires
        value < pow256(width),
    ensures
        as_unsigned(as_signed(value, width), width) == value,
        2 * as_signed(value, width) < pow256(width),
        -(pow256(width) as int) <= 2 * as_signed(value, width),
{
}

/// A number in the signed range of a width is the reading of what stands for it.
pub proof fn lemma_unsigned_round_trip(value: int, width: nat)
    requires
        -(pow256(width) as int) <= 2 * value < pow256(width),
    ensures
        as_signed(as_unsigned(value, width), width) == value,
        as_unsigned(value, width) < pow256(width),
{
}

/// Reads `width` bytes at `pos` as one little-endian number.
pub fn read_le(data: &[u8], pos: usize, width: usize) -> (value: u64)
    requires
        width <= 8,
        pos + width <= data@.len(),
    ensures
        value == le_value(data@.subrange(pos as int, pos + width)),
        value < pow256(width as nat),
{
    let ghost window = data@.subrange(pos as int, pos + width);
    let len: usize = data.len();
    let mut value: u64 = 0;
    let mut i: usize = width;
    proof {
        assert(window.subrange(width as int, width as int) =~= Seq::<u8>::empty());
    }
    while i > 0
        invariant
            i <= width <= 8,
            pos + width <= len == data@.len(),
            window == data@.subrange(pos as int, pos + width),
            value == le_value(window.subrange(i as int, width as int)),
        decreases i,
    {
        proof {
            let tail = window.subrange(i as int, width as int);
            let next = window.subrange(i - 1, width as int);
            lemma_le_value_bound(tail);
            lemma_pow256_monotonic(tail.len(), 7);
            lemma_pow256_values();
            reveal_with_fuel(pow256, 9);
            assert(next.drop_first() =~= tail);
            assert(next[0] == data@[pos + i - 1]);
        }
        i = i - 1;
        value = value * 256 + data[pos + i] as u64;
    }
    proof {
        assert(window.subrange(0, width as int) =~= window);
        lemma_le_value_bound(window);
    }
    value
}

/// Appends the `width` low-order bytes of `value`, least significant first.
pub fn write_le(out: &mut Vec<u8>, value: u64, width: usize)
    ensures
        final(out)@ == old(out)@ + le_bytes(value as nat, width as nat),
{
    let mut rest: u64 = value;
    let mut i: usize = 0;
    while i < width
        invariant
            i <= width,
            out@ + le_bytes(rest as nat, (width - i) as nat) == old(out)@ + le_bytes(
                value as nat,
                width as nat,
            ),
        decreases width - i,
    {
        proof {
            let tail = le_bytes(rest as nat / 256, (width - i - 1) as nat);
            assert(out@.push((rest % 256) as u8) + tail =~= out@ + le_bytes(
                rest as nat,
                (width - i) as nat,
            ));
        }
        out.push((rest % 256) as u8);
        rest = rest / 256;
        i = i + 1;
    }
    proof {
        assert(out@ + le_bytes(rest as nat, 0) =~= out@);
    }
}

/// The two's-complement reading of one byte.
pub fn signed8(value: u8) -> (r: i8)
    ensures
        r == as_signed(value as nat, 1),
{
    proof {
        lemma_pow256_values();
    }
    if value >= 0x80 {
        ((value - 0x80) as i8) + i8::MIN
    } else {
        value as i8
    }
}

/// The two's-complement reading of two bytes.
pub fn signed16(value: u16) -> (r: i16)
    ensures
        r == as_signed(value as nat, 2),
{
    proof {
        lemma_pow256_values();
    }
    if value >= 0x8000 {
        ((value - 0x8000) as i16) + i16::MIN
    } else {
        value as i16
    }
}

/// The two's-complement reading of four bytes.
pub fn signed32(value: u32) -> (r: i32)
    ensures
        r == as_signed(value as nat, 4),
{
    proof {
        lemma_pow256_values();
    }
    if value >= 0x8000_0000 {
        ((value - 0x8000_0000) as i32) + i32::MIN
    } else {
        value as i32
    }
}

/// The two's-complement reading of eight bytes.
pub fn signed64(value: u64) -> (r: i64)
    ensures
        r == as_signed(value as nat, 8),
{
    proof {
        lemma_pow256_values();
    }
    if value >= 0x8000_0000_0000_0000 {
        ((value - 0x8000_0000_0000_0000) as i64) + i64::MIN
    } else {
        value as i64
    }
}

/// The byte whose two's-complement reading is `value`.
pub fn unsigned8(value: i8) -> (r: u8)
    ensures
        r == as_unsigned(value as int, 1),
{
    proof {
        lemma_pow256_values();
    }
    if value < 0 {
        ((value - i8::MIN) as u8) + 0x80
    } else {
        value as u8
    }
}

/// The two-byte number whose two's-complement reading is `value`.
pub fn unsigned16(value: i16) -> (r: u16)
    ensures
        r == as_unsigned(value as int, 2),
{
    proof {
        lemma_pow256_values();
    }
    if value < 0 {
        ((value - i16::MIN) as u16) + 0x8000
    } else {
        value as u16
    }
}

/// The four-byte number whose two's-complement reading is `value`.
pub fn unsigned32(value: i32) -> (r: u32)
    ensures
        r == as_unsigned(value as int, 4),
{
    proof {
        lemma_pow256_values();
    }
    if value < 0 {
        ((value - i32::MIN) as u32) + 0x8000_0000
    } else {
        value as u32
    }
}

/// The eight-byte number whose two's-complement reading is `value`.
pub fn unsigned64(value: i64) -> (r: u64)
    ensures
        r == as_unsigned(value as int, 8),
{
    proof {
        lemma_pow256_values();
    }
    if value < 0 {
        ((value - i64::MIN) as u64) + 0x8000_0000_0000_0000
    } else {
        value as u64
    }
}

} // verus!
