//! Fixed-width base-256 encoding and decoding of unsigned values, in either
//! byte order, together with the two's-complement view of signed values.
//!
//! A fixed-width numeric field of `w` bytes carries an unsigned bit pattern
//! below `256^w`. Big-endian stores the most significant byte first;
//! little-endian stores the reverse. Signed values are mapped to and from
//! bit patterns by two's complement.

use vstd::prelude::*;
use vstd::arithmetic::div_mod::{
    lemma_div_denominator, lemma_mod_breakdown, lemma_mod_multiples_vanish, lemma_small_mod,
};
use crate::format::ByteOrder;

verus! {

/// 256 raised to the power `n`: the number of values a field of `n` bytes
/// can carry.
pub open spec fn pow256(n: nat) -> nat
    decreases n,
{
    if n == 0 {
        1
    } else {
        256 * pow256((n - 1) as nat)
    }
}

/// Half of `pow256(w)` for positive `w`: the magnitude bound of a signed
/// value of `w` bytes.
pub open spec fn half_pow256(w: nat) -> nat
    recommends
        w >= 1,
{
    128 * pow256((w - 1) as nat)
}

pub proof fn lemma_pow256_pos(n: nat)
    ensures
        pow256(n) >= 1,
    decreases n,
{
    if n > 0 {
        lemma_pow256_pos((n - 1) as nat);
    }
}

/// The powers of 256 a field width can reach, spelled out.
pub proof fn lemma_pow256_values()
    ensures
        pow256(0) == 1,
        pow256(1) == 0x100,
        pow256(2) == 0x10000,
        pow256(3) == 0x1000000,
        pow256(4) == 0x100000000,
        pow256(5) == 0x10000000000,
        pow256(6) == 0x1000000000000,
        pow256(7) == 0x100000000000000,
        pow256(8) == 0x10000000000000000,
{
    reveal_with_fuel(pow256, 9);
}

/// The big-endian base-256 digits of `v`, `n` bytes, most significant
/// first: the low digits of `v`, with `v`'s bits above `256^n` dropped.
pub open spec fn be_digits(v: nat, n: nat) -> Seq<u8>
    decreases n,
{
    if n == 0 {
        Seq::empty()
    } else {
        be_digits(v / 256, (n - 1) as nat).push((v % 256) as u8)
    }
}

/// The value of a big-endian digit sequence.
pub open spec fn be_value(s: Seq<u8>) -> nat
    decreases s.len(),
{
    if s.len() == 0 {
        0
    } else {
        be_value(s.drop_last()) * 256 + s.last() as nat
    }
}

/// The byte encoding of an unsigned value of `w` bytes in a byte order:
/// big-endian digits, or their reversal for little-endian.
pub open spec fn order_bytes(order: ByteOrder, bits: nat, w: nat) -> Seq<u8> {
    match order {
        ByteOrder::BigEndian => be_digits(bits, w),
        ByteOrder::LittleEndian => be_digits(bits, w).reverse(),
    }
}

/// The unsigned value a byte range carries in a byte order.
pub open spec fn order_value(order: ByteOrder, s: Seq<u8>) -> nat {
    match order {
        ByteOrder::BigEndian => be_value(s),
        ByteOrder::LittleEndian => be_value(s.reverse()),
    }
}

pub proof fn lemma_be_digits_len(v: nat, n: nat)
    ensures
        be_digits(v, n).len() == n,
    decreases n,
{
    if n > 0 {
        lemma_be_digits_len(v / 256, (n - 1) as nat);
    }
}

/// Digit `n - 1 - j` (counting from the most significant end) of the
/// `n`-byte encoding of `v` is byte `j` of `v`: encoding truncates to the
/// low `n` bytes and lays them out in place order.
pub proof fn lemma_be_digit_at(v: nat, n: nat, j: nat)
    requires
        j < n,
    ensures
        be_digits(v, n).len() == n,
        be_digits(v, n)[n - 1 - j] == ((v / pow256(j)) % 256) as u8,
    decreases j,
{
    lemma_be_digits_len(v, n);
    lemma_be_digits_len(v / 256, (n - 1) as nat);
    if j == 0 {
        vstd::arithmetic::div_mod::lemma_div_basics(v as int);
        assert(v / pow256(0) == v);
    } else {
        lemma_be_digit_at(v / 256, (n - 1) as nat, (j - 1) as nat);
        lemma_pow256_pos((j - 1) as nat);
        lemma_div_denominator(v as int, 256, pow256((j - 1) as nat) as int);
        assert(pow256(j) == 256 * pow256((j - 1) as nat));
        assert(be_digits(v, n)[n - 1 - j] == be_digits(v / 256, (n - 1) as nat)[n - 1 - j]);
    }
}

/// Reading back the `n`-byte encoding of `v` yields `v` modulo `256^n`.
pub proof fn lemma_be_value_of_digits(v: nat, n: nat)
    ensures
        be_value(be_digits(v, n)) == v % pow256(n),
    decreases n,
{
    lemma_pow256_pos(n);
    if n == 0 {
        vstd::arithmetic::div_mod::lemma_mod_multiples_basic(v as int, 1);
        assert(v % pow256(0) == 0);
    } else {
        lemma_be_value_of_digits(v / 256, (n - 1) as nat);
        lemma_be_digits_len(v / 256, (n - 1) as nat);
        let ds = be_digits(v, n);
        assert(ds.drop_last() =~= be_digits(v / 256, (n - 1) as nat));
        lemma_pow256_pos((n - 1) as nat);
        lemma_mod_breakdown(v as int, 256, pow256((n - 1) as nat) as int);
        assert(pow256(n) == 256 * pow256((n - 1) as nat));
    }
}

/// The value of a digit sequence is below `256^len`.
pub proof fn lemma_be_value_bound(s: Seq<u8>)
    ensures
        be_value(s) < pow256(s.len()),
    decreases s.len(),
{
    if s.len() > 0 {
        lemma_be_value_bound(s.drop_last());
        assert(pow256(s.len()) == 256 * pow256((s.len() - 1) as nat));
    }
}

/// Round trip at the byte level: in either byte order, reading the `w`-byte
/// encoding of a value below `256^w` yields that value.
pub proof fn lemma_order_round_trip(order: ByteOrder, bits: nat, w: nat)
    requires
        bits < pow256(w),
    ensures
        order_bytes(order, bits, w).len() == w,
        order_value(order, order_bytes(order, bits, w)) == bits,
{
    lemma_be_digits_len(bits, w);
    lemma_be_value_of_digits(bits, w);
    lemma_small_mod(bits, pow256(w));
    if order == ByteOrder::LittleEndian {
        assert(be_digits(bits, w).reverse().reverse() =~= be_digits(bits, w));
    }
}

/// The two's-complement bit pattern of an integer of `w` bytes: the value
/// itself when non-negative, shifted up by `256^w` when negative.
pub open spec fn to_unsigned(v: int, w: nat) -> nat {
    (v % (pow256(w) as int)) as nat
}

/// The integer a bit pattern of `w` bytes stands for: unsigned as is,
/// signed by two's complement.
pub open spec fn from_unsigned(u: nat, w: nat, signed: bool) -> int
    recommends
        w >= 1,
{
    if signed && u >= half_pow256(w) {
        u - pow256(w)
    } else {
        u as int
    }
}

/// The bit pattern of an in-range integer written out: the value itself
/// when non-negative, the value plus `256^w` when negative; either way it
/// is below `256^w`.
pub proof fn lemma_to_unsigned_in_range(v: int, w: nat, signed: bool)
    requires
        w >= 1,
        signed ==> -(half_pow256(w) as int) <= v < half_pow256(w),
        !signed ==> 0 <= v < pow256(w),
    ensures
        to_unsigned(v, w) == if v >= 0 {
            v
        } else {
            v + pow256(w)
        },
        to_unsigned(v, w) < pow256(w),
{
    let p = pow256(w) as int;
    let h = half_pow256(w) as int;
    lemma_pow256_pos((w - 1) as nat);
    assert(p == 256 * pow256((w - 1) as nat));
    assert(p == 2 * h);
    if v >= 0 {
        lemma_small_mod(v as nat, p as nat);
    } else {
        lemma_mod_multiples_vanish(1, v, p);
        lemma_small_mod((v + p) as nat, p as nat);
    }
}

/// Round trip at the value level: an integer within the range of its width
/// and signedness is recovered from its two's-complement bit pattern.
pub proof fn lemma_signed_round_trip(v: int, w: nat, signed: bool)
    requires
        w >= 1,
        signed ==> -(half_pow256(w) as int) <= v < half_pow256(w),
        !signed ==> 0 <= v < pow256(w),
    ensures
        to_unsigned(v, w) < pow256(w),
        from_unsigned(to_unsigned(v, w), w, signed) == v,
{
    let p = pow256(w) as int;
    let h = half_pow256(w) as int;
    lemma_pow256_pos((w - 1) as nat);
    assert(p == 256 * pow256((w - 1) as nat));
    assert(p == 2 * h);
    if v >= 0 {
        lemma_small_mod(v as nat, p as nat);
    } else {
        lemma_mod_multiples_vanish(1, v, p);
        lemma_small_mod((v + p) as nat, p as nat);
        assert(to_unsigned(v, w) == v + p);
    }
}

/// The buffer with the byte range starting at `off` overwritten by `bytes`
/// and everything else unchanged.
pub open spec fn write_seq(buf: Seq<u8>, off: nat, bytes: Seq<u8>) -> Seq<u8>
    recommends
        off + bytes.len() <= buf.len(),
{
    Seq::new(
        buf.len(),
        |i: int|
            if off <= i < off + bytes.len() {
                bytes[i - off]
            } else {
                buf[i]
            },
    )
}

/// The buffer position of the digit `t` places above the least significant
/// one, for a `w`-byte field at `off` in the given byte order.
pub open spec fn digit_pos(order: ByteOrder, off: int, w: int, t: int) -> int {
    if order == ByteOrder::BigEndian {
        off + w - 1 - t
    } else {
        off + t
    }
}

/// Stores the low `w` bytes of an unsigned value into the buffer at `off`
/// in the given byte order, leaving every other byte unchanged.
pub fn store_bits(buf: &mut Vec<u8>, off: usize, w: usize, bits: u64, order: ByteOrder)
    requires
        off + w <= old(buf).len(),
        w <= 8,
        (bits as nat) < pow256(w as nat),
    ensures
        final(buf)@ == write_seq(old(buf)@, off as nat, order_bytes(order, bits as nat, w as nat)),
{
    let ghost dst = order_bytes(order, bits as nat, w as nat);
    proof {
        lemma_be_digits_len(bits as nat, w as nat);
        vstd::arithmetic::div_mod::lemma_div_basics(bits as int);
        assert(bits as nat / pow256(0) == bits as nat);
    }
    let mut x = bits;
    let mut j: usize = 0;
    while j < w
        invariant
            j <= w,
            w <= 8,
            off + w <= buf.len(),
            buf@.len() == old(buf)@.len(),
            dst == order_bytes(order, bits as nat, w as nat),
            dst.len() == w,
            x as nat == bits as nat / pow256(j as nat),
            forall|k: int|
                0 <= k < buf@.len() && !(off <= k < off + w) ==> buf@[k] == old(buf)@[k],
            forall|t: int|
                0 <= t < j ==> buf@[#[trigger] digit_pos(order, off as int, w as int, t)] == ((
                bits as nat / pow256(t as nat)) % 256) as u8,
            forall|t: int|
                j <= t < w ==> buf@[#[trigger] digit_pos(order, off as int, w as int, t)] == old(
                buf,
                )@[digit_pos(order, off as int, w as int, t)],
        decreases w - j,
    {
        let b = (x % 256) as u8;
        let pos = if order == ByteOrder::BigEndian {
            off + w - 1 - j
        } else {
            off + j
        };
        buf.set(pos, b);
        proof {
            lemma_pow256_pos(j as nat);
            lemma_div_denominator(bits as int, pow256(j as nat) as int, 256);
            assert(pow256((j + 1) as nat) == 256 * pow256(j as nat));
            assert(pow256(j as nat) * 256 == 256 * pow256(j as nat)) by (nonlinear_arith);
        }
        x = x / 256;
        j = j + 1;
    }
    proof {
        assert forall|k: int| 0 <= k < buf@.len() implies buf@[k] == write_seq(
            old(buf)@,
            off as nat,
            dst,
        )[k] by {
            if off <= k < off + w {
                let t: int = if order == ByteOrder::BigEndian {
                    off + w - 1 - k
                } else {
                    k - off
                };
                assert(0 <= t < w);
                assert(digit_pos(order, off as int, w as int, t) == k);
                assert(buf@[#[trigger] digit_pos(order, off as int, w as int, t)] == ((bits as nat
                    / pow256(t as nat)) % 256) as u8);
                lemma_be_digit_at(bits as nat, w as nat, t as nat);
                if order == ByteOrder::LittleEndian {
                    assert(dst[k - off] == be_digits(bits as nat, w as nat)[w - 1 - (k - off)]);
                } else {
                    assert(dst[k - off] == be_digits(bits as nat, w as nat)[w - 1 - t]);
                }
            }
        }
        assert(buf@ =~= write_seq(old(buf)@, off as nat, dst));
    }
}

/// Loads the unsigned value of the `w`-byte range at `off` in the given
/// byte order.
pub fn load_bits(buf: &Vec<u8>, off: usize, w: usize, order: ByteOrder) -> (x: u64)
    requires
        off + w <= buf.len(),
        w <= 8,
    ensures
        x as nat == order_value(order, buf@.subrange(off as int, off + w)),
        (x as nat) < pow256(w as nat),
{
    let ghost range = buf@.subrange(off as int, off + w);
    let ghost digits = if order == ByteOrder::BigEndian {
        range
    } else {
        range.reverse()
    };
    let mut x: u64 = 0;
    let mut j: usize = 0;
    while j < w
        invariant
            j <= w,
            w <= 8,
            off + w <= buf.len(),
            range == buf@.subrange(off as int, off + w),
            digits == (if order == ByteOrder::BigEndian {
                range
            } else {
                range.reverse()
            }),
            digits.len() == w,
            x as nat == be_value(digits.take(j as int)),
            (x as nat) < pow256(j as nat),
        decreases w - j,
    {
        proof {
            lemma_pow256_values();
            assert(pow256((j + 1) as nat) == 256 * pow256(j as nat));
            assert(x as nat * 256 + 256 <= pow256((j + 1) as nat)) by (nonlinear_arith)
                requires
                    (x as nat) < pow256(j as nat),
                    pow256((j + 1) as nat) == 256 * pow256(j as nat),
            ;
            assert(pow256((j + 1) as nat) <= pow256(8)) by {
                lemma_pow256_increases((j + 1) as nat, 8);
            }
        }
        let b = if order == ByteOrder::BigEndian {
            buf[off + j]
        } else {
            buf[off + w - 1 - j]
        };
        proof {
            assert(digits[j as int] == b);
            assert(digits.take(j as int + 1).drop_last() =~= digits.take(j as int));
            assert(digits.take(j as int + 1).last() == digits[j as int]);
        }
        x = x * 256 + b as u64;
        j = j + 1;
    }
    proof {
        assert(digits.take(w as int) =~= digits);
        lemma_be_value_bound(digits);
    }
    x
}

/// Larger widths reach no fewer values.
pub proof fn lemma_pow256_increases(a: nat, b: nat)
    requires
        a <= b,
    ensures
        pow256(a) <= pow256(b),
    decreases b,
{
    if a < b {
        lemma_pow256_increases(a, (b - 1) as nat);
        lemma_pow256_pos((b - 1) as nat);
    }
}

} // verus!
