//! The dynamically typed values the codec packs and unpacks, and the
//! coercions that pair a value with a field kind.
//!
//! The codec itself never touches floating-point arithmetic: a 32-bit or
//! 64-bit float travels through pack and unpack as the unsigned IEEE 754
//! bit pattern that `f32::to_bits` and `f64::to_bits` give and `from_bits`
//! take back, so a host layer converts at the boundary. `Int` is wide
//! enough for every integer field, the unsigned 64-bit one included.

use vstd::prelude::*;
use vstd::utf8::encode_utf8;
use crate::format::{fixed_width, FieldKind};
use crate::wire::{
    from_unsigned, half_pow256, lemma_pow256_values, lemma_to_unsigned_in_range, pow256,
    to_unsigned,
};

verus! {

/// A dynamically typed value: text, a boolean, an integer, or a
/// floating-point number held as its IEEE 754 bit pattern.
#[derive(Clone, Debug, PartialEq, Eq)]
pub enum Value {
    Text(String),
    Bool(bool),
    Int(i128),
    Float32Bits(u32),
    Float64Bits(u64),
}

/// The mathematical model of a [`Value`].
#[verifier::ext_equal]
pub enum SpecValue {
    Text(Seq<char>),
    Bool(bool),
    Int(int),
    Float32Bits(u32),
    Float64Bits(u64),
}

impl View for Value {
    type V = SpecValue;

    open spec fn view(&self) -> SpecValue {
        match self {
            Value::Text(s) => SpecValue::Text(s@),
            Value::Bool(b) => SpecValue::Bool(*b),
            Value::Int(i) => SpecValue::Int(*i as int),
            Value::Float32Bits(b) => SpecValue::Float32Bits(*b),
            Value::Float64Bits(b) => SpecValue::Float64Bits(*b),
        }
    }
}

/// The model of a sequence of values.
pub open spec fn values_view(v: Seq<Value>) -> Seq<SpecValue> {
    v.map_values(|x: Value| x@)
}

/// The integer field kinds.
pub open spec fn is_int_kind(k: FieldKind) -> bool {
    |||
    k == FieldKind::Int8
    ||| k == FieldKind::UInt8
    ||| k == FieldKind::Int16
    ||| k == FieldKind::UInt16
    ||| k == FieldKind::Int32
    ||| k == FieldKind::UInt32
    ||| k == FieldKind::Int32Long
    ||| k == FieldKind::UInt32Long
    ||| k == FieldKind::Int64
    ||| k == FieldKind::UInt64
}

/// The signed integer field kinds.
pub open spec fn is_signed_kind(k: FieldKind) -> bool {
    |||
    k == FieldKind::Int8
    ||| k == FieldKind::Int16
    ||| k == FieldKind::Int32
    ||| k == FieldKind::Int32Long
    ||| k == FieldKind::Int64
}

/// The fixed-width numeric field kinds: the integers and the two floats.
pub open spec fn is_numeric_kind(k: FieldKind) -> bool {
    is_int_kind(k) || k == FieldKind::Float32 || k == FieldKind::Float64
}

/// The smallest integer an integer field kind can hold.
pub open spec fn int_lo(k: FieldKind) -> int
    recommends
        is_int_kind(k),
{
    match k {
        FieldKind::Int8 => -0x80,
        FieldKind::Int16 => -0x8000,
        FieldKind::Int32 => -0x80000000,
        FieldKind::Int32Long => -0x80000000,
        FieldKind::Int64 => -0x8000000000000000,
        _ => 0,
    }
}

/// The largest integer an integer field kind can hold.
pub open spec fn int_hi(k: FieldKind) -> int
    recommends
        is_int_kind(k),
{
    match k {
        FieldKind::Int8 => 0x7f,
        FieldKind::UInt8 => 0xff,
        FieldKind::Int16 => 0x7fff,
        FieldKind::UInt16 => 0xffff,
        FieldKind::Int32 => 0x7fffffff,
        FieldKind::UInt32 => 0xffffffff,
        FieldKind::Int32Long => 0x7fffffff,
        FieldKind::UInt32Long => 0xffffffff,
        FieldKind::Int64 => 0x7fffffffffffffff,
        FieldKind::UInt64 => 0xffffffffffffffff,
        _ => 0,
    }
}

/// An integer lies within the range of an integer field kind.
pub open spec fn in_int_range(i: int, k: FieldKind) -> bool
    recommends
        is_int_kind(k),
{
    int_lo(k) <= i <= int_hi(k)
}

/// The literal range bounds agree with the width-and-signedness form the
/// byte-level lemmas use.
pub proof fn lemma_int_range_bounds(k: FieldKind)
    requires
        is_int_kind(k),
    ensures
        1 <= fixed_width(k) <= 8,
        is_signed_kind(k) ==> int_lo(k) == -(half_pow256(fixed_width(k)) as int) && int_hi(k)
            == half_pow256(fixed_width(k)) - 1,
        !is_signed_kind(k) ==> int_lo(k) == 0 && int_hi(k) == pow256(fixed_width(k)) - 1,
{
    lemma_pow256_values();
}

/// The textual representation a text or character field packs: a text
/// value's UTF-8 encoding. Values of the other kinds are not
/// text-coercible; a field they are paired with keeps its zero fill.
pub open spec fn text_bytes(v: SpecValue) -> Option<Seq<u8>> {
    match v {
        SpecValue::Text(s) => Some(encode_utf8(s)),
        _ => None,
    }
}

/// The byte a bool field packs: 1 or 0 from a boolean, or an integer's
/// non-zero test as a relaxation. Values of the other kinds are not
/// boolean-coercible; the field keeps its zero fill.
pub open spec fn bool_byte(v: SpecValue) -> Option<u8> {
    match v {
        SpecValue::Bool(b) => Some(
            if b {
                1u8
            } else {
                0u8
            },
        ),
        SpecValue::Int(i) => Some(
            if i != 0 {
                1u8
            } else {
                0u8
            },
        ),
        _ => None,
    }
}

/// The unsigned bit pattern a numeric field packs from a value, or `None`
/// when the value cannot be coerced. An integer must lie within the field's
/// range and is written in two's complement; a boolean counts as 1 or 0; a
/// float bit pattern fits exactly the float field of its own width. Text
/// never coerces to a numeric field, and the codec does no floating-point
/// conversion between widths or from integers.
pub open spec fn numeric_bits(v: SpecValue, k: FieldKind) -> Option<nat>
    recommends
        is_numeric_kind(k),
{
    match v {
        SpecValue::Int(i) => if is_int_kind(k) && in_int_range(i, k) {
            Some(to_unsigned(i, fixed_width(k)))
        } else {
            None
        },
        SpecValue::Bool(b) => if is_int_kind(k) {
            Some(
                if b {
                    1
                } else {
                    0
                },
            )
        } else {
            None
        },
        SpecValue::Float32Bits(b) => if k == FieldKind::Float32 {
            Some(b as nat)
        } else {
            None
        },
        SpecValue::Float64Bits(b) => if k == FieldKind::Float64 {
            Some(b as nat)
        } else {
            None
        },
        SpecValue::Text(_) => None,
    }
}

/// Whether a field kind is an integer kind, as an executable test.
pub fn is_int_kind_exec(k: FieldKind) -> (r: bool)
    ensures
        r == is_int_kind(k),
{
    match k {
        FieldKind::Int8 => true,
        FieldKind::UInt8 => true,
        FieldKind::Int16 => true,
        FieldKind::UInt16 => true,
        FieldKind::Int32 => true,
        FieldKind::UInt32 => true,
        FieldKind::Int32Long => true,
        FieldKind::UInt32Long => true,
        FieldKind::Int64 => true,
        FieldKind::UInt64 => true,
        _ => false,
    }
}

/// Whether a field kind is a signed integer kind, as an executable test.
pub fn is_signed_kind_exec(k: FieldKind) -> (r: bool)
    ensures
        r == is_signed_kind(k),
{
    match k {
        FieldKind::Int8 => true,
        FieldKind::Int16 => true,
        FieldKind::Int32 => true,
        FieldKind::Int32Long => true,
        FieldKind::Int64 => true,
        _ => false,
    }
}

/// The inclusive range of integers an integer field kind can hold.
pub fn int_bounds(k: FieldKind) -> (b: (i128, i128))
    requires
        is_int_kind(k),
    ensures
        b.0 as int == int_lo(k),
        b.1 as int == int_hi(k),
{
    match k {
        FieldKind::Int8 => (-0x80, 0x7f),
        FieldKind::UInt8 => (0, 0xff),
        FieldKind::Int16 => (-0x8000, 0x7fff),
        FieldKind::UInt16 => (0, 0xffff),
        FieldKind::Int32 => (-0x80000000, 0x7fffffff),
        FieldKind::UInt32 => (0, 0xffffffff),
        FieldKind::Int32Long => (-0x80000000, 0x7fffffff),
        FieldKind::UInt32Long => (0, 0xffffffff),
        FieldKind::Int64 => (-0x8000000000000000, 0x7fffffffffffffff),
        FieldKind::UInt64 => (0, 0xffffffffffffffff),
        _ => (0, 0),
    }
}

/// The number of values a field of `w` bytes can carry, as an executable
/// value.
pub fn pow256_exec(w: usize) -> (p: u128)
    requires
        w <= 8,
    ensures
        p as nat == pow256(w as nat),
{
    proof {
        lemma_pow256_values();
    }
    if w == 0 {
        1
    } else if w == 1 {
        0x100
    } else if w == 2 {
        0x10000
    } else if w == 3 {
        0x1000000
    } else if w == 4 {
        0x100000000
    } else if w == 5 {
        0x10000000000
    } else if w == 6 {
        0x1000000000000
    } else if w == 7 {
        0x100000000000000
    } else {
        0x10000000000000000
    }
}

/// Computes the unsigned bit pattern a numeric field packs from a value:
/// the executable form of [`numeric_bits`].
pub fn numeric_bits_exec(v: &Value, k: FieldKind) -> (r: Option<u64>)
    requires
        is_numeric_kind(k),
    ensures
        match r {
            Some(x) => numeric_bits(v@, k) == Some(x as nat) && (x as nat) < pow256(
                fixed_width(k),
            ),
            None => numeric_bits(v@, k) is None,
        },
{
    proof {
        lemma_pow256_values();
    }
    match v {
        Value::Int(i) => {
            if !is_int_kind_exec(k) {
                return None;
            }
            let (lo, hi) = int_bounds(k);
            let ii = *i;
            if lo <= ii && ii <= hi {
                let w = fixed_width_usize(k);
                let p = pow256_exec(w);
                proof {
                    lemma_int_range_bounds(k);
                    lemma_to_unsigned_in_range(
                        ii as int,
                        w as nat,
                        is_signed_kind(k),
                    );
                }
                let bits: u64 = if ii >= 0 {
                    ii as u64
                } else {
                    (ii + p as i128) as u64
                };
                Some(bits)
            } else {
                None
            }
        },
        Value::Bool(b) => {
            if is_int_kind_exec(k) {
                proof {
                    lemma_int_range_bounds(k);
                }
                Some(
                    if *b {
                        1
                    } else {
                        0
                    },
                )
            } else {
                None
            }
        },
        Value::Float32Bits(b) => {
            if let FieldKind::Float32 = k {
                Some(*b as u64)
            } else {
                None
            }
        },
        Value::Float64Bits(b) => {
            if let FieldKind::Float64 = k {
                Some(*b)
            } else {
                None
            }
        },
        Value::Text(_) => None,
    }
}

/// The fixed width of a numeric field kind as a `usize`.
pub fn fixed_width_usize(k: FieldKind) -> (w: usize)
    ensures
        w as nat == fixed_width(k),
{
    crate::format::fixed_width_exec(k) as usize
}

/// Reconstructs the integer a bit pattern of an integer field stands for:
/// the executable form of [`from_unsigned`].
pub fn int_from_bits(bits: u64, k: FieldKind) -> (r: i128)
    requires
        is_int_kind(k),
        (bits as nat) < pow256(fixed_width(k)),
    ensures
        r as int == from_unsigned(bits as nat, fixed_width(k), is_signed_kind(k)),
{
    proof {
        lemma_int_range_bounds(k);
        lemma_pow256_values();
    }
    let w = fixed_width_usize(k);
    let p = pow256_exec(w);
    let signed = is_signed_kind_exec(k);
    let h = (p / 2) as u64;
    proof {
        assert(p as nat == 2 * half_pow256(w as nat));
        assert(h as nat == half_pow256(w as nat));
    }
    if signed && bits >= h {
        bits as i128 - p as i128
    } else {
        bits as i128
    }
}

/// Relies on String::from_utf8: decoding succeeds exactly on the byte
/// sequences that are valid UTF-8, and yields the characters those bytes
/// encode.
#[verifier::external_body]
pub fn string_from_utf8(bytes: Vec<u8>) -> (r: Option<String>)
    ensures
        match r {
            Some(s) => vstd::utf8::valid_utf8(bytes@) && s@ == vstd::utf8::decode_utf8(bytes@),
            None => !vstd::utf8::valid_utf8(bytes@),
        },
{
    match String::from_utf8(bytes) {
        Ok(s) => Some(s),
        Err(_) => None,
    }
}

/// Relies on String::push: the string holding exactly one given character.
#[verifier::external_body]
pub fn string_of_char(c: char) -> (r: String)
    ensures
        r@ == seq![c],
{
    let mut s = String::new();
    s.push(c);
    s
}

} // verus!
