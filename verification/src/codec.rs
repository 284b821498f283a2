//! The pack and unpack engines.
//!
//! Pack pairs a descriptor's fields with a value sequence, in order, and
//! writes each pair into a zero-filled buffer of the descriptor's total
//! size. Missing trailing values leave their fields zero-filled and extra
//! values are ignored; a value that a text, character or bool field cannot
//! coerce also leaves the field zero-filled; but a value that a numeric
//! field cannot coerce fails the whole pack. Unpack requires the buffer
//! length to equal the descriptor's total size exactly and reads one value
//! per field, in order; a text field that is not valid UTF-8 fails the
//! whole unpack.

use vstd::prelude::*;
use vstd::utf8::{decode_utf8, encode_utf8, valid_utf8};
use crate::format::{
    wf_descriptor, wf_field, ByteOrder, DescriptorModel, FieldKind, FieldModel, PackingDescriptor,
    fixed_width,
};
use crate::value::{
    bool_byte, is_int_kind, is_int_kind_exec, is_numeric_kind, is_signed_kind, numeric_bits,
    numeric_bits_exec, int_from_bits, string_from_utf8, string_of_char, text_bytes, values_view,
    SpecValue, Value,
};
use crate::wire::{
    from_unsigned, order_bytes, order_value, pow256, lemma_pow256_values, store_bits, load_bits,
    write_seq,
};

verus! {

/// The one way a pack can fail: a numeric field received a value that
/// cannot be coerced to its type. No partial buffer is returned.
#[derive(Clone, Copy, Debug, PartialEq, Eq, Structural)]
pub enum PackError {
    WriteConversionFailure,
}

/// The ways an unpack can fail: the buffer length differs from the
/// descriptor's total size, or a text field's bytes are not valid UTF-8.
/// Either is fatal to the whole unpack; no partial result is returned.
#[derive(Clone, Copy, Debug, PartialEq, Eq, Structural)]
pub enum UnpackError {
    SizeMismatch,
    InvalidEncoding,
}

/// A zero-filled buffer of `n` bytes.
pub open spec fn zeros(n: nat) -> Seq<u8> {
    Seq::new(n, |i: int| 0u8)
}

/// The first `n` bytes, or all of them when there are fewer.
pub open spec fn take_at_most(s: Seq<u8>, n: nat) -> Seq<u8> {
    if s.len() <= n {
        s
    } else {
        s.take(n as int)
    }
}

/// The buffer after one field packs one value.
///
/// A text field takes at most its length of the value's UTF-8 encoding,
/// left-aligned, and keeps its zero fill beyond it; longer text is silently
/// truncated. A character field takes the first byte of the encoding, or
/// nothing from empty text. A bool field takes one byte, 1 or 0. A value
/// that a text, character or bool field cannot coerce leaves the buffer
/// unchanged. A numeric field takes its width of bytes in the descriptor's
/// byte order, and a value it cannot coerce fails the pack: the result is
/// `None`.
pub open spec fn write_field(
    buf: Seq<u8>,
    f: FieldModel,
    v: SpecValue,
    order: ByteOrder,
) -> Option<Seq<u8>>
    recommends
        wf_field(f),
        f.off + f.len <= buf.len(),
{
    match f.kind {
        FieldKind::Text => match text_bytes(v) {
            Some(bs) => Some(write_seq(buf, f.off, take_at_most(bs, f.len))),
            None => Some(buf),
        },
        FieldKind::Byte => match text_bytes(v) {
            Some(bs) => if bs.len() == 0 {
                Some(buf)
            } else {
                Some(write_seq(buf, f.off, seq![bs[0]]))
            },
            None => Some(buf),
        },
        FieldKind::Bool => match bool_byte(v) {
            Some(b) => Some(write_seq(buf, f.off, seq![b])),
            None => Some(buf),
        },
        FieldKind::Pad => Some(buf),
        _ => match numeric_bits(v, f.kind) {
            Some(bits) => Some(write_seq(buf, f.off, order_bytes(order, bits, f.len))),
            None => None,
        },
    }
}

/// The buffer after the fields from index `i` on pack their paired values.
/// Pairing stops at whichever of the two sequences ends first: extra values
/// are ignored, and fields beyond the last value keep their zero fill.
pub open spec fn spec_pack_from(
    buf: Seq<u8>,
    fields: Seq<FieldModel>,
    vs: Seq<SpecValue>,
    order: ByteOrder,
    i: int,
) -> Option<Seq<u8>>
    decreases fields.len() - i,
{
    if i < 0 || i >= fields.len() || i >= vs.len() {
        Some(buf)
    } else {
        match write_field(buf, fields[i], vs[i], order) {
            Some(b2) => spec_pack_from(b2, fields, vs, order, i + 1),
            None => None,
        }
    }
}

/// The buffer a descriptor packs a value sequence into: a zero-filled
/// buffer of the total size with every paired field written, or `None`
/// when some numeric field's value cannot be coerced.
pub open spec fn spec_pack(d: DescriptorModel, vs: Seq<SpecValue>) -> Option<Seq<u8>> {
    spec_pack_from(zeros(d.total_size), d.fields, vs, d.order, 0)
}

/// Packs a sequence of dynamically typed values into a fresh byte buffer
/// of exactly the descriptor's total size. Neither the descriptor nor the
/// values are mutated. Fails only when a numeric field's value cannot be
/// coerced; then no buffer is returned at all.
pub fn pack(d: &PackingDescriptor, values: &Vec<Value>) -> (r: Result<Vec<u8>, PackError>)
    requires
        wf_descriptor(d@),
    ensures
        match r {
            Ok(buf) => {
                &&& spec_pack(d@, values_view(values@)) == Some(buf@)
                &&& buf@.len() == d@.total_size
            },
            Err(e) => {
                &&& e == PackError::WriteConversionFailure
                &&& spec_pack(d@, values_view(values@)) is None
            },
        },
{
    let ghost vs = values_view(values@);
    let ghost fs = d@.fields;
    let ghost order = d@.order;
    let mut buf: Vec<u8> = Vec::new();
    while buf.len() < d.total_size
        invariant
            buf@.len() <= d@.total_size,
            buf@ =~= zeros(buf@.len()),
        decreases d@.total_size - buf@.len(),
    {
        buf.push(0u8);
    }
    let ghost buf0 = buf@;
    proof {
        assert(buf0 =~= zeros(d@.total_size));
    }
    let n = if d.fields.len() <= values.len() {
        d.fields.len()
    } else {
        values.len()
    };
    let mut i: usize = 0;
    while i < n
        invariant
            wf_descriptor(d@),
            vs == values_view(values@),
            fs == d@.fields,
            order == d@.order,
            fs.len() == d.fields@.len(),
            vs.len() == values@.len(),
            n <= fs.len() && n <= vs.len(),
            (fs.len() <= vs.len() ==> n == fs.len()) && (fs.len() > vs.len() ==> n == vs.len()),
            i <= n,
            buf@.len() == d@.total_size,
            buf0 == zeros(d@.total_size),
            spec_pack_from(buf0, fs, vs, order, 0) == spec_pack_from(buf@, fs, vs, order, i as int),
        decreases n - i,
    {
        let fd = d.fields[i];
        let ghost f = fs[i as int];
        let ghost pre = buf@;
        proof {
            assert(wf_field(f) && f.off + f.len <= d@.total_size);
            assert(vs[i as int] == values@[i as int]@);
        }
        let off = fd.byte_offset;
        let flen = fd.byte_length;
        match fd.kind {
            FieldKind::Text => {
                if let Value::Text(s) = &values[i] {
                    let bs = s.as_bytes_vec();
                    copy_prefix(&mut buf, off, flen, &bs);
                } else {
                    proof {
                        assert(text_bytes(vs[i as int]) is None);
                    }
                }
            },
            FieldKind::Byte => {
                if let Value::Text(s) = &values[i] {
                    let bs = s.as_bytes_vec();
                    if bs.len() > 0 {
                        buf.set(off, bs[0]);
                        proof {
                            assert(buf@ =~= write_seq(pre, f.off, seq![encode_utf8(s@)[0]]));
                        }
                    }
                }
            },
            FieldKind::Bool => {
                match &values[i] {
                    Value::Bool(b) => {
                        buf.set(
                            off,
                            if *b {
                                1
                            } else {
                                0
                            },
                        );
                        proof {
                            assert(buf@ =~= write_seq(pre, f.off, seq![bool_byte(
                                vs[i as int],
                            ).unwrap()]));
                        }
                    },
                    Value::Int(x) => {
                        buf.set(
                            off,
                            if *x != 0 {
                                1
                            } else {
                                0
                            },
                        );
                        proof {
                            assert(buf@ =~= write_seq(pre, f.off, seq![bool_byte(
                                vs[i as int],
                            ).unwrap()]));
                        }
                    },
                    _ => {},
                }
            },
            FieldKind::Pad => {},
            _ => {
                proof {
                    assert(is_numeric_kind(f.kind));
                    assert(f.len == fixed_width(f.kind));
                    assert(f.len <= 8);
                }
                match numeric_bits_exec(&values[i], fd.kind) {
                    Some(bits) => {
                        store_bits(&mut buf, off, flen, bits, d.order);
                    },
                    None => {
                        proof {
                            assert(write_field(pre, f, vs[i as int], order) is None);
                            assert(spec_pack_from(pre, fs, vs, order, i as int) is None);
                        }
                        return Err(PackError::WriteConversionFailure);
                    },
                }
            },
        }
        proof {
            assert(write_field(pre, f, vs[i as int], order) == Some(buf@));
        }
        i = i + 1;
    }
    proof {
        assert(spec_pack_from(buf@, fs, vs, order, n as int) == Some(buf@));
    }
    Ok(buf)
}

/// Copies into the buffer at `off` as many of the given bytes as fit in
/// `len`, leaving the rest of the buffer unchanged.
fn copy_prefix(buf: &mut Vec<u8>, off: usize, len: usize, bytes: &Vec<u8>)
    requires
        off + len <= old(buf).len(),
    ensures
        final(buf)@ == write_seq(old(buf)@, off as nat, take_at_most(bytes@, len as nat)),
{
    let buf_len = buf.len();
    let m = if bytes.len() <= len {
        bytes.len()
    } else {
        len
    };
    let ghost dst = take_at_most(bytes@, len as nat);
    let mut j: usize = 0;
    while j < m
        invariant
            j <= m,
            m <= len,
            m <= bytes@.len(),
            off + len <= buf_len,
            buf_len as nat == buf@.len(),
            off + len <= buf@.len(),
            buf@.len() == old(buf)@.len(),
            dst == take_at_most(bytes@, len as nat),
            m == dst.len(),
            forall|k: int|
                0 <= k < buf@.len() && !(off <= k < off + j) ==> buf@[k] == old(buf)@[k],
            forall|k: int| 0 <= k < j ==> buf@[off + k] == #[trigger] dst[k],
        decreases m - j,
    {
        buf.set(off + j, bytes[j]);
        j = j + 1;
    }
    proof {
        assert(buf@ =~= write_seq(old(buf)@, off as nat, dst));
    }
}

/// The value one field reads from a buffer: text decoded as UTF-8 over the
/// field's exact byte range (`None` when the bytes are not valid UTF-8), a
/// character field's first byte as a one-character text value, a bool
/// field's non-zero test, and a numeric field's fixed-width decode in the
/// given byte order — two's complement for the signed kinds, and the raw
/// bit pattern for the float kinds.
pub open spec fn read_field(buf: Seq<u8>, f: FieldModel, order: ByteOrder) -> Option<SpecValue>
    recommends
        wf_field(f),
        f.off + f.len <= buf.len(),
{
    let range = buf.subrange(f.off as int, (f.off + f.len) as int);
    match f.kind {
        FieldKind::Text => if valid_utf8(range) {
            Some(SpecValue::Text(decode_utf8(range)))
        } else {
            None
        },
        FieldKind::Byte => Some(SpecValue::Text(seq![buf[f.off as int] as char])),
        FieldKind::Bool => Some(SpecValue::Bool(buf[f.off as int] != 0)),
        FieldKind::Float32 => Some(SpecValue::Float32Bits(order_value(order, range) as u32)),
        FieldKind::Float64 => Some(SpecValue::Float64Bits(order_value(order, range) as u64)),
        FieldKind::Pad => None,
        _ => Some(
            SpecValue::Int(from_unsigned(order_value(order, range), f.len, is_signed_kind(f.kind))),
        ),
    }
}

/// Every field of the list can be read from the buffer: only a text field
/// over invalid UTF-8 cannot.
pub open spec fn all_fields_readable(buf: Seq<u8>, fields: Seq<FieldModel>, order: ByteOrder) -> bool {
    forall|i: int| 0 <= i < fields.len() ==> read_field(buf, #[trigger] fields[i], order) is Some
}

/// The value sequence a descriptor unpacks from a buffer: exactly one value
/// per non-padding field, in field order; `None` when the buffer length is
/// not exactly the total size, or when some text field holds invalid UTF-8.
pub open spec fn spec_unpack(d: DescriptorModel, buf: Seq<u8>) -> Option<Seq<SpecValue>> {
    if buf.len() == d.total_size && all_fields_readable(buf, d.fields, d.order) {
        Some(Seq::new(d.fields.len(), |i: int| read_field(buf, d.fields[i], d.order).unwrap()))
    } else {
        None
    }
}

/// Unpacks a byte buffer into one dynamically typed value per field, in
/// field order. The buffer length must equal the descriptor's total size
/// exactly: any mismatch fails with `SizeMismatch` before a field is read.
/// A text field whose bytes are not valid UTF-8 fails the whole unpack with
/// `InvalidEncoding`. Nothing is mutated.
pub fn unpack(d: &PackingDescriptor, data: &Vec<u8>) -> (r: Result<Vec<Value>, UnpackError>)
    requires
        wf_descriptor(d@),
    ensures
        match r {
            Ok(vals) => spec_unpack(d@, data@) == Some(values_view(vals@)),
            Err(UnpackError::SizeMismatch) => data@.len() != d@.total_size,
            Err(UnpackError::InvalidEncoding) => data@.len() == d@.total_size && spec_unpack(
                d@,
                data@,
            ) is None,
        },
{
    if data.len() != d.total_size {
        return Err(UnpackError::SizeMismatch);
    }
    let ghost order = d@.order;
    let mut out: Vec<Value> = Vec::new();
    let mut i: usize = 0;
    let nfields = d.fields.len();
    while i < nfields
        invariant
            wf_descriptor(d@),
            data@.len() == d@.total_size,
            nfields as nat == d@.fields.len(),
            d@.fields.len() == d.fields@.len(),
            order == d@.order,
            i <= nfields,
            out@.len() == i,
            forall|j: int|
                0 <= j < i ==> read_field(data@, d@.fields[j], order) == Some(
                    (#[trigger] out@[j])@,
                ),
        decreases nfields - i,
    {
        let fd = d.fields[i];
        let ghost f = d@.fields[i as int];
        proof {
            assert(wf_field(f) && f.off + f.len <= d@.total_size);
        }
        let off = fd.byte_offset;
        let flen = fd.byte_length;
        let ghost range = data@.subrange(f.off as int, (f.off + f.len) as int);
        let v: Value = match fd.kind {
            FieldKind::Text => {
                let sl = vstd::slice::slice_subrange(data.as_slice(), off, off + flen);
                let bytes = vstd::slice::slice_to_vec(sl);
                match string_from_utf8(bytes) {
                    Some(s) => Value::Text(s),
                    None => {
                        proof {
                            assert(read_field(data@, d@.fields[i as int], order) is None);
                        }
                        return Err(UnpackError::InvalidEncoding);
                    },
                }
            },
            FieldKind::Byte => {
                let b = data[off];
                Value::Text(string_of_char(b as char))
            },
            FieldKind::Bool => Value::Bool(data[off] != 0),
            FieldKind::Pad => {
                proof {
                    assert(false);
                }
                Value::Bool(false)
            },
            _ => {
                proof {
                    assert(f.len == fixed_width(f.kind));
                    assert(f.len <= 8);
                    lemma_pow256_values();
                }
                let bits = load_bits(data, off, flen, d.order);
                if is_int_kind_exec(fd.kind) {
                    Value::Int(int_from_bits(bits, fd.kind))
                } else if let FieldKind::Float32 = fd.kind {
                    Value::Float32Bits(bits as u32)
                } else {
                    Value::Float64Bits(bits)
                }
            },
        };
        proof {
            assert(read_field(data@, f, order) == Some(v@));
        }
        out.push(v);
        i = i + 1;
    }
    proof {
        assert forall|j: int| 0 <= j < d@.fields.len() implies read_field(
            data@,
            #[trigger] d@.fields[j],
            order,
        ) is Some by {
            assert(read_field(data@, d@.fields[j], order) == Some(out@[j]@));
        }
        assert(all_fields_readable(data@, d@.fields, order));
        assert(Seq::new(
            d@.fields.len(),
            |j: int| read_field(data@, d@.fields[j], order).unwrap(),
        ) =~= values_view(out@));
    }
    Ok(out)
}

/// A value exactly representable in a numeric field: an integer within an
/// integer field's range, or a float bit pattern of the field's own width.
pub open spec fn exactly_representable(v: SpecValue, k: FieldKind) -> bool {
    match v {
        SpecValue::Int(i) => is_int_kind(k) && crate::value::in_int_range(i, k),
        SpecValue::Float32Bits(_) => k == FieldKind::Float32,
        SpecValue::Float64Bits(_) => k == FieldKind::Float64,
        _ => false,
    }
}

/// Packing an exactly representable value into a numeric field succeeds and
/// writes exactly the field's range: the value's bit pattern in the given
/// byte order, with every other byte unchanged.
pub proof fn lemma_write_field_numeric(buf: Seq<u8>, f: FieldModel, v: SpecValue, order: ByteOrder)
    requires
        wf_field(f),
        is_numeric_kind(f.kind),
        exactly_representable(v, f.kind),
        f.off + f.len <= buf.len(),
    ensures
        numeric_bits(v, f.kind) is Some,
        numeric_bits(v, f.kind).unwrap() < pow256(f.len),
        write_field(buf, f, v, order) is Some,
        ({
            let out = write_field(buf, f, v, order).unwrap();
            &&& out.len() == buf.len()
            &&& out.subrange(f.off as int, (f.off + f.len) as int) == order_bytes(
                order,
                numeric_bits(v, f.kind).unwrap(),
                f.len,
            )
            &&& forall|p: int|
                0 <= p < buf.len() && !(f.off <= p < f.off + f.len) ==> out[p] == buf[p]
        }),
{
    let w = f.len;
    let bits = numeric_bits(v, f.kind).unwrap();
    match v {
        SpecValue::Int(i) => {
            crate::value::lemma_int_range_bounds(f.kind);
            crate::wire::lemma_to_unsigned_in_range(i, w, is_signed_kind(f.kind));
        },
        SpecValue::Float32Bits(_) => {
            lemma_pow256_values();
        },
        SpecValue::Float64Bits(_) => {
            lemma_pow256_values();
        },
        _ => {},
    }
    crate::wire::lemma_order_round_trip(order, bits, w);
    let out = write_field(buf, f, v, order).unwrap();
    assert(out.subrange(f.off as int, (f.off + f.len) as int) =~= order_bytes(order, bits, w));
}

/// Reading a numeric field whose range holds the bit pattern of an exactly
/// representable value yields that value back.
pub proof fn lemma_read_field_of_bytes(buf2: Seq<u8>, f: FieldModel, v: SpecValue, order: ByteOrder)
    requires
        wf_field(f),
        is_numeric_kind(f.kind),
        exactly_representable(v, f.kind),
        f.off + f.len <= buf2.len(),
        numeric_bits(v, f.kind) is Some,
        buf2.subrange(f.off as int, (f.off + f.len) as int) == order_bytes(
            order,
            numeric_bits(v, f.kind).unwrap(),
            f.len,
        ),
    ensures
        read_field(buf2, f, order) == Some(v),
{
    let w = f.len;
    let bits = numeric_bits(v, f.kind).unwrap();
    match v {
        SpecValue::Int(i) => {
            crate::value::lemma_int_range_bounds(f.kind);
            crate::wire::lemma_to_unsigned_in_range(i, w, is_signed_kind(f.kind));
            crate::wire::lemma_order_round_trip(order, bits, w);
            crate::wire::lemma_signed_round_trip(i, w, is_signed_kind(f.kind));
        },
        SpecValue::Float32Bits(b) => {
            lemma_pow256_values();
            crate::wire::lemma_order_round_trip(order, bits, w);
            assert(order_value(order, buf2.subrange(f.off as int, (f.off + f.len) as int))
                == b as nat);
        },
        SpecValue::Float64Bits(b) => {
            lemma_pow256_values();
            crate::wire::lemma_order_round_trip(order, bits, w);
        },
        _ => {},
    }
}

/// Packing all-numeric fields from index `i` on succeeds, reading each of
/// those fields back from the result yields its value, and every byte below
/// field `i`'s offset is left as it was.
pub proof fn lemma_pack_reads_back(
    buf: Seq<u8>,
    fields: Seq<FieldModel>,
    vs: Seq<SpecValue>,
    order: ByteOrder,
    i: int,
)
    requires
        forall|k: int|
            0 <= k < fields.len() ==> wf_field(#[trigger] fields[k]) && fields[k].off
                + fields[k].len <= buf.len(),
        forall|k: int|
            0 <= k < fields.len() - 1 ==> (#[trigger] fields[k].off) + fields[k].len <= fields[k
                + 1].off,
        vs.len() == fields.len(),
        forall|k: int|
            0 <= k < fields.len() ==> is_numeric_kind((#[trigger] fields[k]).kind)
                && exactly_representable(vs[k], fields[k].kind),
        0 <= i <= fields.len(),
    ensures
        spec_pack_from(buf, fields, vs, order, i) is Some,
        ({
            let out = spec_pack_from(buf, fields, vs, order, i).unwrap();
            &&& out.len() == buf.len()
            &&& forall|j: int|
                i <= j < fields.len() ==> read_field(out, #[trigger] fields[j], order) == Some(
                    vs[j],
                )
            &&& forall|p: int|
                0 <= p < buf.len() && (i < fields.len() ==> p < fields[i].off) ==> out[p] == buf[p]
        }),
    decreases fields.len() - i,
{
    if i < fields.len() {
        let f = fields[i];
        lemma_write_field_numeric(buf, f, vs[i], order);
        let buf2 = write_field(buf, f, vs[i], order).unwrap();
        lemma_pack_reads_back(buf2, fields, vs, order, i + 1);
        let out = spec_pack_from(buf2, fields, vs, order, i + 1).unwrap();
        assert(spec_pack_from(buf, fields, vs, order, i).unwrap() == out);
        // Field i's freshly written range survives the later writes, which
        // all lie at or above the next field's offset.
        assert(out.subrange(f.off as int, (f.off + f.len) as int) =~= buf2.subrange(
            f.off as int,
            (f.off + f.len) as int,
        ));
        lemma_read_field_of_bytes(out, f, vs[i], order);
    }
}

/// Law: for a well-formed descriptor whose fields are all fixed-width
/// numeric, packing one exactly representable value per field and unpacking
/// the resulting buffer yields the same value sequence back.
pub proof fn lemma_numeric_round_trip(d: DescriptorModel, vs: Seq<SpecValue>)
    requires
        wf_descriptor(d),
        vs.len() == d.fields.len(),
        forall|i: int|
            0 <= i < d.fields.len() ==> is_numeric_kind((#[trigger] d.fields[i]).kind)
                && exactly_representable(vs[i], d.fields[i].kind),
    ensures
        spec_pack(d, vs) is Some,
        spec_unpack(d, spec_pack(d, vs).unwrap()) == Some(vs),
{
    let buf0 = zeros(d.total_size);
    lemma_pack_reads_back(buf0, d.fields, vs, d.order, 0);
    let out = spec_pack(d, vs).unwrap();
    assert(all_fields_readable(out, d.fields, d.order));
    assert(Seq::new(d.fields.len(), |i: int| read_field(out, d.fields[i], d.order).unwrap())
        =~= vs);
}

} // verus!
