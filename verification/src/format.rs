//! The format-string parser and layout calculator.
//!
//! A format string is scanned character by character. Decimal digits
//! accumulate a pending length argument; every other character is a token:
//! either a byte-order directive (`@`, `=`, `<`, `>`, `!`) or a field token
//! (`s`, `x`, `?`, `c`, `b`, `B`, `h`, `H`, `i`, `I`, `l`, `L`, `q`, `Q`,
//! `f`, `d`). Any other character is an invalid sequence. The scan yields an
//! ordered item list (fields and padding, each with a byte length) and a
//! final byte order; the layout pass assigns each non-padding item a byte
//! offset and computes the total buffer size.

use vstd::prelude::*;

verus! {

/// The byte order used to encode and decode the fixed-width numeric fields
/// of a descriptor.
#[derive(Clone, Copy, Debug, PartialEq, Eq, Structural)]
pub enum ByteOrder {
    LittleEndian,
    BigEndian,
}

/// The kind of one field of a layout.
///
/// `Pad` consumes offset space but is dropped from a descriptor's field
/// list: it never receives or produces a value. `Byte` is the character
/// token `c`: a single byte packed from and unpacked to a one-character
/// text value. `Int32Long` and `UInt32Long` are the alternate `l`/`L`
/// spellings of the 32-bit types and are encoded identically to `Int32`
/// and `UInt32`.
#[derive(Clone, Copy, Debug, PartialEq, Eq, Structural)]
pub enum FieldKind {
    Text,
    Pad,
    Bool,
    Byte,
    Int8,
    UInt8,
    Int16,
    UInt16,
    Int32,
    UInt32,
    Int32Long,
    UInt32Long,
    Int64,
    UInt64,
    Float32,
    Float64,
}

/// The one way a compile can fail: the format string holds a character that
/// is neither a digit, a directive nor a field token (or, on this machine
/// only, the layout it describes would not fit in a `usize`).
#[derive(Clone, Copy, Debug, PartialEq, Eq, Structural)]
pub enum FormatError {
    InvalidSequence,
}

/// The byte width of a fixed-width field kind. `Text` and `Pad` carry a
/// declared length instead and have no fixed width.
pub open spec fn fixed_width(k: FieldKind) -> nat {
    match k {
        FieldKind::Text => 0,
        FieldKind::Pad => 0,
        FieldKind::Bool => 1,
        FieldKind::Byte => 1,
        FieldKind::Int8 => 1,
        FieldKind::UInt8 => 1,
        FieldKind::Int16 => 2,
        FieldKind::UInt16 => 2,
        FieldKind::Int32 => 4,
        FieldKind::UInt32 => 4,
        FieldKind::Int32Long => 4,
        FieldKind::UInt32Long => 4,
        FieldKind::Int64 => 8,
        FieldKind::UInt64 => 8,
        FieldKind::Float32 => 4,
        FieldKind::Float64 => 8,
    }
}

/// True of the kinds whose declared length argument matters: text and
/// padding, clamped to `[1, 65535]`.
pub open spec fn has_declared_length(k: FieldKind) -> bool {
    k == FieldKind::Text || k == FieldKind::Pad
}

/// A declared length is clamped to the inclusive range `[1, 65535]`;
/// in particular a declared length of `0` is treated as `1`.
pub open spec fn clamp_length(p: nat) -> nat {
    if p < 1 {
        1
    } else if p > 65535 {
        65535
    } else {
        p
    }
}

/// One scanned item: a field or padding entry, with its byte length.
#[derive(Clone, Copy, Debug, PartialEq, Eq, Structural)]
pub struct Item {
    pub kind: FieldKind,
    pub len: u16,
}

/// The mathematical model of an [`Item`].
#[verifier::ext_equal]
pub struct ItemModel {
    pub kind: FieldKind,
    pub len: nat,
}

impl View for Item {
    type V = ItemModel;

    open spec fn view(&self) -> ItemModel {
        ItemModel { kind: self.kind, len: self.len as nat }
    }
}

/// The model of a sequence of items.
pub open spec fn items_view(v: Seq<Item>) -> Seq<ItemModel> {
    v.map_values(|it: Item| it@)
}

/// One field of a compiled layout: its kind, its byte length, and its byte
/// offset from the start of the buffer.
#[derive(Clone, Copy, Debug, PartialEq, Eq, Structural)]
pub struct FieldDescriptor {
    pub kind: FieldKind,
    pub byte_length: usize,
    pub byte_offset: usize,
}

/// The mathematical model of a [`FieldDescriptor`].
#[verifier::ext_equal]
pub struct FieldModel {
    pub kind: FieldKind,
    pub len: nat,
    pub off: nat,
}

impl View for FieldDescriptor {
    type V = FieldModel;

    open spec fn view(&self) -> FieldModel {
        FieldModel { kind: self.kind, len: self.byte_length as nat, off: self.byte_offset as nat }
    }
}

/// The model of a sequence of field descriptors.
pub open spec fn fields_view(v: Seq<FieldDescriptor>) -> Seq<FieldModel> {
    v.map_values(|f: FieldDescriptor| f@)
}

/// A compiled, immutable layout plan: the ordered non-padding fields, the
/// exact buffer size that pack produces and unpack requires, and the byte
/// order the last directive of the format string selected.
#[derive(Clone, Debug)]
pub struct PackingDescriptor {
    pub fields: Vec<FieldDescriptor>,
    pub total_size: usize,
    pub order: ByteOrder,
}

/// The mathematical model of a [`PackingDescriptor`].
#[verifier::ext_equal]
pub struct DescriptorModel {
    pub fields: Seq<FieldModel>,
    pub total_size: nat,
    pub order: ByteOrder,
}

impl View for PackingDescriptor {
    type V = DescriptorModel;

    open spec fn view(&self) -> DescriptorModel {
        DescriptorModel {
            fields: fields_view(self.fields@),
            total_size: self.total_size as nat,
            order: self.order,
        }
    }
}

/// True of the characters `0` through `9`.
pub open spec fn is_decimal_digit(c: char) -> bool {
    48 <= c as u32 <= 57
}

/// The numeric value of a decimal digit character.
pub open spec fn digit_value(c: char) -> nat
    recommends
        is_decimal_digit(c),
{
    (c as u32 - 48) as nat
}

/// The field kind a token character selects, or `None` for a character that
/// is neither a digit, a directive nor a field token.
pub open spec fn token_kind(c: char) -> Option<FieldKind> {
    if c == 's' {
        Some(FieldKind::Text)
    } else if c == 'x' {
        Some(FieldKind::Pad)
    } else if c == '?' {
        Some(FieldKind::Bool)
    } else if c == 'c' {
        Some(FieldKind::Byte)
    } else if c == 'b' {
        Some(FieldKind::Int8)
    } else if c == 'B' {
        Some(FieldKind::UInt8)
    } else if c == 'h' {
        Some(FieldKind::Int16)
    } else if c == 'H' {
        Some(FieldKind::UInt16)
    } else if c == 'i' {
        Some(FieldKind::Int32)
    } else if c == 'I' {
        Some(FieldKind::UInt32)
    } else if c == 'l' {
        Some(FieldKind::Int32Long)
    } else if c == 'L' {
        Some(FieldKind::UInt32Long)
    } else if c == 'q' {
        Some(FieldKind::Int64)
    } else if c == 'Q' {
        Some(FieldKind::UInt64)
    } else if c == 'f' {
        Some(FieldKind::Float32)
    } else if c == 'd' {
        Some(FieldKind::Float64)
    } else {
        None
    }
}

/// The byte length of the item a token emits: the clamped pending length
/// for text and padding, the fixed width otherwise.
pub open spec fn item_length(k: FieldKind, pending: nat) -> nat {
    if has_declared_length(k) {
        clamp_length(pending)
    } else {
        fixed_width(k)
    }
}

/// The running state of the scan: the accumulated pending length, the
/// active byte order, and the items emitted so far.
#[verifier::ext_equal]
pub struct ScanState {
    pub pending: nat,
    pub order: ByteOrder,
    pub items: Seq<ItemModel>,
}

/// The state a scan starts from: no pending length, the native byte order,
/// no items.
pub open spec fn scan_init(native: ByteOrder) -> ScanState {
    ScanState { pending: 0, order: native, items: Seq::empty() }
}

/// One step of the scan. A digit extends the pending length; a directive
/// switches the active byte order (`@` and `=` to the native order, `<` to
/// little-endian, `>` and `!` to big-endian); a field token emits one item;
/// any other character fails the scan. Every non-digit token resets the
/// pending length to zero.
pub open spec fn scan_step(st: ScanState, c: char, native: ByteOrder) -> Option<ScanState> {
    if is_decimal_digit(c) {
        Some(ScanState { pending: st.pending * 10 + digit_value(c), order: st.order, items: st.items })
    } else if c == '@' || c == '=' {
        Some(ScanState { pending: 0, order: native, items: st.items })
    } else if c == '<' {
        Some(ScanState { pending: 0, order: ByteOrder::LittleEndian, items: st.items })
    } else if c == '>' || c == '!' {
        Some(ScanState { pending: 0, order: ByteOrder::BigEndian, items: st.items })
    } else {
        match token_kind(c) {
            Some(k) => Some(
                ScanState {
                    pending: 0,
                    order: st.order,
                    items: st.items.push(ItemModel { kind: k, len: item_length(k, st.pending) }),
                },
            ),
            None => None,
        }
    }
}

/// The scan of a whole character sequence, left to right: the state after
/// all characters, or `None` if any character is invalid.
pub open spec fn scan_chars(s: Seq<char>, native: ByteOrder) -> Option<ScanState>
    decreases s.len(),
{
    if s.len() == 0 {
        Some(scan_init(native))
    } else {
        match scan_chars(s.drop_last(), native) {
            Some(st) => scan_step(st, s.last(), native),
            None => None,
        }
    }
}

/// The sum of the byte lengths of a sequence of items: fields and padding
/// alike consume offset space.
pub open spec fn total_length(items: Seq<ItemModel>) -> nat
    decreases items.len(),
{
    if items.len() == 0 {
        0
    } else {
        items[0].len + total_length(items.drop_first())
    }
}

/// The fields of an item sequence laid out densely from byte offset `off`:
/// every item consumes its length of offset space, in declaration order,
/// and the padding items are dropped from the resulting field list.
pub open spec fn fields_from(items: Seq<ItemModel>, off: nat) -> Seq<FieldModel>
    decreases items.len(),
{
    if items.len() == 0 {
        Seq::empty()
    } else {
        let rest = fields_from(items.drop_first(), off + items[0].len);
        if items[0].kind == FieldKind::Pad {
            rest
        } else {
            seq![FieldModel { kind: items[0].kind, len: items[0].len, off }] + rest
        }
    }
}

/// The descriptor a format string compiles to: the scanned items laid out
/// from offset zero, the sum of all item lengths as the total size, and the
/// last byte order the scan saw.
pub open spec fn spec_compile(s: Seq<char>, native: ByteOrder) -> Option<DescriptorModel> {
    match scan_chars(s, native) {
        Some(st) => Some(
            DescriptorModel {
                fields: fields_from(st.items, 0),
                total_size: total_length(st.items),
                order: st.order,
            },
        ),
        None => None,
    }
}

/// A field of a well-formed descriptor: not padding, and its byte length is
/// the clamped declared length for text, the kind's fixed width otherwise.
pub open spec fn wf_field(f: FieldModel) -> bool {
    &&& f.kind != FieldKind::Pad
    &&& if f.kind == FieldKind::Text {
        1 <= f.len <= 65535
    } else {
        f.len == fixed_width(f.kind)
    }
}

/// A well-formed descriptor: every field is well formed and lies inside the
/// buffer, and the fields occupy non-overlapping byte ranges at strictly
/// increasing offsets.
pub open spec fn wf_descriptor(d: DescriptorModel) -> bool {
    &&& forall|i: int|
        0 <= i < d.fields.len() ==> wf_field(#[trigger] d.fields[i]) && d.fields[i].off
            + d.fields[i].len <= d.total_size
    &&& forall|i: int|
        0 <= i < d.fields.len() - 1 ==> (#[trigger] d.fields[i].off) + d.fields[i].len
            <= d.fields[i + 1].off
}

/// A scan that fails on some prefix fails on the whole string: an invalid
/// character aborts the compile wherever it stands.
pub proof fn lemma_scan_prefix_none(s: Seq<char>, m: int, native: ByteOrder)
    requires
        0 <= m <= s.len(),
        scan_chars(s.take(m), native) is None,
    ensures
        scan_chars(s, native) is None,
    decreases s.len() - m,
{
    if m == s.len() {
        assert(s.take(m) =~= s);
    } else {
        assert(s.take(m + 1).drop_last() =~= s.take(m));
        lemma_scan_prefix_none(s, m + 1, native);
    }
}

/// The fixed width of a field kind, as an executable value.
pub fn fixed_width_exec(k: FieldKind) -> (w: u16)
    ensures
        w as nat == fixed_width(k),
{
    match k {
        FieldKind::Text => 0,
        FieldKind::Pad => 0,
        FieldKind::Bool => 1,
        FieldKind::Byte => 1,
        FieldKind::Int8 => 1,
        FieldKind::UInt8 => 1,
        FieldKind::Int16 => 2,
        FieldKind::UInt16 => 2,
        FieldKind::Int32 => 4,
        FieldKind::UInt32 => 4,
        FieldKind::Int32Long => 4,
        FieldKind::UInt32Long => 4,
        FieldKind::Int64 => 8,
        FieldKind::UInt64 => 8,
        FieldKind::Float32 => 4,
        FieldKind::Float64 => 8,
    }
}

/// The field kind a token character selects, as an executable value.
pub fn token_kind_exec(c: char) -> (r: Option<FieldKind>)
    ensures
        r == token_kind(c),
{
    if c == 's' {
        Some(FieldKind::Text)
    } else if c == 'x' {
        Some(FieldKind::Pad)
    } else if c == '?' {
        Some(FieldKind::Bool)
    } else if c == 'c' {
        Some(FieldKind::Byte)
    } else if c == 'b' {
        Some(FieldKind::Int8)
    } else if c == 'B' {
        Some(FieldKind::UInt8)
    } else if c == 'h' {
        Some(FieldKind::Int16)
    } else if c == 'H' {
        Some(FieldKind::UInt16)
    } else if c == 'i' {
        Some(FieldKind::Int32)
    } else if c == 'I' {
        Some(FieldKind::UInt32)
    } else if c == 'l' {
        Some(FieldKind::Int32Long)
    } else if c == 'L' {
        Some(FieldKind::UInt32Long)
    } else if c == 'q' {
        Some(FieldKind::Int64)
    } else if c == 'Q' {
        Some(FieldKind::UInt64)
    } else if c == 'f' {
        Some(FieldKind::Float32)
    } else if c == 'd' {
        Some(FieldKind::Float64)
    } else {
        None
    }
}

/// Scans a format string into its ordered item list and final byte order.
/// Directives switch the byte order for the rest of the scan; only the last
/// one seen governs the whole descriptor.
pub fn scan(format: &str, native: ByteOrder) -> (r: Result<(Vec<Item>, ByteOrder), FormatError>)
    ensures
        match r {
            Ok(out) => {
                &&& scan_chars(format@, native) is Some
                &&& items_view(out.0@) == scan_chars(format@, native).unwrap().items
                &&& out.1 == scan_chars(format@, native).unwrap().order
            },
            Err(e) => {
                &&& e == FormatError::InvalidSequence
                &&& scan_chars(format@, native) is None
            },
        },
{
    let n = format.unicode_len();
    let mut items: Vec<Item> = Vec::new();
    let mut order = native;
    // The scan state's pending length, capped at 65536: every use clamps it
    // to at most 65535, so all values at or above 65536 act alike.
    let mut pending: u32 = 0;
    let mut i: usize = 0;
    while i < n
        invariant
            i <= n,
            n == format@.len(),
            scan_chars(format@.take(i as int), native) is Some,
            items_view(items@) == scan_chars(format@.take(i as int), native).unwrap().items,
            order == scan_chars(format@.take(i as int), native).unwrap().order,
            ({
                let p = scan_chars(format@.take(i as int), native).unwrap().pending;
                (p <= 65536 ==> pending == p) && (p > 65536 ==> pending == 65536)
            }),
        decreases n - i,
    {
        let ghost pre = scan_chars(format@.take(i as int), native).unwrap();
        let c = format.get_char(i);
        proof {
            assert(format@.take(i as int + 1).drop_last() =~= format@.take(i as int));
            assert(format@.take(i as int + 1).last() == c);
        }
        let u = c as u32;
        if 48 <= u && u <= 57 {
            let t = pending * 10 + (u - 48);
            pending = if t > 65536 {
                65536
            } else {
                t
            };
        } else if c == '@' || c == '=' {
            order = native;
            pending = 0;
        } else if c == '<' {
            order = ByteOrder::LittleEndian;
            pending = 0;
        } else if c == '>' || c == '!' {
            order = ByteOrder::BigEndian;
            pending = 0;
        } else {
            match token_kind_exec(c) {
                Some(k) => {
                    let len: u16 = if k == FieldKind::Text || k == FieldKind::Pad {
                        if pending < 1 {
                            1
                        } else if pending > 65535 {
                            65535
                        } else {
                            pending as u16
                        }
                    } else {
                        fixed_width_exec(k)
                    };
                    let it = Item { kind: k, len };
                    items.push(it);
                    pending = 0;
                    proof {
                        assert(items_view(items@) =~= items_view(items@.drop_last()).push(it@));
                    }
                },
                None => {
                    proof {
                        lemma_scan_prefix_none(format@, i as int + 1, native);
                    }
                    return Err(FormatError::InvalidSequence);
                },
            }
        }
        i = i + 1;
    }
    proof {
        assert(format@.take(n as int) =~= format@);
    }
    Ok((items, order))
}

/// A well-formed item, as every scanned item is: a positive byte length of
/// at most 65535, equal to the kind's fixed width for the fixed-width kinds.
pub open spec fn wf_item(it: ItemModel) -> bool {
    &&& 1 <= it.len <= 65535
    &&& !has_declared_length(it.kind) ==> it.len == fixed_width(it.kind)
}

/// All items of a sequence are well formed.
pub open spec fn wf_items(items: Seq<ItemModel>) -> bool {
    forall|i: int| 0 <= i < items.len() ==> wf_item(#[trigger] items[i])
}

/// Every item a scan emits is well formed.
pub proof fn lemma_scan_items_wf(s: Seq<char>, native: ByteOrder)
    requires
        scan_chars(s, native) is Some,
    ensures
        wf_items(scan_chars(s, native).unwrap().items),
    decreases s.len(),
{
    if s.len() > 0 {
        lemma_scan_items_wf(s.drop_last(), native);
        let st = scan_chars(s.drop_last(), native).unwrap();
        let c = s.last();
        match token_kind(c) {
            Some(k) => {
                assert(wf_item(ItemModel { kind: k, len: item_length(k, st.pending) }));
            },
            None => {},
        }
    }
}

/// The fields laid out from `off` stand in order inside the next
/// `total_length(items)` bytes: each is well formed, each range lies at or
/// after `off` and ends by `off + total_length(items)`, and consecutive
/// ranges do not overlap.
pub proof fn lemma_fields_from_wf(items: Seq<ItemModel>, off: nat)
    requires
        wf_items(items),
    ensures
        ({
            let fs = fields_from(items, off);
            let total = total_length(items);
            &&& forall|k: int|
                0 <= k < fs.len() ==> wf_field(#[trigger] fs[k]) && off <= fs[k].off && fs[k].off
                    + fs[k].len <= off + total
            &&& forall|k: int|
                0 <= k < fs.len() - 1 ==> (#[trigger] fs[k].off) + fs[k].len <= fs[k + 1].off
        }),
    decreases items.len(),
{
    if items.len() > 0 {
        let first = items[0];
        let rest_items = items.drop_first();
        assert(wf_items(rest_items)) by {
            assert(forall|i: int|
                0 <= i < rest_items.len() ==> rest_items[i] == items[i + 1] && wf_item(
                    #[trigger] items[i + 1],
                ));
        }
        lemma_fields_from_wf(rest_items, off + first.len);
        let fs = fields_from(items, off);
        let rest = fields_from(rest_items, off + first.len);
        if first.kind == FieldKind::Pad {
            assert(fs =~= rest);
        } else {
            let head = FieldModel { kind: first.kind, len: first.len, off };
            assert(wf_field(head));
            assert(fs[0] == head);
            assert(forall|k: int| 1 <= k < fs.len() ==> fs[k] == #[trigger] rest[k - 1]);
        }
    }
}

/// Law: a compiled descriptor's total size is the sum of all field and
/// padding lengths of the format, in declaration order; its fields are well
/// formed and occupy non-overlapping byte ranges at strictly increasing
/// offsets, all inside the buffer.
pub proof fn lemma_compile_layout(s: Seq<char>, native: ByteOrder)
    requires
        spec_compile(s, native) is Some,
    ensures
        ({
            let d = spec_compile(s, native).unwrap();
            let items = scan_chars(s, native).unwrap().items;
            &&& d.total_size == total_length(items)
            &&& wf_descriptor(d)
            &&& forall|i: int|
                0 <= i < d.fields.len() - 1 ==> (#[trigger] d.fields[i].off) < d.fields[i + 1].off
        }),
{
    let d = spec_compile(s, native).unwrap();
    let items = scan_chars(s, native).unwrap().items;
    lemma_scan_items_wf(s, native);
    lemma_fields_from_wf(items, 0);
    assert(forall|i: int| 0 <= i < d.fields.len() ==> wf_field(#[trigger] d.fields[i]));
    assert(forall|i: int|
        0 <= i < d.fields.len() ==> (#[trigger] d.fields[i]).len >= 1) by {
        assert forall|i: int| 0 <= i < d.fields.len() implies (#[trigger] d.fields[i]).len
            >= 1 by {
            let f = d.fields[i];
            assert(wf_field(f));
            if f.kind != FieldKind::Text {
                assert(f.len == fixed_width(f.kind));
            }
        }
    }
}

/// Which items a scan emits, whether it succeeds, and its pending length do
/// not depend on the native byte order; only the resulting order does.
pub proof fn lemma_scan_native_independent(s: Seq<char>, n1: ByteOrder, n2: ByteOrder)
    ensures
        scan_chars(s, n1) is Some <==> scan_chars(s, n2) is Some,
        scan_chars(s, n1) is Some ==> {
            &&& scan_chars(s, n1).unwrap().items == scan_chars(s, n2).unwrap().items
            &&& scan_chars(s, n1).unwrap().pending == scan_chars(s, n2).unwrap().pending
        },
    decreases s.len(),
{
    if s.len() > 0 {
        lemma_scan_native_independent(s.drop_last(), n1, n2);
    }
}

/// Computes the total byte length of an item list. The sum of at most
/// `usize::MAX` lengths of at most 65535 bytes each always fits a `u128`.
fn total_of(items: &Vec<Item>) -> (t: u128)
    ensures
        t as nat == total_length(items_view(items@)),
{
    let ghost iv = items_view(items@);
    proof {
        assert(iv.skip(0) =~= iv);
    }
    let mut total: u128 = 0;
    let mut i: usize = 0;
    while i < items.len()
        invariant
            i <= items.len(),
            iv == items_view(items@),
            iv.len() == items@.len(),
            total as nat + total_length(iv.skip(i as int)) == total_length(iv),
            total <= 0xffff * (i as int),
        decreases items.len() - i,
    {
        proof {
            assert(iv.skip(i as int)[0] == iv[i as int]);
            assert(iv.skip(i as int).drop_first() =~= iv.skip(i as int + 1));
        }
        total = total + items[i].len as u128;
        i = i + 1;
    }
    proof {
        assert(iv.skip(items@.len() as int) =~= Seq::<ItemModel>::empty());
    }
    total
}

/// Lays the scanned items out densely from offset zero: assigns each
/// non-padding item its byte offset and drops the padding items, in one
/// left-to-right pass. Returns `None` only when the total size does not fit
/// a `usize` on this machine.
pub fn layout(items: &Vec<Item>) -> (r: Option<(Vec<FieldDescriptor>, usize)>)
    ensures
        match r {
            Some(out) => {
                &&& out.1 as nat == total_length(items_view(items@))
                &&& fields_view(out.0@) == fields_from(items_view(items@), 0)
            },
            None => total_length(items_view(items@)) > usize::MAX,
        },
{
    let ghost iv = items_view(items@);
    let total_wide = total_of(items);
    if total_wide > usize::MAX as u128 {
        return None;
    }
    let total = total_wide as usize;
    let mut fields: Vec<FieldDescriptor> = Vec::new();
    proof {
        assert(iv.skip(0) =~= iv);
        assert(fields_view(fields@) =~= Seq::<FieldModel>::empty());
        assert(Seq::<FieldModel>::empty() + fields_from(iv, 0) =~= fields_from(iv, 0));
    }
    let mut off: usize = 0;
    let mut i: usize = 0;
    while i < items.len()
        invariant
            i <= items.len(),
            iv == items_view(items@),
            iv.len() == items@.len(),
            off as nat + total_length(iv.skip(i as int)) == total_length(iv),
            total as nat == total_length(iv),
            fields_view(fields@) + fields_from(iv.skip(i as int), off as nat) == fields_from(
                iv,
                0,
            ),
        decreases items.len() - i,
    {
        proof {
            assert(iv.skip(i as int)[0] == iv[i as int]);
            assert(iv.skip(i as int).drop_first() =~= iv.skip(i as int + 1));
        }
        let it = items[i];
        if it.kind == FieldKind::Pad {
        } else {
            let fd = FieldDescriptor { kind: it.kind, byte_length: it.len as usize, byte_offset: off };
            let ghost pre = fields_view(fields@);
            fields.push(fd);
            proof {
                assert(fields_view(fields@) =~= pre.push(fd@));
                assert(pre.push(fd@) + fields_from(iv.skip(i as int + 1), (off + it.len) as nat)
                    =~= pre + (seq![fd@] + fields_from(iv.skip(i as int + 1), (off + it.len) as nat)));
            }
        }
        off = off + it.len as usize;
        i = i + 1;
    }
    proof {
        assert(iv.skip(items@.len() as int) =~= Seq::<ItemModel>::empty());
        assert(fields_view(fields@) + Seq::<FieldModel>::empty() =~= fields_view(fields@));
    }
    Some((fields, total))
}

/// Compiles a format string against an explicit native byte order, which
/// the directives `@` and `=` select. The result is exactly the descriptor
/// the scan and layout describe; the only failures are an invalid character
/// and, on this machine alone, a layout too large for a `usize`.
pub fn compile_with(format: &str, native: ByteOrder) -> (r: Result<PackingDescriptor, FormatError>)
    ensures
        match r {
            Ok(d) => {
                &&& spec_compile(format@, native) == Some(d@)
                &&& wf_descriptor(d@)
            },
            Err(e) => {
                &&& e == FormatError::InvalidSequence
                &&& (spec_compile(format@, native) is None || spec_compile(
                    format@,
                    native,
                ).unwrap().total_size > usize::MAX)
            },
        },
{
    let (items, order) = match scan(format, native) {
        Ok(x) => x,
        Err(e) => {
            return Err(e);
        },
    };
    match layout(&items) {
        Some((fields, total)) => {
            let d = PackingDescriptor { fields, total_size: total, order };
            proof {
                assert(d@ =~= spec_compile(format@, native).unwrap());
                lemma_compile_layout(format@, native);
            }
            Ok(d)
        },
        None => Err(FormatError::InvalidSequence),
    }
}

/// Relies on u16::to_ne_bytes: the native-order byte representation of 1
/// starts with the byte 1 exactly on a little-endian host. Which variant
/// comes back depends on the host CPU alone.
#[verifier::external_body]
pub fn native_order() -> (r: ByteOrder)
    ensures
        r == ByteOrder::LittleEndian || r == ByteOrder::BigEndian,
{
    if 1u16.to_ne_bytes()[0] == 1u8 {
        ByteOrder::LittleEndian
    } else {
        ByteOrder::BigEndian
    }
}

/// Compiles a format string. The directives `@` and `=` select this host's
/// native byte order, so the result is the compile against one of the two
/// orders; everything but the resulting byte order — the fields, their
/// offsets and the total size — is the same against either.
pub fn compile(format: &str) -> (r: Result<PackingDescriptor, FormatError>)
    ensures
        match r {
            Ok(d) => {
                &&& wf_descriptor(d@)
                &&& (spec_compile(format@, ByteOrder::LittleEndian) == Some(d@) || spec_compile(
                    format@,
                    ByteOrder::BigEndian,
                ) == Some(d@))
            },
            Err(e) => {
                &&& e == FormatError::InvalidSequence
                &&& (spec_compile(format@, ByteOrder::LittleEndian) is None || spec_compile(
                    format@,
                    ByteOrder::LittleEndian,
                ).unwrap().total_size > usize::MAX)
            },
        },
{
    let native = native_order();
    let r = compile_with(format, native);
    proof {
        lemma_scan_native_independent(format@, native, ByteOrder::LittleEndian);
    }
    r
}

} // verus!
