use packcodec::format::{compile, compile_with, ByteOrder, FieldKind, FormatError};
use packcodec::Pack;

#[test]
fn padding_layout() {
    let d = compile("2xi").unwrap();
    assert_eq!(d.total_size, 6);
    assert_eq!(d.fields.len(), 1);
    assert_eq!(d.fields[0].byte_offset, 2);
    assert_eq!(d.fields[0].byte_length, 4);
    assert!(matches!(d.fields[0].kind, FieldKind::Int32));
}

#[test]
fn invalid_token() {
    assert_eq!(compile("3z").unwrap_err(), FormatError::InvalidSequence);
    assert!(Pack::from("3z").is_none());
}

#[test]
fn empty_format() {
    let d = compile("").unwrap();
    assert_eq!(d.total_size, 0);
    assert_eq!(d.fields.len(), 0);
}

#[test]
fn digits_accumulate() {
    let d = compile("12s").unwrap();
    assert_eq!(d.total_size, 12);
    assert_eq!(d.fields[0].byte_length, 12);
}

#[test]
fn length_zero_clamps_to_one() {
    let d = compile("0s").unwrap();
    assert_eq!(d.total_size, 1);
    let d = compile("s").unwrap();
    assert_eq!(d.total_size, 1);
    let d = compile("x").unwrap();
    assert_eq!(d.total_size, 1);
    assert_eq!(d.fields.len(), 0);
}

#[test]
fn length_clamps_to_65535() {
    let d = compile("99999s").unwrap();
    assert_eq!(d.total_size, 65535);
    assert_eq!(d.fields[0].byte_length, 65535);
}

#[test]
fn all_token_widths() {
    let d = compile("bBhHiIlLqQfd?cs").unwrap();
    let widths = [1, 1, 2, 2, 4, 4, 4, 4, 8, 8, 4, 8, 1, 1, 1];
    assert_eq!(d.fields.len(), widths.len());
    let mut off = 0;
    for (field, w) in d.fields.iter().zip(widths.iter()) {
        assert_eq!(field.byte_length, *w);
        assert_eq!(field.byte_offset, off);
        off += w;
    }
    assert_eq!(d.total_size, off);
}

#[test]
fn order_directives() {
    let d = compile_with("<i", ByteOrder::BigEndian).unwrap();
    assert_eq!(d.order, ByteOrder::LittleEndian);
    let d = compile_with(">i", ByteOrder::LittleEndian).unwrap();
    assert_eq!(d.order, ByteOrder::BigEndian);
    let d = compile_with("!i", ByteOrder::LittleEndian).unwrap();
    assert_eq!(d.order, ByteOrder::BigEndian);
    let d = compile_with("@i", ByteOrder::LittleEndian).unwrap();
    assert_eq!(d.order, ByteOrder::LittleEndian);
    let d = compile_with("=i", ByteOrder::BigEndian).unwrap();
    assert_eq!(d.order, ByteOrder::BigEndian);
    // Only the last directive governs the descriptor.
    let d = compile_with("<i>h", ByteOrder::LittleEndian).unwrap();
    assert_eq!(d.order, ByteOrder::BigEndian);
}

#[test]
fn pack_object_keeps_format() {
    let p = Pack::from("2xi").unwrap();
    assert_eq!(p.original, "2xi");
    assert_eq!(p.descriptor.total_size, 6);
}

#[test]
fn digit_only_format_emits_nothing() {
    let d = compile("42").unwrap();
    assert_eq!(d.total_size, 0);
    assert_eq!(d.fields.len(), 0);
}

#[test]
fn non_ascii_character_is_invalid() {
    assert_eq!(compile("i\u{20AC}h").unwrap_err(), FormatError::InvalidSequence);
}

#[test]
fn empty_format_packs_and_unpacks_nothing() {
    let p = Pack::from("").unwrap();
    let buf = p.pack(&vec![]).unwrap();
    assert!(buf.is_empty());
    let vals = p.unpack(&buf).unwrap();
    assert!(vals.is_empty());
}
