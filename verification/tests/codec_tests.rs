use packcodec::codec::{pack, unpack, PackError, UnpackError};
use packcodec::format::{compile_with, ByteOrder, PackingDescriptor};
use packcodec::value::Value;
use packcodec::Pack;

fn descriptor_for(format: &str) -> PackingDescriptor {
    compile_with(format, ByteOrder::LittleEndian).unwrap()
}

#[test]
fn endianness_of_one() {
    let d = descriptor_for(">i");
    let buf = pack(&d, &vec![Value::Int(1)]).unwrap();
    assert_eq!(buf, vec![0x00, 0x00, 0x00, 0x01]);
    let d = descriptor_for("<i");
    let buf = pack(&d, &vec![Value::Int(1)]).unwrap();
    assert_eq!(buf, vec![0x01, 0x00, 0x00, 0x00]);
}

#[test]
fn text_truncation() {
    let d = descriptor_for("3s");
    let buf = pack(&d, &vec![Value::Text(String::from("hello"))]).unwrap();
    assert_eq!(buf, b"hel".to_vec());
    let buf = pack(&d, &vec![Value::Text(String::from("h"))]).unwrap();
    assert_eq!(buf, vec![b'h', 0, 0]);
}

#[test]
fn size_mismatch() {
    let d = descriptor_for("<i");
    assert_eq!(unpack(&d, &vec![0u8; 3]).unwrap_err(), UnpackError::SizeMismatch);
    assert_eq!(unpack(&d, &vec![0u8; 4]).unwrap(), vec![Value::Int(0)]);
}

#[test]
fn numeric_coercion_failure() {
    let d = descriptor_for("<i");
    let r = pack(&d, &vec![Value::Text(String::from("not a number"))]);
    assert_eq!(r.unwrap_err(), PackError::WriteConversionFailure);
}

#[test]
fn padding_stays_zero_and_yields_no_value() {
    let d = descriptor_for(">2xi");
    let buf = pack(&d, &vec![Value::Int(7)]).unwrap();
    assert_eq!(buf, vec![0, 0, 0, 0, 0, 7]);
    let vals = unpack(&d, &buf).unwrap();
    assert_eq!(vals, vec![Value::Int(7)]);
}

#[test]
fn round_trip_integers() {
    let d = descriptor_for("<bBhHiIlLqQ");
    let vals = vec![
        Value::Int(-128),
        Value::Int(255),
        Value::Int(-32768),
        Value::Int(65535),
        Value::Int(-2147483648),
        Value::Int(4294967295),
        Value::Int(-1),
        Value::Int(1),
        Value::Int(i64::MIN as i128),
        Value::Int(u64::MAX as i128),
    ];
    let buf = pack(&d, &vals).unwrap();
    assert_eq!(unpack(&d, &buf).unwrap(), vals);
    let d = descriptor_for(">bBhHiIlLqQ");
    let buf = pack(&d, &vals).unwrap();
    assert_eq!(unpack(&d, &buf).unwrap(), vals);
}

#[test]
fn round_trip_float_bits() {
    let d = descriptor_for("<fd");
    let vals = vec![
        Value::Float32Bits(1.5f32.to_bits()),
        Value::Float64Bits((-0.25f64).to_bits()),
    ];
    let buf = pack(&d, &vals).unwrap();
    let out = unpack(&d, &buf).unwrap();
    assert_eq!(out, vals);
    match (&out[0], &out[1]) {
        (Value::Float32Bits(a), Value::Float64Bits(b)) => {
            assert_eq!(f32::from_bits(*a), 1.5f32);
            assert_eq!(f64::from_bits(*b), -0.25f64);
        }
        _ => panic!("wrong value kinds"),
    }
}

#[test]
fn float_exact_bytes() {
    let d = descriptor_for(">f");
    let buf = pack(&d, &vec![Value::Float32Bits(1.0f32.to_bits())]).unwrap();
    assert_eq!(buf, vec![0x3f, 0x80, 0x00, 0x00]);
}

#[test]
fn missing_values_leave_zero_fill() {
    let d = descriptor_for("<ii");
    let buf = pack(&d, &vec![Value::Int(5)]).unwrap();
    assert_eq!(buf, vec![5, 0, 0, 0, 0, 0, 0, 0]);
    assert_eq!(unpack(&d, &buf).unwrap(), vec![Value::Int(5), Value::Int(0)]);
}

#[test]
fn extra_values_are_ignored() {
    let d = descriptor_for("<i");
    let buf = pack(&d, &vec![Value::Int(5), Value::Int(9)]).unwrap();
    assert_eq!(buf, vec![5, 0, 0, 0]);
}

#[test]
fn bool_field() {
    let d = descriptor_for("?");
    assert_eq!(pack(&d, &vec![Value::Bool(true)]).unwrap(), vec![1]);
    assert_eq!(pack(&d, &vec![Value::Bool(false)]).unwrap(), vec![0]);
    // An integer coerces to a bool by its non-zero test.
    assert_eq!(pack(&d, &vec![Value::Int(7)]).unwrap(), vec![1]);
    assert_eq!(pack(&d, &vec![Value::Int(0)]).unwrap(), vec![0]);
    // A non-coercible value leaves the field zero, without an error.
    assert_eq!(pack(&d, &vec![Value::Text(String::from("yes"))]).unwrap(), vec![0]);
    assert_eq!(unpack(&d, &vec![0]).unwrap(), vec![Value::Bool(false)]);
    assert_eq!(unpack(&d, &vec![2]).unwrap(), vec![Value::Bool(true)]);
}

#[test]
fn character_field() {
    let d = descriptor_for("c");
    let buf = pack(&d, &vec![Value::Text(String::from("AB"))]).unwrap();
    assert_eq!(buf, vec![b'A']);
    // Empty text leaves the byte zero.
    let buf = pack(&d, &vec![Value::Text(String::new())]).unwrap();
    assert_eq!(buf, vec![0]);
    assert_eq!(
        unpack(&d, &vec![b'A']).unwrap(),
        vec![Value::Text(String::from("A"))]
    );
    // A high byte decodes as the character with that code.
    assert_eq!(
        unpack(&d, &vec![0xE9]).unwrap(),
        vec![Value::Text(String::from("\u{E9}"))]
    );
}

#[test]
fn invalid_utf8_fails_unpack() {
    let d = descriptor_for("2s");
    assert_eq!(
        unpack(&d, &vec![0xFF, 0xFF]).unwrap_err(),
        UnpackError::InvalidEncoding
    );
}

#[test]
fn signed_negative_bytes() {
    let d = descriptor_for("<b");
    let buf = pack(&d, &vec![Value::Int(-1)]).unwrap();
    assert_eq!(buf, vec![0xFF]);
    assert_eq!(unpack(&d, &buf).unwrap(), vec![Value::Int(-1)]);
    let d = descriptor_for(">h");
    let buf = pack(&d, &vec![Value::Int(-2)]).unwrap();
    assert_eq!(buf, vec![0xFF, 0xFE]);
}

#[test]
fn out_of_range_integer_fails() {
    let d = descriptor_for("b");
    assert_eq!(
        pack(&d, &vec![Value::Int(128)]).unwrap_err(),
        PackError::WriteConversionFailure
    );
    let d = descriptor_for("B");
    assert_eq!(
        pack(&d, &vec![Value::Int(-1)]).unwrap_err(),
        PackError::WriteConversionFailure
    );
}

#[test]
fn bool_coerces_into_integer_field() {
    let d = descriptor_for(">i");
    let buf = pack(&d, &vec![Value::Bool(true)]).unwrap();
    assert_eq!(buf, vec![0, 0, 0, 1]);
}

#[test]
fn float_bits_fit_only_their_own_width() {
    let d = descriptor_for("f");
    assert_eq!(
        pack(&d, &vec![Value::Float64Bits(0)]).unwrap_err(),
        PackError::WriteConversionFailure
    );
    assert_eq!(
        pack(&d, &vec![Value::Int(1)]).unwrap_err(),
        PackError::WriteConversionFailure
    );
}

#[test]
fn text_into_text_field_round_trips() {
    let d = descriptor_for("5s");
    let buf = pack(&d, &vec![Value::Text(String::from("ab"))]).unwrap();
    assert_eq!(buf, vec![b'a', b'b', 0, 0, 0]);
    let vals = unpack(&d, &buf).unwrap();
    assert_eq!(vals, vec![Value::Text(String::from("ab\0\0\0"))]);
}

#[test]
fn pack_object_end_to_end() {
    let p = Pack::from("<hh").unwrap();
    let buf = p.pack(&vec![Value::Int(258), Value::Int(-3)]).unwrap();
    assert_eq!(buf, vec![0x02, 0x01, 0xFD, 0xFF]);
    let vals = p.unpack(&buf).unwrap();
    assert_eq!(vals, vec![Value::Int(258), Value::Int(-3)]);
}

#[test]
fn int_into_text_field_is_not_text_coercible() {
    // Only text coerces to a text field; anything else leaves zero fill.
    let d = descriptor_for("4s");
    let buf = pack(&d, &vec![Value::Int(65)]).unwrap();
    assert_eq!(buf, vec![0, 0, 0, 0]);
}

#[test]
fn native_order_round_trips() {
    let p = Pack::from("@i").unwrap();
    let buf = p.pack(&vec![Value::Int(1)]).unwrap();
    assert!(buf == vec![1, 0, 0, 0] || buf == vec![0, 0, 0, 1]);
    assert_eq!(p.unpack(&buf).unwrap(), vec![Value::Int(1)]);
}

#[test]
fn multi_byte_utf8_text_decodes() {
    let d = descriptor_for("2s");
    let vals = unpack(&d, &vec![0xC3, 0xA9]).unwrap();
    assert_eq!(vals, vec![Value::Text(String::from("\u{E9}"))]);
}
