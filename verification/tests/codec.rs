use value_codec::de;
use value_codec::put::{bytes_expected_size, write_bytes, write_values, PutValue};
use value_codec::ser;
use value_codec::take::{bytes, int64, uint64, values, Unsupported};
use value_codec::values::{
    Array, Bytes, Entry, Error, Handle, Mapping, Structure, Table, Variant,
};
use value_codec::Value;

fn encode(v: &Value) -> Vec<u8> {
    let mut out = vec![];
    let n = v.write(&mut out);
    assert_eq!(n, out.len());
    assert_eq!(v.expected_size(), out.len() as u64);
    assert_eq!(v.checked_size(), Some(out.len() as u64));
    out
}

fn roundtrip(v: Value) {
    let mut out = encode(&v);
    let len = out.len();
    out.extend_from_slice(&[0xbe, 0x01, 0x02]);
    let (n, back) = Value::take_from(&out).unwrap();
    assert_eq!(n, len);
    assert_eq!(back, v);
}

#[test]
fn put_unsigned_boundaries() {
    assert_eq!(0u64.put(), Value::FixInt(0));
    assert_eq!(127u64.put(), Value::FixInt(127));
    assert_eq!(128u64.put(), Value::U8(128));
    assert_eq!(255u64.put(), Value::U8(255));
    assert_eq!(256u64.put(), Value::U16(256));
    assert_eq!(65535u64.put(), Value::U16(65535));
    assert_eq!(65536u64.put(), Value::U32(65536));
    assert_eq!(4294967295u64.put(), Value::U32(4294967295));
    assert_eq!(4294967296u64.put(), Value::U64(4294967296));
    assert_eq!(200u8.put(), Value::U8(200));
    assert_eq!(300u16.put(), Value::U16(300));
    assert_eq!(70000u32.put(), Value::U32(70000));
}

#[test]
fn put_signed_boundaries() {
    assert_eq!((-64i64).put(), Value::FixInt(-64));
    assert_eq!((-65i64).put(), Value::I8(-65));
    assert_eq!((-128i64).put(), Value::I8(-128));
    assert_eq!((-129i64).put(), Value::I16(-129));
    assert_eq!(127i64.put(), Value::FixInt(127));
    assert_eq!(128i64.put(), Value::I16(128));
    assert_eq!((-32769i64).put(), Value::I32(-32769));
    assert_eq!(2147483648i64.put(), Value::I64(2147483648));
    assert_eq!((-100i8).put(), Value::I8(-100));
    assert_eq!(1000i16.put(), Value::I16(1000));
    assert_eq!((-40000i32).put(), Value::I32(-40000));
}

#[test]
fn uint64_reads_after_first_byte() {
    assert_eq!(uint64(&[0xff, 0x05]), Some((1, 5)));
    assert_eq!(uint64(&[0xff, 0x80, 0xc8]), Some((2, 200)));
    assert_eq!(uint64(&[0xff, 0x81, 0x34, 0x12]), Some((3, 0x1234)));
    assert_eq!(uint64(&[0xff, 0x82, 0x78, 0x56, 0x34, 0x12]), Some((5, 0x12345678)));
    assert_eq!(
        uint64(&[0xff, 0x83, 1, 0, 0, 0, 0, 0, 0, 0x80]),
        Some((9, 0x8000_0000_0000_0001))
    );
    assert_eq!(uint64(&[0xff, 0x84, 0x01]), None);
    assert_eq!(uint64(&[0xff, 0x81, 0x34]), None);
    assert_eq!(uint64(&[0xff]), None);
}

#[test]
fn int64_reads_after_first_byte() {
    assert_eq!(int64(&[0, 0xff]), Some((1, -1)));
    assert_eq!(int64(&[0, 0xc0]), Some((1, -64)));
    assert_eq!(int64(&[0, 0x84, 0x80]), Some((2, -128)));
    assert_eq!(int64(&[0, 0x85, 0xfe, 0xff]), Some((3, -2)));
    assert_eq!(int64(&[0, 0x86, 0xff, 0xff, 0xff, 0x7f]), Some((5, 0x7fff_ffff)));
    assert_eq!(int64(&[0, 0x87, 0, 0, 0, 0, 0, 0, 0, 0x80]), Some((9, i64::MIN)));
    assert_eq!(int64(&[0, 0x80, 1]), None);
    assert_eq!(int64(&[0, 0x87, 0]), None);
}

#[test]
fn bytes_reads_length_prefixed() {
    assert_eq!(bytes(&[0xbc, 0x03, 1, 2, 3, 9]), Some((4, vec![1, 2, 3])));
    assert_eq!(bytes(&[0xbc, 0x00]), Some((1, vec![])));
    assert_eq!(bytes(&[0xbc, 0x03, 1, 2]), None);
    assert_eq!(bytes(&[0xbc, 0x83, 0xff, 0xff, 0xff, 0xff, 0xff, 0xff, 0xff, 0xff, 1]), None);
}

#[test]
fn values_reads_count_then_values() {
    assert_eq!(
        values(&[0xba, 0x02, 0x01, 0x80, 0xc8, 0x07]),
        Ok(Some((4, vec![Value::FixInt(1), Value::U8(200)])))
    );
    assert_eq!(values(&[0xba, 0x02, 0x01]), Ok(None));
    assert_eq!(values(&[0xba, 0x00]), Ok(Some((1, vec![]))));
}

#[test]
fn write_bytes_prefixes_length() {
    let mut out = vec![0xaa];
    assert_eq!(write_bytes(&[1, 2, 3], &mut out), 4);
    assert_eq!(out, vec![0xaa, 3, 1, 2, 3]);
    assert_eq!(bytes_expected_size(&[1, 2, 3]), 4);
    let long = vec![7u8; 200];
    let mut out = vec![];
    assert_eq!(write_bytes(&long, &mut out), 202);
    assert_eq!(&out[..2], &[0x80, 200]);
    assert_eq!(bytes_expected_size(&long), 202);
}

#[test]
fn write_values_prefixes_count() {
    let mut out = vec![];
    let n = write_values(&vec![Value::Nil, Value::U16(0x0102)].into(), &mut out);
    assert_eq!(n, 5);
    assert_eq!(out, vec![0x02, 0xbe, 0x81, 0x02, 0x01]);
}

#[test]
fn scalar_encodings() {
    assert_eq!(encode(&Value::FixInt(-1)), vec![0xff]);
    assert_eq!(encode(&Value::U8(7)), vec![0x80, 7]);
    assert_eq!(encode(&Value::U16(0x0102)), vec![0x81, 0x02, 0x01]);
    assert_eq!(encode(&Value::U32(1)), vec![0x82, 1, 0, 0, 0]);
    assert_eq!(encode(&Value::U64(1)), vec![0x83, 1, 0, 0, 0, 0, 0, 0, 0]);
    assert_eq!(encode(&Value::I8(-2)), vec![0x84, 0xfe]);
    assert_eq!(encode(&Value::I16(-2)), vec![0x85, 0xfe, 0xff]);
    assert_eq!(encode(&Value::I32(-2)), vec![0x86, 0xfe, 0xff, 0xff, 0xff]);
    assert_eq!(encode(&Value::I64(-2)), vec![0x87, 0xfe, 0xff, 0xff, 0xff, 0xff, 0xff, 0xff, 0xff]);
    assert_eq!(encode(&Value::F32(1.5f32.to_bits())), vec![0x88, 0, 0, 0xc0, 0x3f]);
    assert_eq!(encode(&Value::F64(1.0f64.to_bits())), vec![0x89, 0, 0, 0, 0, 0, 0, 0xf0, 0x3f]);
    assert_eq!(encode(&Value::Nil), vec![0xbe]);
}

#[test]
fn scalars_read_back() {
    roundtrip(Value::FixInt(-64));
    roundtrip(Value::FixInt(127));
    roundtrip(Value::U8(255));
    roundtrip(Value::U16(65535));
    roundtrip(Value::U32(0xdead_beef));
    roundtrip(Value::U64(u64::MAX));
    roundtrip(Value::I8(i8::MIN));
    roundtrip(Value::I16(i16::MIN));
    roundtrip(Value::I32(i32::MIN));
    roundtrip(Value::I64(i64::MIN));
    roundtrip(Value::F32((-0.25f32).to_bits()));
    roundtrip(Value::F64(std::f64::consts::PI.to_bits()));
    roundtrip(Value::Nil);
}

#[test]
fn fixint_below_minus_64_does_not_read_back() {
    let out = encode(&Value::FixInt(-100));
    assert_eq!(out, vec![0x9c]);
    assert_eq!(Value::take_from(&out), None);
}

#[test]
fn containers_read_back() {
    roundtrip(Value::Bytes(Bytes::from(vec![0, 1, 2, 255])));
    roundtrip(String::from("héllo").into());
    roundtrip(Value::Array(vec![].into()));
    roundtrip(Value::Array(
        vec![
            Value::Array(vec![Value::U8(1), Value::Nil].into()),
            Value::Bytes(Bytes::from(vec![9; 300])),
        ]
        .into(),
    ));
    let mut s = Structure::new();
    s.values.push_back(Value::I16(-300));
    s.values.push_back(Variant::new_none().into());
    roundtrip(Value::Structure(s));
    roundtrip(Variant::new_variant(5, Value::U32(9)).into());
    roundtrip(Variant::new_some(Value::FixInt(3)).into());
    roundtrip(Variant::new_none().into());
    roundtrip(Value::Mapping(Mapping::new()));
    roundtrip(Value::Table(Table { hash: 0x1234, entries: vec![].into() }));
    roundtrip(Value::Table(Table {
        hash: 300,
        entries: vec![
            Entry { id: 1, val: Value::FixInt(1) },
            Entry { id: 1000, val: Value::FixInt(1) },
        ].into(),
    }));
}

#[test]
fn string_holds_utf8() {
    let v: Value = String::from("é").into();
    assert_eq!(encode(&v), vec![0xbd, 0x02, 0xc3, 0xa9]);
    let s = value_codec::values::String::from_std(String::from("ab"));
    assert_eq!(s.inner, vec![0x61, 0x62]);
}

#[test]
fn empty_variant_encoding() {
    assert_eq!(encode(&Variant::new_none().into()), vec![0xb8, 0xff, 0xbe]);
    assert_eq!(Value::take_from(&[0xb8, 0xfe, 0xbe]), None);
    assert_eq!(
        Value::take_from(&[0xb8, 0xff, 0x05]),
        Some((3, Variant::new_none().into()))
    );
}

#[test]
fn error_code_is_read_two_bytes_after_tag() {
    let out = encode(&Value::Error(Error { inner: 7 }));
    assert_eq!(out, vec![0xb6, 0x07]);
    assert_eq!(Value::take_from(&out), None);
    assert_eq!(
        Value::take_from(&[0xb6, 0x05, 0x07]),
        Some((2, Value::Error(Error { inner: 7 })))
    );
}

#[test]
fn handle_reference_is_read_one_byte_late() {
    assert_eq!(
        Value::take_from(&[0xb7, 0x01, 0x02, 0x03]),
        Some((3, Value::Handle(Handle { value: Box::new(Value::FixInt(1)), ref_num: 3 })))
    );
    let out = encode(&Value::Handle(Handle { value: Box::new(Value::Nil), ref_num: -2 }));
    assert_eq!(out, vec![0xb7, 0xbe, 0xfe]);
}

#[test]
fn mapping_pairs_start_at_the_count() {
    assert_eq!(
        Value::take_from(&[0xbb, 0x01, 0x05]),
        Some((4, Value::Mapping(Mapping { entries: vec![(Value::FixInt(1), Value::FixInt(5))].into() })))
    );
    let out = encode(&Value::Mapping(Mapping {
        entries: vec![(Value::U8(200), Value::Nil)].into(),
    }));
    assert_eq!(out, vec![0xbb, 0x01, 0x80, 0xc8, 0xbe]);
}

#[test]
fn table_entry_value_starts_at_its_length() {
    let v = Value::Table(Table { hash: 2, entries: vec![Entry { id: 7, val: Value::U8(200) }].into() });
    let out = encode(&v);
    assert_eq!(out, vec![0xb5, 0x02, 0x01, 0x07, 0x02, 0x80, 0xc8]);
    assert_eq!(
        Value::take_from(&out),
        Some((
            out.len(),
            Value::Table(Table { hash: 2, entries: vec![Entry { id: 7, val: Value::FixInt(2) }].into() })
        ))
    );
}

#[test]
fn reserved_and_empty_inputs() {
    assert_eq!(Value::take_from(&[]), None);
    assert_eq!(Value::take_from(&[0x8a]), None);
    assert_eq!(Value::take_from(&[0xb4, 0x00]), None);
    assert_eq!(Value::take_from(&[0x81, 0x01]), None);
    assert_eq!(Value::parse(&[0x80, 0x09, 0x00]), Some(Value::U8(9)));
}

#[test]
fn expected_size_of_nested_value() {
    let v = Value::Array(
        vec![Value::String(String::from("abc").into()), Value::U64(1), Value::I8(-100)].into(),
    );
    assert_eq!(v.expected_size(), 2 + 5 + 9 + 2);
    let mut out = vec![];
    assert_eq!(v.write(&mut out), 18);
}

#[test]
fn serializer_builds_sequences_and_maps() {
    let mut s = ser::Serializer::new(false);
    assert_eq!(s.serialize_element(Value::Nil), Err(ser::Error::Mismatch));
    s.serialize_seq();
    assert_eq!(s.serialize_element(Value::FixInt(1)), Ok(()));
    assert_eq!(s.value, Value::Array(vec![Value::FixInt(1)].into()));

    s.serialize_map();
    assert_eq!(s.serialize_value(Value::Nil), Err(ser::Error::Mismatch));
    assert_eq!(s.serialize_key(Value::U8(200)), Ok(()));
    assert_eq!(s.serialize_value(Value::FixInt(2)), Ok(()));
    assert_eq!(s.value, Value::Mapping(Mapping { entries: vec![(Value::U8(200), Value::FixInt(2))].into() }));

    s.serialize_tuple_variant(3);
    assert_eq!(s.serialize_tuple_variant_field(Value::Nil), Ok(()));
    assert_eq!(s.serialize_struct_variant_field(Value::Nil), Err(ser::Error::Mismatch));
    assert_eq!(s.value, Variant::new_variant(3, Value::Array(vec![Value::Nil].into())).into());

    s.serialize_struct_variant(1);
    assert_eq!(s.serialize_struct_variant_field(Value::FixInt(4)), Ok(()));
    s.serialize_struct();
    assert_eq!(s.serialize_field(Value::FixInt(5)), Ok(()));
    let mut st = Structure::new();
    st.values.push_back(Value::FixInt(5));
    assert_eq!(s.value, Value::Structure(st));
}

#[test]
fn serializer_scalars_and_options() {
    let mut s = ser::Serializer::new(true);
    s.serialize_bool(true);
    assert_eq!(s.value, Value::FixInt(1));
    s.serialize_u64(1920);
    assert_eq!(s.value, Value::U16(1920));
    s.serialize_i64(-65);
    assert_eq!(s.value, Value::I8(-65));
    s.serialize_char('é');
    assert_eq!(s.value, Value::U8(0xe9));
    s.serialize_str("ab");
    assert_eq!(s.value, String::from("ab").into());
    s.serialize_bytes(&[1, 2]);
    assert_eq!(s.value, Value::Bytes(vec![1, 2].into()));
    s.serialize_none();
    assert_eq!(s.value, Variant::new_none().into());
    s.serialize_some(Value::FixInt(9));
    assert_eq!(s.value, Variant::new_some(Value::FixInt(9)).into());
    s.serialize_unit_variant(200);
    assert_eq!(s.value, Value::I16(200));
    s.serialize_newtype_variant(2, Value::Nil);
    assert_eq!(s.value, Variant::new_variant(2, Value::Nil).into());
    s.serialize_f32(2.0f32.to_bits());
    assert_eq!(s.value, Value::F32(2.0f32.to_bits()));
    s.serialize_f64(2.0f64.to_bits());
    assert_eq!(s.value, Value::F64(2.0f64.to_bits()));
    s.serialize_unit();
    assert_eq!(s.value, Value::Nil);

    let mut plain = ser::Serializer::new(false);
    plain.serialize_none();
    assert_eq!(plain.value, Value::Nil);
    plain.serialize_some(Value::FixInt(9));
    assert_eq!(plain.value, Value::FixInt(9));
}

#[test]
fn deserializer_decisions() {
    assert_eq!(de::expect_bool(&Value::FixInt(0)), Ok(true));
    assert_eq!(de::expect_bool(&Value::FixInt(1)), Ok(false));
    assert_eq!(de::expect_bool(&Value::FixInt(2)), Err(de::Error::Mismatch));
    assert_eq!(de::expect_i8(&Value::I8(-5)), Ok(-5));
    assert_eq!(de::expect_i16(&Value::FixInt(-5)), Ok(-5));
    assert_eq!(de::expect_i32(&Value::I16(-300)), Ok(-300));
    assert_eq!(de::expect_i64(&Value::I32(-70000)), Ok(-70000));
    assert_eq!(de::expect_i64(&Value::U8(1)), Err(de::Error::Mismatch));
    assert_eq!(de::expect_u8(&Value::FixInt(-1)), Err(de::Error::Mismatch));
    assert_eq!(de::expect_u16(&Value::U8(200)), Ok(200));
    assert_eq!(de::expect_u32(&Value::U16(1920)), Ok(1920));
    assert_eq!(de::expect_u64(&Value::U32(70000)), Ok(70000));
    assert_eq!(de::expect_u64(&Value::I8(1)), Err(de::Error::Mismatch));
    assert_eq!(de::expect_f32_bits(&Value::F32(5)), Ok(5));
    assert_eq!(de::expect_f64_bits(&Value::F32(5)), Err(de::Error::Mismatch));
    assert_eq!(de::expect_char(&Value::FixInt(65)), Ok('A'));
    assert_eq!(de::expect_char(&Value::U8(0xe9)), Ok('é'));
    assert_eq!(de::expect_char(&Value::U32(0x1F600)), Ok('😀'));
    assert_eq!(de::expect_char(&Value::U16(0xD800)), Err(de::Error::Mismatch));
    assert_eq!(de::expect_char(&Value::U32(0x110000)), Err(de::Error::Mismatch));

    assert_eq!(de::option_form(&Value::Nil, false), de::OptionForm::Absent);
    assert_eq!(de::option_form(&Value::Nil, true), de::OptionForm::Mismatch);
    assert_eq!(de::option_form(&Value::U8(1), false), de::OptionForm::Itself);
    assert_eq!(de::option_form(&Variant::new_none().into(), true), de::OptionForm::Absent);
    assert_eq!(
        de::option_form(&Variant::new_some(Value::Nil).into(), true),
        de::OptionForm::InVariant
    );
    assert_eq!(
        de::variant_parts(Variant::new_variant(4, Value::U8(200)).into()),
        Ok((4, Value::U8(200)))
    );
    assert_eq!(de::variant_parts(Variant::new_none().into()), Ok((-1, Value::Nil)));
    assert_eq!(de::variant_parts(Value::Nil), Err(de::Error::Mismatch));
}

#[test]
fn deserializer_text() {
    assert_eq!(
        de::expect_string(String::from("h\u{e9}llo").into()),
        Ok(String::from("h\u{e9}llo"))
    );
    let bad = Value::String(value_codec::values::String { inner: vec![0x61, 0xff] });
    assert_eq!(de::expect_string(bad), Err(de::Error::Mismatch));
    let surrogate = Value::String(value_codec::values::String { inner: vec![0xed, 0xa0, 0x80] });
    assert_eq!(de::expect_string(surrogate), Err(de::Error::Mismatch));
    let raw = Value::Bytes(vec![0x61].into());
    assert_eq!(de::expect_string(raw), Err(de::Error::Mismatch));
}

#[test]
fn array_from_vec() {
    let a: Array = vec![Value::Nil].into();
    assert_eq!(a.values, vec![Value::Nil]);
    let v: Value = 5u32.into();
    assert_eq!(v, Value::U32(5));
    let v: Value = (-5i16).into();
    assert_eq!(v, Value::I16(-5));
}

#[test]
fn serializer_output_reads_back() {
    let mut s = ser::Serializer::new(false);
    s.serialize_i64(-200);
    assert_eq!(de::expect_i16(&s.value), Ok(-200));
    assert_eq!(de::expect_i8(&s.value), Err(de::Error::Mismatch));
    s.serialize_i64(-5_000_000_000);
    assert_eq!(de::expect_i64(&s.value), Ok(-5_000_000_000));
    s.serialize_u64(70_000);
    assert_eq!(de::expect_u32(&s.value), Ok(70_000));
    assert_eq!(de::expect_u16(&s.value), Err(de::Error::Mismatch));
    s.serialize_u64(100);
    assert_eq!(de::expect_u8(&s.value), Ok(100));
    s.serialize_char('\u{1F600}');
    assert_eq!(de::expect_char(&s.value), Ok('\u{1F600}'));
    s.serialize_char('x');
    assert_eq!(de::expect_char(&s.value), Ok('x'));
    s.serialize_str("d\u{e9}j\u{e0}");
    assert_eq!(
        de::expect_string(std::mem::replace(&mut s.value, Value::Nil)),
        Ok(String::from("d\u{e9}j\u{e0}"))
    );

    s.serialize_none();
    assert_eq!(de::option_form(&s.value, false), de::OptionForm::Absent);
    s.serialize_some(Value::U8(200));
    assert_eq!(de::option_form(&s.value, false), de::OptionForm::Itself);
    s.serialize_some(Value::Nil);
    assert_eq!(de::option_form(&s.value, false), de::OptionForm::Absent);

    let mut v = ser::Serializer::new(true);
    v.serialize_none();
    assert_eq!(de::option_form(&v.value, true), de::OptionForm::Absent);
    v.serialize_some(Value::Nil);
    assert_eq!(de::option_form(&v.value, true), de::OptionForm::InVariant);
    assert_eq!(
        de::variant_parts(std::mem::replace(&mut v.value, Value::Nil)),
        Ok((0, Value::Nil))
    );

    v.serialize_newtype_variant(7, Value::FixInt(3));
    let (index, inner) = de::variant_parts(std::mem::replace(&mut v.value, Value::Nil)).unwrap();
    assert_eq!((index, inner), (7, Value::FixInt(3)));
    assert_eq!(de::expect_u64(&index.put()), Ok(7));
    assert_eq!(de::expect_u64(&128i64.put()), Err(de::Error::Mismatch));
}

#[test]
fn deserializer_reads_by_kind() {
    assert_eq!(de::any_form(Value::FixInt(-3)), Ok(de::AnyForm::I8(-3)));
    assert_eq!(de::any_form(Value::U16(1920)), Ok(de::AnyForm::U16(1920)));
    assert_eq!(de::any_form(Value::I64(-9)), Ok(de::AnyForm::I64(-9)));
    assert_eq!(de::any_form(Value::F64(7)), Ok(de::AnyForm::F64(7)));
    assert_eq!(de::any_form(Value::Error(Error { inner: 1 })), Ok(de::AnyForm::Unsupported));
    assert_eq!(
        de::any_form(Variant::new_none().into()),
        Ok(de::AnyForm::Enum(Variant::new_none().into()))
    );
    assert_eq!(
        de::any_form(Value::Array(vec![Value::Nil].into())),
        Ok(de::AnyForm::Sequence(vec![Value::Nil].into()))
    );
    assert_eq!(
        de::any_form(Value::Mapping(Mapping { entries: vec![(Value::Nil, Value::U8(200))].into() })),
        Ok(de::AnyForm::Pairs(vec![(Value::Nil, Value::U8(200))].into()))
    );
    assert_eq!(de::any_form(Value::Bytes(vec![1].into())), Ok(de::AnyForm::Bytes(vec![1])));
    assert_eq!(de::any_form(String::from("ab").into()), Ok(de::AnyForm::Text(String::from("ab"))));
    let bad = Value::String(value_codec::values::String { inner: vec![0xc0, 0x80] });
    assert_eq!(de::any_form(bad), Err(de::Error::Mismatch));
    assert_eq!(de::any_form(Value::Nil), Ok(de::AnyForm::Unit));
}

#[test]
fn reader_reports_unsupported_inputs() {
    assert!(Value::aborts(&[0xbf]));
    assert!(Value::aborts(&[0xba, 0x01, 0xbf]));
    assert!(Value::aborts(&[0xb6]));
    assert!(Value::aborts(&[0xb7, 0xbe]));
    assert!(!Value::aborts(&[0xbe]));
    assert!(!Value::aborts(&[0x8a]));
    assert!(!Value::aborts(&[0xb6, 0x07]));
    assert_eq!(Value::take_from_raw(&[0xbf]), Err(Unsupported));
    assert_eq!(Value::take_from_raw(&[0x8a]), Ok(None));
    assert_eq!(Value::take_from_raw(&[0xbe, 0x01]), Ok(Some((1, Value::Nil))));
    assert_eq!(
        values(&[0xba, 0x01, 0xbf]),
        Err(Unsupported)
    );
}

#[test]
fn bytes_after_the_read_do_not_matter() {
    let whole = [0xba, 0x02, 0x01, 0x81, 0x80, 0x07];
    let array = Value::Array(vec![Value::FixInt(1), Value::U16(1920)].into());
    assert_eq!(Value::take_from(&whole), Some((6, array)));
    for extra in [vec![], vec![0x00], vec![0xbf, 0xff]] {
        let mut bytes = whole.to_vec();
        bytes.extend_from_slice(&extra);
        let array = Value::Array(vec![Value::FixInt(1), Value::U16(1920)].into());
        assert_eq!(Value::take_from(&bytes), Some((6, array)));
    }
    // An error's code is read one byte past what the read reports.
    assert_eq!(
        Value::take_from(&[0xb6, 0x05, 0x07]),
        Some((2, Value::Error(Error { inner: 7 })))
    );
    assert_eq!(Value::take_from(&[0xb6, 0x05]), None);
    // An empty variant looks no further than the value it drops.
    assert_eq!(
        Value::take_from(&[0xb8, 0xff, 0xbe, 0x01]),
        Some((3, Variant::new_none().into()))
    );
    assert_eq!(Value::take_from(&[0xb8, 0xff, 0xbe]), Some((3, Variant::new_none().into())));
    // No read looks further than one byte past what it reports.
    assert_eq!(
        Value::take_from(&[0xb6, 0x05, 0x07, 0xbf, 0x00]),
        Some((2, Value::Error(Error { inner: 7 })))
    );
    assert_eq!(
        Value::take_from(&[0xb7, 0x01, 0x02, 0x03, 0xbf]),
        Some((3, Value::Handle(Handle { value: Box::new(Value::FixInt(1)), ref_num: 3 })))
    );
}

#[test]
fn byte_string_reads_back() {
    let data = [1u8, 2, 3, 0xbf];
    let mut w = vec![0xbc];
    let k = write_bytes(&data, &mut w);
    assert_eq!(k as u64, bytes_expected_size(&data));
    assert_eq!(bytes(&w), Some((k, data.to_vec())));
    assert_eq!(Value::take_from(&w), Some((k + 1, Value::Bytes(data.to_vec().into()))));
}
