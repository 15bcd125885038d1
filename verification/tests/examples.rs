use value_codec::values;
use value_codec::Value;

#[test]
fn given_example() {
    let bytes = vec![
        0xBA, 0x04, 0xBD, 0x04, 0x61, 0x62, 0x63, 0x64, 0xBD, 0x04, 0x31, 0x32, 0x33, 0x34,
        0xBD, 0x04, 0x41, 0x42, 0x43, 0x44, 0xBD, 0x04, 0x32, 0x34, 0x36, 0x38,
    ];
    let (len, parsed) = Value::take_from(&bytes).unwrap();
    assert_eq!(len, bytes.len());

    let value = Value::Array(
        vec![
            String::from("abcd").into(),
            String::from("1234").into(),
            String::from("ABCD").into(),
            String::from("2468").into(),
        ]
        .into(),
    );

    let expected_size = value.expected_size();

    assert_eq!(expected_size, len as u64);
    assert_eq!(parsed, value);

    let mut buf = vec![];
    let written_len = value.write(&mut buf);
    assert_eq!(written_len as u64, expected_size);
    assert_eq!(buf, bytes);
}

#[test]
fn string() {
    let bytes = vec![0xBD, 0x04, 0x61, 0x62, 0x63, 0x64];
    let (len, parsed) = Value::take_from(&bytes).unwrap();
    assert_eq!(len, bytes.len());
    assert_eq!(parsed, String::from("abcd").into());
}

#[test]
fn lib_variant() {
    let bytes = vec![184, 0, 186, 2, 129, 128, 7, 129, 176, 4];
    let (len, parsed) = Value::take_from(&bytes).unwrap();
    assert_eq!(len, bytes.len());
    assert_eq!(
        parsed,
        values::Variant::new_some(Value::Array(
            vec![Value::U16(1920), Value::U16(1200)].into()
        ))
        .into()
    )
}
