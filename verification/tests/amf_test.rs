use shiguredo_rtmp::amf::Pair;
use shiguredo_rtmp::float64::Float64;
use shiguredo_rtmp::{Amf0Value, Amf3Value, AmfValue, AmfVersion, ErrorKind};

fn round_trip(bytes: &[u8], version: AmfVersion) -> AmfValue {
    let (n, value) = AmfValue::decode(bytes, version).unwrap();
    assert_eq!(n, bytes.len());
    let mut out = Vec::new();
    value.encode(&mut out);
    assert_eq!(out, bytes);
    value
}

#[test]
fn amf0_values() {
    assert_eq!(
        round_trip(&[0x00, 0x3F, 0xF0, 0, 0, 0, 0, 0, 0], AmfVersion::Amf0),
        AmfValue::Amf0(Amf0Value::Number(Float64::from_bits(0x3FF0_0000_0000_0000)))
    );
    assert_eq!(round_trip(&[0x01, 0x01], AmfVersion::Amf0), AmfValue::Amf0(Amf0Value::Boolean(true)));
    assert_eq!(
        round_trip(&[0x02, 0x00, 0x02, b'h', b'i'], AmfVersion::Amf0),
        AmfValue::Amf0(Amf0Value::String("hi".to_owned()))
    );
    assert_eq!(round_trip(&[0x05], AmfVersion::Amf0), AmfValue::Amf0(Amf0Value::Null));
    assert_eq!(
        round_trip(&[0x03, 0x00, 0x01, b'a', 0x05, 0x00, 0x00, 0x09], AmfVersion::Amf0),
        AmfValue::Amf0(Amf0Value::Object {
            class_name: None,
            entries: vec![Pair { key: "a".to_owned(), value: Amf0Value::Null }],
        })
    );
}

#[test]
fn amf0_errors() {
    assert_eq!(AmfValue::decode(&[0x02, 0x00, 0x05, b'h'], AmfVersion::Amf0).unwrap_err().kind, ErrorKind::InsufficientBuffer);
    assert_eq!(AmfValue::decode(&[0x02, 0x00, 0x01, 0xFF], AmfVersion::Amf0).unwrap_err().kind, ErrorKind::InvalidData);
    assert_eq!(AmfValue::decode(&[], AmfVersion::Amf0).unwrap_err().kind, ErrorKind::InsufficientBuffer);
}

#[test]
fn amf3_values() {
    assert_eq!(round_trip(&[0x04, 0x05], AmfVersion::Amf3), AmfValue::Amf3(Amf3Value::Integer(5)));
    assert_eq!(round_trip(&[0x04, 0x81, 0x00], AmfVersion::Amf3), AmfValue::Amf3(Amf3Value::Integer(128)));
    assert_eq!(
        round_trip(&[0x06, 0x05, b'h', b'i'], AmfVersion::Amf3),
        AmfValue::Amf3(Amf3Value::String("hi".to_owned()))
    );
    assert_eq!(round_trip(&[0x03], AmfVersion::Amf3), AmfValue::Amf3(Amf3Value::Boolean(true)));
}

#[test]
fn string_and_number_helpers() {
    assert_eq!(AmfValue::string(AmfVersion::Amf3, "x"), AmfValue::Amf3(Amf3Value::String("x".to_owned())));
    assert_eq!(
        AmfValue::number(AmfVersion::Amf0, Float64::zero()),
        AmfValue::Amf0(Amf0Value::Number(Float64::zero()))
    );
    assert_eq!(AmfValue::string(AmfVersion::Amf0, "x").expect_str().unwrap(), "x");
    assert_eq!(AmfValue::Amf0(Amf0Value::Null).expect_number().unwrap_err().kind, ErrorKind::InvalidData);
}

fn encode_then_decode(value: Amf0Value) {
    let mut out = Vec::new();
    value.encode(&mut out);
    out.extend_from_slice(&[0xAA, 0xBB]);
    let (n, back) = Amf0Value::decode(&out).unwrap();
    assert_eq!(n, out.len() - 2);
    assert_eq!(back, value);
}

#[test]
fn amf0_encode_then_decode() {
    encode_then_decode(Amf0Value::Number(Float64::from_bits(0x4059_0000_0000_0000)));
    encode_then_decode(Amf0Value::Boolean(false));
    encode_then_decode(Amf0Value::String("日本".to_owned()));
    encode_then_decode(Amf0Value::String("x".repeat(70000)));
    encode_then_decode(Amf0Value::Undefined);
    encode_then_decode(Amf0Value::XmlDocument("<a/>".to_owned()));
    encode_then_decode(Amf0Value::Date { unix_time: std::time::Duration::from_millis(1_700_000_000_123) });
    encode_then_decode(Amf0Value::Array { entries: vec![Amf0Value::Null, Amf0Value::String(String::new())] });
    encode_then_decode(Amf0Value::EcmaArray {
        entries: vec![
            Pair { key: String::new(), value: Amf0Value::Boolean(true) },
            Pair { key: "k".to_owned(), value: Amf0Value::Array { entries: vec![] } },
        ],
    });
    encode_then_decode(Amf0Value::Object {
        class_name: Some("Point".to_owned()),
        entries: vec![
            Pair { key: "x".to_owned(), value: Amf0Value::Number(Float64::zero()) },
            Pair {
                key: "inner".to_owned(),
                value: Amf0Value::Object { class_name: None, entries: vec![] },
            },
        ],
    });
}

fn encode_then_decode3(value: Amf3Value) {
    let mut out = Vec::new();
    value.encode(&mut out);
    out.push(0xCC);
    let (n, back) = Amf3Value::decode(&out).unwrap();
    assert_eq!(n, out.len() - 1);
    assert_eq!(back, value);
}

fn member(key: &str, value: Amf3Value) -> Pair<String, Amf3Value> {
    Pair { key: key.to_owned(), value }
}

#[test]
fn amf3_encode_then_decode() {
    encode_then_decode3(Amf3Value::Integer(-5));
    encode_then_decode3(Amf3Value::Integer(0x0FFF_FFFF));
    encode_then_decode3(Amf3Value::Integer(-0x1000_0000));
    encode_then_decode3(Amf3Value::Double(Float64::from_bits(0xC000_0000_0000_0000)));
    encode_then_decode3(Amf3Value::String(String::new()));
    encode_then_decode3(Amf3Value::Xml("<x/>".to_owned()));
    encode_then_decode3(Amf3Value::Date { unix_time: std::time::Duration::from_millis(86_400_000) });
    encode_then_decode3(Amf3Value::ByteArray(vec![0, 1, 255]));
    encode_then_decode3(Amf3Value::IntVector { is_fixed: true, entries: vec![-1, 0, i32::MAX] });
    encode_then_decode3(Amf3Value::UintVector { is_fixed: false, entries: vec![u32::MAX] });
    encode_then_decode3(Amf3Value::DoubleVector { is_fixed: false, entries: vec![Float64::zero()] });
    encode_then_decode3(Amf3Value::Array {
        assoc_entries: vec![member("a", Amf3Value::Null)],
        dense_entries: vec![Amf3Value::String("s".to_owned()), Amf3Value::String("s".to_owned())],
    });
    encode_then_decode3(Amf3Value::Object {
        class_name: Some("C".to_owned()),
        sealed_count: 1,
        entries: vec![member("", Amf3Value::Boolean(true)), member("d", Amf3Value::Undefined)],
    });
    encode_then_decode3(Amf3Value::Object { class_name: None, sealed_count: 0, entries: vec![] });
    encode_then_decode3(Amf3Value::ObjectVector {
        class_name: None,
        is_fixed: false,
        entries: vec![Amf3Value::Integer(1)],
    });
    encode_then_decode3(Amf3Value::ObjectVector {
        class_name: Some("T".to_owned()),
        is_fixed: true,
        entries: vec![],
    });
    encode_then_decode3(Amf3Value::Dictionary {
        is_weak: true,
        entries: vec![Pair { key: Amf3Value::Integer(3), value: Amf3Value::XmlDocument("d".to_owned()) }],
    });
}

#[test]
fn amf0_embeds_amf3() {
    encode_then_decode(Amf0Value::AvmPlus(Amf3Value::Array {
        assoc_entries: vec![],
        dense_entries: vec![Amf3Value::Integer(7)],
    }));
}

#[test]
fn amf0_dates_keep_whole_milliseconds_only() {
    let value = Amf0Value::Date { unix_time: std::time::Duration::new(1, 1) };
    let mut out = Vec::new();
    value.encode(&mut out);
    let (n, back) = Amf0Value::decode(&out).unwrap();
    assert_eq!(n, out.len());
    assert_eq!(back, Amf0Value::Date { unix_time: std::time::Duration::from_millis(1000) });
    assert_ne!(format!("{back:?}"), format!("{value:?}"));
}

fn decode_encode_decode(bytes: &[u8], version: AmfVersion) -> AmfValue {
    let (_, value) = AmfValue::decode(bytes, version).unwrap();
    let mut out = Vec::new();
    value.encode(&mut out);
    out.extend_from_slice(&[0xAA, 0xBB]);
    let (n, again) = AmfValue::decode(&out, version).unwrap();
    assert_eq!(n, out.len() - 2);
    assert_eq!(again, value);
    value
}

#[test]
fn decoded_values_encode_and_decode_back() {
    let v = decode_encode_decode(&[0x09, 0x05, 0x01, 0x06, 0x05, b'h', b'i', 0x06, 0x00], AmfVersion::Amf3);
    assert_eq!(
        v,
        AmfValue::Amf3(Amf3Value::Array {
            assoc_entries: vec![],
            dense_entries: vec![Amf3Value::String("hi".to_owned()), Amf3Value::String("hi".to_owned())],
        })
    );
    let v = decode_encode_decode(&[0x04, 0xC0, 0x80, 0x80, 0x00], AmfVersion::Amf3);
    assert_eq!(v, AmfValue::Amf3(Amf3Value::Integer(-0x1000_0000)));
    let v = decode_encode_decode(
        &[0x0A, 0x00, 0x00, 0x00, 0x02, 0x03, 0x00, 0x00, 0x09, 0x07, 0x00, 0x01],
        AmfVersion::Amf0,
    );
    let empty = || Amf0Value::Object { class_name: None, entries: vec![] };
    assert_eq!(v, AmfValue::Amf0(Amf0Value::Array { entries: vec![empty(), empty()] }));
}
