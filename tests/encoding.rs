use percent_encoding::percent_decode_str;
use serde_metaform::error::{Error, ErrorInner};
use serde_metaform::json::{
    KeySerializerNoQuotes, MapSerializer, SeqSerializer, StructVariantSerializer,
    TupleVariantSerializer,
};
use serde_metaform::value::{FloatWidth, IntWidth, SeqKind, Value};
use serde_metaform::write::PercentEncoding;
use serde_metaform::{display, to_string, to_vec, to_writer, Serializer};

fn text(s: &str) -> Value {
    Value::Str(s.to_string())
}

fn i64v(v: i64) -> Value {
    Value::Int(v as i128, IntWidth::W64)
}

fn field(name: &str, value: Value) -> (String, Value) {
    (name.to_string(), value)
}

fn nan() -> Value {
    Value::Float(None, FloatWidth::F64)
}

fn decode(s: &str) -> String {
    percent_decode_str(s).decode_utf8().unwrap().to_string()
}

#[test]
fn scalar_fields_decode_back() {
    let record = Value::Record(vec![
        field("id", i64v(-7)),
        field("flag", Value::Bool(true)),
        field("name & co=", text("x=1&y=\"é\"")),
        field("ratio", Value::Float(Some("0.25".to_string()), FloatWidth::F64)),
    ]);
    let body = to_string(&record).unwrap();
    let pairs: Vec<(String, String)> = body
        .split('&')
        .map(|p| {
            let (k, v) = p.split_once('=').unwrap();
            (decode(k), decode(v))
        })
        .collect();
    assert_eq!(
        pairs,
        vec![
            ("id".to_string(), "-7".to_string()),
            ("flag".to_string(), "true".to_string()),
            ("name & co=".to_string(), "x=1&y=\"é\"".to_string()),
            ("ratio".to_string(), "0.25".to_string()),
        ]
    );
}

#[test]
fn empty_record_gives_empty_body() {
    assert_eq!(to_string(&Value::Record(vec![])).unwrap(), "");
    assert_eq!(to_string(&Value::Mapping(vec![])).unwrap(), "");
    assert_eq!(to_string(&Value::Unit).unwrap(), "");
    assert_eq!(to_string(&Value::OptionNone).unwrap(), "");
}

#[test]
fn nested_string_is_quoted_and_escaped() {
    let record = Value::Record(vec![field(
        "key",
        Value::Sequence(vec![text("a \"b\"")], SeqKind::Sequence),
    )]);
    assert_eq!(
        to_string(&record).unwrap(),
        "key=%5B%22a%20%5C%22b%5C%22%22%5D"
    );
}

#[test]
fn field_string_is_unquoted() {
    let record = Value::Record(vec![field("q", text("a \"key\"=value"))]);
    assert_eq!(to_string(&record).unwrap(), "q=a%20%22key%22%3Dvalue");
}

#[test]
fn encoding_twice_gives_the_same_bytes() {
    let record = Value::Record(vec![
        field("a", Value::Mapping(vec![(text("k"), i64v(1))])),
        field("b", text("v w")),
    ]);
    let first = to_string(&record).unwrap();
    let second = to_string(&record).unwrap();
    assert_eq!(first, second);
    assert_eq!(first, "a=%7B%22k%22%3A1%7D&b=v%20w");
}

#[test]
fn nan_field_is_null_and_nan_key_fails() {
    let record = Value::Record(vec![field("x", nan())]);
    assert_eq!(to_string(&record).unwrap(), "x=null");
    let nested = Value::Record(vec![field("x", Value::Sequence(vec![nan()], SeqKind::Sequence))]);
    assert_eq!(to_string(&nested).unwrap(), "x=%5Bnull%5D");

    let map = Value::Mapping(vec![(nan(), i64v(1))]);
    assert_eq!(to_string(&map).unwrap_err().inner, ErrorInner::FloatKeyMustBeFinite);
    let inner = Value::Record(vec![field("m", Value::Mapping(vec![(nan(), i64v(1))]))]);
    assert_eq!(to_string(&inner).unwrap_err().inner, ErrorInner::FloatKeyMustBeFinite);
}

#[test]
fn scalar_and_sequence_roots_fail() {
    let cases: Vec<(Value, &str)> = vec![
        (Value::Bool(false), "bool"),
        (Value::Int(1, IntWidth::W8), "i8"),
        (Value::Int(1, IntWidth::W16), "i16"),
        (Value::Int(1, IntWidth::W64), "i64"),
        (Value::UInt(1, IntWidth::W8), "u8"),
        (Value::UInt(1, IntWidth::W64), "u64"),
        (Value::Float(Some("1.5".to_string()), FloatWidth::F32), "f32"),
        (nan(), "f64"),
        (Value::Char('c'), "char"),
        (text(""), "str"),
        (Value::Bytes(vec![1, 2]), "bytes"),
        (Value::Sequence(vec![], SeqKind::Sequence), "Seq"),
        (Value::Sequence(vec![i64v(1)], SeqKind::TupleStruct), "TupleStruct"),
    ];
    for (value, name) in cases {
        assert_eq!(to_string(&value).unwrap_err().inner, ErrorInner::NotAnObject(name));
    }
}

#[test]
fn wide_integer_root_fails() {
    let err = to_string(&Value::Int(5, IntWidth::W128)).unwrap_err();
    assert_eq!(err.inner, ErrorInner::NotAnObject("i128"));
    let err = to_string(&Value::UInt(5, IntWidth::W128)).unwrap_err();
    assert_eq!(err.message(), "Top-level value must be a struct or map, but got u128");
    assert_eq!(Error::custom("i128 is not supported").inner, ErrorInner::Message("i128 is not supported".to_string()));
}

#[test]
fn composite_key_fails() {
    let map = Value::Mapping(vec![(Value::Record(vec![]), i64v(1))]);
    assert_eq!(to_string(&map).unwrap_err().inner, ErrorInner::KeyMustBeAString("struct"));
    let map = Value::Mapping(vec![
        (text("ok"), i64v(1)),
        (Value::Unit, i64v(2)),
    ]);
    assert_eq!(to_string(&map).unwrap_err().inner, ErrorInner::KeyMustBeAString("()"));
}

#[test]
fn scalar_keys_are_written_unquoted() {
    let map = Value::Mapping(vec![
        (i64v(-3), text("a")),
        (Value::Bool(true), text("b")),
        (Value::Char('&'), text("c")),
        (Value::UnitVariant("V".to_string()), text("d")),
    ]);
    assert_eq!(to_string(&map).unwrap(), "-3=a&true=b&%26=c&V=d");
}

#[test]
fn error_messages() {
    assert_eq!(
        to_string(&Value::Bool(true)).unwrap_err().message(),
        "Top-level value must be a struct or map, but got bool"
    );
    let map = Value::Mapping(vec![(Value::Bytes(vec![]), i64v(1))]);
    assert_eq!(
        to_string(&map).unwrap_err().message(),
        "Map key must be a string, but got bytes"
    );
    assert_eq!(Error::sink_failure().message(), "Error writing to the underlying write");
    assert_eq!(Error::custom("bad value").message(), "bad value");
    assert_eq!(Error::sink_failure().inner, ErrorInner::Fmt);
}

#[test]
fn control_characters_are_escaped() {
    let mut writer = PercentEncoding::new(String::new());
    writer.write_escaped("a\nb\u{1}\t");
    assert_eq!(writer.output(), "a%5Cnb%5Cu0001%5Ct");
}

#[test]
fn extreme_integers_and_non_ascii_text() {
    let mut writer = PercentEncoding::new(String::new());
    writer.write_integer(i128::MIN);
    assert_eq!(writer.output(), "-170141183460469231731687303715884105728");
    let mut writer = PercentEncoding::new(String::new());
    writer.write_unsigned(u128::MAX);
    assert_eq!(writer.output(), "340282366920938463463374607431768211455");
    let mut writer = PercentEncoding::new(String::new());
    writer.write_str("é ~-._");
    assert_eq!(writer.output(), "%C3%A9%20~-._");
}

#[test]
fn bytes_char_and_unit_values() {
    let record = Value::Record(vec![
        field("b", Value::Bytes(vec![0, 255])),
        field("c", Value::Char('"')),
        field("u", Value::UnitStruct),
        field("v", Value::UnitVariant("On Hold".to_string())),
    ]);
    assert_eq!(to_string(&record).unwrap(), "b=%5B0%2C255%5D&c=%22&u=null&v=On%20Hold");
}

#[test]
fn top_level_variants() {
    let tuple = Value::TupleVariant("T".to_string(), vec![i64v(1), text("x")]);
    assert_eq!(to_string(&tuple).unwrap(), "T=%5B1%2C%22x%22%5D");
    let record = Value::StructVariant("S".to_string(), vec![field("a", Value::Bool(false))]);
    assert_eq!(to_string(&record).unwrap(), "S=%7B%22a%22%3Afalse%7D");
}

#[test]
fn to_vec_and_to_writer_and_display() {
    let record = Value::Record(vec![field("k", text("v"))]);
    assert_eq!(to_vec(&record).unwrap(), b"k=v".to_vec());
    let mut out = "prefix:".to_string();
    to_writer(&mut out, &record).unwrap();
    assert_eq!(out, "prefix:k=v");
    assert_eq!(display(&record).to_string().unwrap(), "k=v");
    assert!(to_vec(&Value::Bool(true)).is_err());
}

#[test]
fn streaming_serializers() {
    let mut seq = SeqSerializer::new(PercentEncoding::new(String::new()), None);
    seq.serialize_element(&i64v(1)).unwrap();
    seq.serialize_element(&text("a")).unwrap();
    assert_eq!(seq.end().into_inner(), "%5B1%2C%22a%22%5D");

    let mut map = MapSerializer::new(PercentEncoding::new(String::new()), Some(2));
    map.serialize_entry(&text("k"), &i64v(1)).unwrap();
    map.serialize_key(&i64v(2)).unwrap();
    map.serialize_value(&Value::Unit).unwrap();
    map.serialize_field("f", &Value::Bool(true)).unwrap();
    assert_eq!(
        map.end().into_inner(),
        "%7B%22k%22%3A1%2C%222%22%3Anull%2C%22f%22%3Atrue%7D"
    );

    let mut tv = TupleVariantSerializer::new(PercentEncoding::new(String::new()), "T", 1);
    tv.serialize_field(&i64v(5)).unwrap();
    assert_eq!(tv.end().into_inner(), "%7B%22T%22%3A%5B5%5D%7D");

    let mut sv = StructVariantSerializer::new(PercentEncoding::new(String::new()), "S", 1);
    sv.serialize_field("a", &i64v(5)).unwrap();
    assert_eq!(sv.end().into_inner(), "%7B%22S%22%3A%7B%22a%22%3A5%7D%7D");

    let key = KeySerializerNoQuotes { output: PercentEncoding::new(String::new()), escaped: true };
    assert_eq!(key.serialize(&text("a\"b")).unwrap().into_inner(), "a%5C%22b");
    let key = KeySerializerNoQuotes { output: PercentEncoding::new(String::new()), escaped: false };
    assert!(key.serialize(&Value::Mapping(vec![])).is_err());
}

#[test]
fn top_level_streaming() {
    let mut ser = Serializer::new(String::new());
    ser.serialize_entry(&text("a b"), &text("c")).unwrap();
    ser.serialize_field("n", &i64v(2)).unwrap();
    assert_eq!(ser.into_inner(), "a%20b=c&n=2");

    let mut ser = Serializer::new(String::new());
    ser.serialize_key(&text("x")).unwrap();
    ser.serialize_value(&i64v(1)).unwrap();
    let mut tv = ser.serialize_tuple_variant("T", 2);
    tv.serialize_field(&i64v(1)).unwrap();
    tv.serialize_field(&i64v(2)).unwrap();
    assert_eq!(tv.end(), "x=1&T=%5B1%2C2%5D");

    let ser = Serializer::new(String::new());
    let mut sv = ser.serialize_struct_variant("S", 1);
    sv.serialize_field("a", &text("b")).unwrap();
    assert_eq!(sv.end(), "S=%7B%22a%22%3A%22b%22%7D");
}

#[test]
fn rejected_root_leaves_destination_alone() {
    let mut out = "kept".to_string();
    let err = to_writer(&mut out, &Value::Sequence(vec![i64v(1)], SeqKind::Sequence)).unwrap_err();
    assert_eq!(err.inner, ErrorInner::NotAnObject("Seq"));
    assert_eq!(out, "kept");
    let err = to_writer(&mut out, &Value::UInt(1, IntWidth::W128)).unwrap_err();
    assert_eq!(err.inner, ErrorInner::NotAnObject("u128"));
    assert_eq!(out, "kept");
}
