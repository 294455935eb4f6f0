use serde_metaform::error::Error;
use serde_metaform::json::JsonSerializer;
use serde_metaform::value::{FloatWidth, IntWidth, SeqKind, Value};
use serde_metaform::write::PercentEncoding;

fn to_string(value: &Value) -> Result<String, Error> {
    let serializer = JsonSerializer {
        output: PercentEncoding::new(String::with_capacity(128)),
        is_top_level_value: false,
    };
    Ok(serializer.serialize(value)?.into_inner())
}

fn to_string_top_level(value: &Value) -> Result<String, Error> {
    let serializer = JsonSerializer {
        output: PercentEncoding::new(String::new()),
        is_top_level_value: true,
    };
    Ok(serializer.serialize(value)?.into_inner())
}

fn float(v: f64) -> Value {
    if v.is_finite() {
        Value::Float(Some(ryu::Buffer::new().format_finite(v).to_string()), FloatWidth::F64)
    } else {
        Value::Float(None, FloatWidth::F64)
    }
}

fn i32v(v: i32) -> Value {
    Value::Int(v as i128, IntWidth::W32)
}

fn uint(v: u32) -> Value {
    Value::UInt(v as u128, IntWidth::W32)
}

fn text(s: &str) -> Value {
    Value::Str(s.to_string())
}

#[test]
#[allow(clippy::approx_constant)]
fn test_primitives() {
    assert_eq!(to_string(&Value::Bool(true)).unwrap(), "true");
    assert_eq!(to_string(&i32v(-42)).unwrap(), "-42");
    assert_eq!(to_string(&float(3.14)).unwrap(), "3.14");
    assert_eq!(to_string(&Value::Unit).unwrap(), "null");
    assert_eq!(to_string(&Value::OptionNone).unwrap(), "null");
    assert_eq!(to_string(&i32v(100)).unwrap(), "100");
}

#[test]
fn test_floats_non_finite() {
    assert_eq!(to_string(&float(f64::NAN)).unwrap(), "null");
    assert_eq!(to_string(&float(f64::INFINITY)).unwrap(), "null");
    assert_eq!(to_string(&float(f64::NEG_INFINITY)).unwrap(), "null");
}

#[test]
fn test_string() {
    assert_eq!(to_string(&text("hello")).unwrap(), "%22hello%22");
    assert_eq!(to_string(&text("a \"b\"")).unwrap(), "%22a%20%5C%22b%5C%22%22");
}

#[test]
fn test_top_level_string() {
    assert_eq!(
        to_string_top_level(&text("a \"key\"=value")).unwrap(),
        "a%20%22key%22%3Dvalue"
    );
}

#[test]
fn test_seq() {
    let vec = Value::Sequence(vec![i32v(1), i32v(2), i32v(3)], SeqKind::Sequence);
    assert_eq!(to_string(&vec).unwrap(), "%5B1%2C2%2C3%5D");

    let tuple = Value::Sequence(vec![Value::Bool(true), text("hello"), i32v(42)], SeqKind::Tuple);
    assert_eq!(to_string(&tuple).unwrap(), "%5Btrue%2C%22hello%22%2C42%5D");

    let empty = Value::Sequence(vec![], SeqKind::Sequence);
    assert_eq!(to_string(&empty).unwrap(), "%5B%5D");
}

#[test]
fn test_map() {
    let map = Value::Mapping(vec![(text("a key"), i32v(1)), (text("b key"), i32v(2))]);
    assert_eq!(
        to_string(&map).unwrap(),
        "%7B%22a%20key%22%3A1%2C%22b%20key%22%3A2%7D"
    );

    let empty = Value::Mapping(vec![]);
    assert_eq!(to_string(&empty).unwrap(), "%7B%7D");
}

#[test]
fn test_struct() {
    let s = Value::Record(vec![
        ("x".to_string(), i32v(1)),
        ("y".to_string(), text("hi")),
        ("z".to_string(), Value::Bool(false)),
    ]);
    assert_eq!(
        to_string(&s).unwrap(),
        "%7B%22x%22%3A1%2C%22y%22%3A%22hi%22%2C%22z%22%3Afalse%7D"
    );
}

#[test]
fn test_enum() {
    let e1 = Value::UnitVariant("Unit".to_string());
    assert_eq!(to_string(&e1).unwrap(), "%22Unit%22");

    let e2 = Value::NewtypeVariant("Newtype".to_string(), Box::new(uint(123)));
    assert_eq!(to_string(&e2).unwrap(), "%7B%22Newtype%22%3A123%7D");

    let e3 = Value::TupleVariant("Tuple".to_string(), vec![uint(1), uint(2)]);
    assert_eq!(to_string(&e3).unwrap(), "%7B%22Tuple%22%3A%5B1%2C2%5D%7D");

    let e4 = Value::StructVariant(
        "Struct".to_string(),
        vec![("a".to_string(), uint(1)), ("b".to_string(), uint(2))],
    );
    assert_eq!(
        to_string(&e4).unwrap(),
        "%7B%22Struct%22%3A%7B%22a%22%3A1%2C%22b%22%3A2%7D%7D"
    );
}

#[test]
fn test_invalid_key() {
    let map = Value::Mapping(vec![(
        Value::Sequence(vec![i32v(1)], SeqKind::Tuple),
        i32v(3),
    )]);
    to_string(&map).unwrap_err();
}
