use serde_metaform::error::ErrorInner;
use serde_metaform::to_string;
use serde_metaform::value::{IntWidth, SeqKind, Value};

fn u32v(v: u32) -> Value {
    Value::UInt(v as u128, IntWidth::W32)
}

fn u64v(v: u64) -> Value {
    Value::UInt(v as u128, IntWidth::W64)
}

fn i32v(v: i32) -> Value {
    Value::Int(v as i128, IntWidth::W32)
}

fn text(s: &str) -> Value {
    Value::Str(s.to_string())
}

fn field(name: &str, value: Value) -> (String, Value) {
    (name.to_string(), value)
}

fn complex_payload(recipient: &str, amount: u32, id: u64, key: Option<&str>, active: bool) -> Value {
    let mut fields = vec![
        field(
            "field",
            Value::Record(vec![field("recipient", text(recipient)), field("amount", u32v(amount))]),
        ),
        field("id", u64v(id)),
    ];
    // The field is skipped when it holds no value.
    if let Some(k) = key {
        fields.push(field("key", text(k)));
    }
    fields.push(field("is_active", Value::Bool(active)));
    Value::Record(fields)
}

#[test]
fn test_simple_struct() {
    let payload = Value::Record(vec![field("id", u64v(123)), field("name", text("John Doe"))]);
    let result = to_string(&payload).unwrap();
    assert_eq!(result, "id=123&name=John%20Doe");
}

#[test]
fn test_special_chars() {
    // Entries in key order, as an ordered map gives them.
    let map = Value::Mapping(vec![
        (text("another key"), text("a=b&c=d")),
        (text("key w/ spaces & symbols"), text("value w/ spaces & symbols")),
    ]);
    let result = to_string(&map).unwrap();
    assert_eq!(
        result,
        "another%20key=a%3Db%26c%3Dd&key%20w%2F%20spaces%20%26%20symbols=value%20w%2F%20spaces%20%26%20symbols"
    );
}

#[test]
fn test_empty_struct() {
    let result = to_string(&Value::UnitStruct).unwrap();
    assert_eq!(result, "");
}

#[test]
fn test_complex_field_json_encoding() {
    let payload = complex_payload("Victor + Sons", 100, 12345, Some("api_key_123"), true);
    let result = to_string(&payload).unwrap();
    let expected_field_value =
        "%7B%22recipient%22%3A%22Victor%20%2B%20Sons%22%2C%22amount%22%3A100%7D";
    let expected = format!(
        "field={}&id=12345&key=api_key_123&is_active=true",
        expected_field_value
    );
    assert_eq!(result, expected);
}

#[test]
fn test_top_level_enum_variants() {
    let pending = Value::UnitVariant("Pending".to_string());
    assert_eq!(
        to_string(&pending).unwrap_err().inner,
        ErrorInner::NotAnObject("UnitVariant")
    );

    let complete = Value::NewtypeVariant("Complete".to_string(), Box::new(u32v(404)));
    assert_eq!(to_string(&complete).unwrap(), "Complete=404");

    let error = Value::StructVariant(
        "Error".to_string(),
        vec![field("code", u32v(500)), field("message", text("Server Issue"))],
    );
    let expected_error_val = "%7B%22code%22%3A500%2C%22message%22%3A%22Server%20Issue%22%7D";
    assert_eq!(
        to_string(&error).unwrap(),
        format!("Error={}", expected_error_val)
    );

    let list = Value::NewtypeVariant(
        "List".to_string(),
        Box::new(Value::Sequence(vec![text("item 1"), text("item/2")], SeqKind::Sequence)),
    );
    let expected_list_val = "%5B%22item%201%22%2C%22item%2F2%22%5D";
    assert_eq!(
        to_string(&list).unwrap(),
        format!("List={}", expected_list_val)
    );
}

#[test]
fn test_skip_none_field() {
    let payload = complex_payload("test", 50, 99, None, false);
    let result = to_string(&payload).unwrap();
    let expected_field_value = "%7B%22recipient%22%3A%22test%22%2C%22amount%22%3A50%7D";
    let expected = format!("field={}&id=99&is_active=false", expected_field_value);
    assert_eq!(result, expected);
}

#[test]
fn test_top_level_errors() {
    let err_int = to_string(&i32v(123)).unwrap_err();
    assert_eq!(err_int.inner, ErrorInner::NotAnObject("i32"));

    let seq = Value::Sequence(vec![i32v(1), i32v(2), i32v(3)], SeqKind::Sequence);
    let err_seq = to_string(&seq).unwrap_err();
    assert_eq!(err_seq.inner, ErrorInner::NotAnObject("Seq"));

    let err_enum = to_string(&Value::UnitVariant("Unit".to_string())).unwrap_err();
    assert_eq!(err_enum.inner, ErrorInner::NotAnObject("UnitVariant"));

    assert_eq!(
        to_string(&i32v(123)).unwrap_err().inner,
        ErrorInner::NotAnObject("i32")
    );
    assert_eq!(
        to_string(&text("a str")).unwrap_err().inner,
        ErrorInner::NotAnObject("str")
    );

    let pair = Value::Sequence(vec![i32v(1), i32v(2)], SeqKind::Sequence);
    assert_eq!(
        to_string(&pair).unwrap_err().inner,
        ErrorInner::NotAnObject("Seq")
    );
    let tuple = Value::Sequence(vec![i32v(1), i32v(4)], SeqKind::Tuple);
    assert_eq!(
        to_string(&tuple).unwrap_err().inner,
        ErrorInner::NotAnObject("Tuple")
    );
}
