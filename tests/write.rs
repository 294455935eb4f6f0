use serde_metaform::to_string;
use serde_metaform::value::Value;
use serde_metaform::write::PercentEncoding;

#[test]
fn trait_evaluation_overflow() {
    // A unit value and a struct holding an empty map of its own kind.
    let _ = to_string(&Value::Unit);
    let nested = Value::Record(vec![("value".to_string(), Value::Mapping(vec![]))]);
    let _ = to_string(&nested);
}

#[test]
fn test_percent_encoding_writer() {
    let mut writer = PercentEncoding::new(String::new());
    writer.write_str("hello world");
    assert_eq!(writer.output(), "hello%20world");

    let mut writer = PercentEncoding::new(String::new());
    writer.write_null();
    assert_eq!(writer.output(), "null");

    let mut writer = PercentEncoding::new(String::new());
    writer.write_bool(true);
    assert_eq!(writer.output(), "true");

    let mut writer = PercentEncoding::new(String::new());
    writer.write_integer(-123);
    assert_eq!(writer.output(), "-123");

    let mut writer = PercentEncoding::new(String::new());
    writer.write_str(ryu::Buffer::new().format_finite(45.67f64));
    assert_eq!(writer.output(), "45.67");

    let mut writer = PercentEncoding::new(String::new());
    writer.write_colon();
    writer.write_comma();
    writer.write_left_bracket();
    writer.write_quote();
    assert_eq!(writer.output(), "%3A%2C%7B%22");

    let mut writer = PercentEncoding::new(String::new());
    writer.write_byte_array(&[10, 20, 30]);
    assert_eq!(writer.into_inner(), "%5B10%2C20%2C30%5D");
}

#[test]
fn test_escaping_percent_encoding_writer() {
    let mut writer = PercentEncoding::new(String::new());
    writer.write_escaped("key=value");
    assert_eq!(writer.output(), "key%3Dvalue");

    let mut writer = PercentEncoding::new(String::new());
    writer.write_escaped("\"hello\\world\"");
    assert_eq!(writer.output(), "%5C%22hello%5C%5Cworld%5C%22");

    let mut writer = PercentEncoding::new(String::new());
    writer.write_escaped("a \"quoted\" string");
    assert_eq!(writer.output(), "a%20%5C%22quoted%5C%22%20string");

    let mut writer = PercentEncoding::new(String::new());
    writer.write_null();
    assert_eq!(writer.output(), "null");

    let mut writer = PercentEncoding::new(String::new());
    writer.write_integer(999);
    assert_eq!(writer.output(), "999");
}

fn write_some_data(w: &mut PercentEncoding) {
    w.write_left_bracket();
    w.write_integer(1);
    w.write_comma();
    w.write_integer(2);
    w.write_right_bracket();
}

#[test]
fn test_as_mut_functionality() {
    let mut writer = PercentEncoding::new(String::new());
    write_some_data(&mut writer);
    assert_eq!(writer.into_inner(), "%7B1%2C2%7D");
}

#[test]
fn test_write_byte_array() {
    let mut writer = PercentEncoding::new(String::new());
    writer.write_byte_array(&[]);
    assert_eq!(writer.output(), "%5B%5D");

    let mut writer = PercentEncoding::new(String::new());
    writer.write_byte_array(&[255]);
    assert_eq!(writer.output(), "%5B255%5D");

    let mut writer = PercentEncoding::new(String::new());
    writer.write_byte_array(&[1, 2, 128]);
    assert_eq!(writer.output(), "%5B1%2C2%2C128%5D");
}
