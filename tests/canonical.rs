use opentelemetry_proto::tonic::common::v1::any_value::Value;
use opentelemetry_proto::tonic::common::v1::{AnyValue, ArrayValue, KeyValue};
use otel_ingest::canonical::parse_key_values_to_sorted_string;
use otel_ingest::render::{parse_value_to_str, ValueKind};

fn text(key: &str, value: &str) -> KeyValue {
    KeyValue {
        key: key.to_string(),
        value: Some(AnyValue { value: Some(Value::StringValue(value.to_string())) }),
        key_strindex: 0,
    }
}

fn absent(key: &str) -> KeyValue {
    KeyValue { key: key.to_string(), value: None, key_strindex: 0 }
}

fn empty_wrapper(key: &str) -> KeyValue {
    KeyValue { key: key.to_string(), value: Some(AnyValue { value: None }), key_strindex: 0 }
}

#[test]
fn canonical_of_empty_set_is_empty() {
    assert_eq!(parse_key_values_to_sorted_string(vec![]), Ok(String::new()));
}

#[test]
fn canonical_drops_absent_and_sorts() {
    let r = parse_key_values_to_sorted_string(vec![absent("b"), text("a", "1")]);
    assert_eq!(r, Ok("a=1".to_string()));
}

#[test]
fn canonical_drops_empty_value_wrapper() {
    let r = parse_key_values_to_sorted_string(vec![empty_wrapper("a"), text("b", "2")]);
    assert_eq!(r, Ok("b=2".to_string()));
}

#[test]
fn canonical_all_dropped_is_empty() {
    let r = parse_key_values_to_sorted_string(vec![absent("x"), empty_wrapper("y")]);
    assert_eq!(r, Ok(String::new()));
}

#[test]
fn canonical_sorts_and_joins() {
    let r = parse_key_values_to_sorted_string(vec![
        text("service.name", "api"),
        text("host", "h1"),
        text("env", "prod"),
    ]);
    assert_eq!(r, Ok("env=prod,host=h1,service.name=api".to_string()));
}

#[test]
fn canonical_orders_by_bytes() {
    let r = parse_key_values_to_sorted_string(vec![
        text("b", "1"),
        text("B", "2"),
        text("ab", "3"),
        text("a", "4"),
    ]);
    assert_eq!(r, Ok("B=2,a=4,ab=3,b=1".to_string()));
}

#[test]
fn canonical_keeps_order_of_equal_keys() {
    let r = parse_key_values_to_sorted_string(vec![
        text("k", "first"),
        text("a", "x"),
        text("k", "second"),
        text("k", "third"),
    ]);
    assert_eq!(r, Ok("a=x,k=first,k=second,k=third".to_string()));
}

#[test]
fn canonical_repeated_calls_agree() {
    let input = vec![text("z", "1"), absent("m"), text("a", "2"), text("k", "3")];
    let first = parse_key_values_to_sorted_string(input.clone());
    let second = parse_key_values_to_sorted_string(input);
    assert_eq!(first, second);
    assert_eq!(first, Ok("a=2,k=3,z=1".to_string()));
}

#[test]
fn canonical_keys_come_out_ascending() {
    let input = vec![text("delta", "4"), text("alpha", "1"), text("charlie", "3"), text("bravo", "2")];
    let out = parse_key_values_to_sorted_string(input).unwrap();
    let keys: Vec<&str> = out.split(',').map(|p| p.split('=').next().unwrap()).collect();
    let mut sorted = keys.clone();
    sorted.sort();
    assert_eq!(keys, sorted);
    assert_eq!(keys, vec!["alpha", "bravo", "charlie", "delta"]);
}

#[test]
fn canonical_refuses_unrendered_kind() {
    let int_entry = KeyValue {
        key: "count".to_string(),
        value: Some(AnyValue { value: Some(Value::IntValue(3)) }),
        key_strindex: 0,
    };
    let r = parse_key_values_to_sorted_string(vec![text("a", "1"), int_entry]);
    assert_eq!(r, Err(ValueKind::Int));
}

#[test]
fn canonical_reports_first_failure_in_key_order() {
    let b = KeyValue {
        key: "b".to_string(),
        value: Some(AnyValue { value: Some(Value::BoolValue(true)) }),
        key_strindex: 0,
    };
    let a = KeyValue {
        key: "a".to_string(),
        value: Some(AnyValue { value: Some(Value::BytesValue(vec![1])) }),
        key_strindex: 0,
    };
    assert_eq!(parse_key_values_to_sorted_string(vec![b, a]), Err(ValueKind::Bytes));
}

#[test]
fn render_string_verbatim() {
    assert_eq!(parse_value_to_str(Value::StringValue("a b=c".to_string())), Ok("a b=c".to_string()));
}

#[test]
fn render_refuses_each_other_kind() {
    assert_eq!(parse_value_to_str(Value::BoolValue(false)), Err(ValueKind::Bool));
    assert_eq!(parse_value_to_str(Value::IntValue(-1)), Err(ValueKind::Int));
    assert_eq!(parse_value_to_str(Value::DoubleValue(1.5)), Err(ValueKind::Double));
    assert_eq!(
        parse_value_to_str(Value::ArrayValue(ArrayValue { values: vec![] })),
        Err(ValueKind::Array)
    );
    assert_eq!(
        parse_value_to_str(Value::KvlistValue(Default::default())),
        Err(ValueKind::KeyValueList)
    );
    assert_eq!(parse_value_to_str(Value::BytesValue(vec![])), Err(ValueKind::Bytes));
    assert_eq!(parse_value_to_str(Value::StringValueStrindex(2)), Err(ValueKind::StringIndex));
}
