use rosbag_msgs::error::RosbagError;
use rosbag_msgs::value::{Duration, F64Bits, FromValue, Time, Value, ValueExt};

fn sample() -> Value {
    Value::Message(vec![
        ("width".to_string(), Value::U32(4)),
        ("name".to_string(), Value::String("cam".to_string())),
        ("data".to_string(), Value::Array(vec![Value::U8(1), Value::U8(2), Value::U8(3)])),
        ("mixed".to_string(), Value::Array(vec![Value::U8(1), Value::I8(2)])),
        (
            "pose".to_string(),
            Value::Message(vec![(
                "position".to_string(),
                Value::Message(vec![("x".to_string(), Value::F64(1.5f64.to_bits()))]),
            )]),
        ),
        ("stamp".to_string(), Value::Time(Time { sec: 3, nsec: 4 })),
        ("width".to_string(), Value::U32(99)),
    ])
}

fn message_text(e: RosbagError) -> String {
    match e {
        RosbagError::MessageParsingError(m) => m,
        other => panic!("unexpected error {:?}", other),
    }
}

#[test]
fn get_reads_typed_fields() {
    let v = sample();
    assert_eq!(v.get::<u32>("width").unwrap(), 4);
    assert_eq!(v.get::<String>("name").unwrap(), "cam");
    assert_eq!(v.get_field("stamp", |x: &Value| x.as_time()).unwrap(), Time { sec: 3, nsec: 4 });
}

#[test]
fn get_reports_each_error() {
    let v = sample();
    assert_eq!(message_text(v.get::<u32>("missing").unwrap_err()), "Field 'missing' not found");
    assert_eq!(message_text(v.get::<u64>("width").unwrap_err()), "Field 'width' is not a u64");
    assert_eq!(message_text(Value::U8(1).get::<u8>("x").unwrap_err()), "Not a map");
}

#[test]
fn get_u8_array_reads_bytes() {
    let v = sample();
    assert_eq!(v.get_u8_array("data").unwrap(), vec![1u8, 2, 3]);
    assert_eq!(
        message_text(v.get_u8_array("mixed").unwrap_err()),
        "Element in 'mixed' is not a u8 value"
    );
    assert_eq!(message_text(v.get_u8_array("name").unwrap_err()), "Field 'name' is not an array");
}

#[test]
fn get_array_and_optional() {
    let v = sample();
    assert_eq!(v.get_array("data").unwrap().len(), 3);
    assert_eq!(v.get_array_optional("nothing").unwrap().len(), 0);
    assert!(v.get_array_optional("name").is_err());
}

#[test]
fn nested_access_follows_fields() {
    let v = sample();
    let x = v.get_nested::<F64Bits>(&["pose", "position", "x"]).unwrap();
    assert_eq!(f64::from_bits(x.0), 1.5);
    assert_eq!(
        message_text(v.get_nested_value(&["pose", "missing"]).unwrap_err()),
        "Field 'missing' not found"
    );
    assert_eq!(
        message_text(v.get_nested_value(&["width", "x"]).unwrap_err()),
        "Field 'x' is not a map"
    );
    assert_eq!(
        message_text(v.get_nested::<u32>(&["pose", "position", "x"]).unwrap_err()),
        "Nested path [\"pose\", \"position\", \"x\"] is not a u32"
    );
}

#[test]
fn nested_single_step_agrees_with_get() {
    let v = sample();
    match v.get_nested_value(&["width"]).unwrap() {
        Value::U32(n) => assert_eq!(*n, v.get::<u32>("width").unwrap()),
        other => panic!("unexpected {:?}", other),
    }
}

#[test]
fn get_field_applies_extractor() {
    let v = sample();
    assert_eq!(v.get_field("width", |x: &Value| x.as_u32()).unwrap(), 4);
    assert_eq!(
        message_text(v.get_field("name", |x: &Value| x.as_u32()).unwrap_err()),
        "Could not extract field 'name'"
    );
}

#[test]
fn from_value_and_kind_names() {
    assert_eq!(u16::from_value(&Value::U16(7)), Some(7));
    assert_eq!(u16::from_value(&Value::U32(7)), None);
    assert_eq!(bool::kind_name(), "bool");
    assert_eq!(Value::Duration(Duration { sec: -1, nsec: 2 }).as_duration(), Some(Duration { sec: -1, nsec: 2 }));
    assert_eq!(String::kind_name(), "string");
}
