use rosbag_msgs::brackets::array_lengths_fit;
use rosbag_msgs::decode::parse_message_data;
use rosbag_msgs::definition::{
    classify_type, definition_lengths_fit, definition_tree, get_dependencies, type_text_of, FieldType, MessagePath, MsgDef,
};
use rosbag_msgs::error::RosbagError;
use rosbag_msgs::value::{Time, Value};

fn def(path: &str, source: &str) -> MsgDef {
    MsgDef::new(MessagePath::parse(path).unwrap(), source).unwrap()
}

fn field<'a>(v: &'a Value, name: &str) -> &'a Value {
    match v {
        Value::Message(fields) => &fields.iter().find(|(k, _)| k == name).unwrap().1,
        other => panic!("not a message: {:?}", other),
    }
}

#[test]
fn message_path_parses_and_writes_back() {
    let p = MessagePath::parse("sensor_msgs/Imu").unwrap();
    assert_eq!(p.package, "sensor_msgs");
    assert_eq!(p.name, "Imu");
    assert_eq!(p.to_text(), "sensor_msgs/Imu");
    let again = MessagePath::parse(&p.to_text()).unwrap();
    assert!(again.same_as(&p));
    assert!(matches!(MessagePath::parse("Imu"), Err(RosbagError::RosMessageError(_))));
    assert!(matches!(MessagePath::parse("Bad_Pkg/Imu"), Err(RosbagError::RosMessageError(_))));
    assert!(matches!(MessagePath::parse("a/b/c"), Err(RosbagError::RosMessageError(_))));
}

#[test]
fn type_names_read_back() {
    assert!(matches!(classify_type("float64"), FieldType::F64));
    assert!(matches!(classify_type("byte"), FieldType::I8(_)));
    match classify_type("std_msgs/Header") {
        FieldType::GlobalMessage(p) => assert_eq!(p.to_text(), "std_msgs/Header"),
        other => panic!("unexpected {:?}", other),
    }
    match classify_type("Point") {
        FieldType::LocalMessage(n) => assert_eq!(n, "Point"),
        other => panic!("unexpected {:?}", other),
    }
}

#[test]
fn decodes_primitive_fields_in_order() {
    let d = def("test_pkg/Simple", "uint8 a\nint16 b\nstring s\nfloat64 x\ntime t\nbool flag\nint32 K=5\n");
    let mut data = vec![7u8];
    data.extend_from_slice(&(-2i16).to_le_bytes());
    data.extend_from_slice(&3u32.to_le_bytes());
    data.extend_from_slice(b"abc");
    data.extend_from_slice(&2.5f64.to_le_bytes());
    data.extend_from_slice(&10u32.to_le_bytes());
    data.extend_from_slice(&20u32.to_le_bytes());
    data.push(1);
    let v = parse_message_data(&data, &vec![d]).unwrap();
    match &v {
        Value::Message(fields) => {
            let names: Vec<&str> = fields.iter().map(|(k, _)| k.as_str()).collect();
            assert_eq!(names, vec!["a", "b", "s", "x", "t", "flag"]);
        }
        other => panic!("not a message: {:?}", other),
    }
    assert!(matches!(field(&v, "a"), Value::U8(7)));
    assert!(matches!(field(&v, "b"), Value::I16(-2)));
    assert!(matches!(field(&v, "s"), Value::String(s) if s == "abc"));
    assert!(matches!(field(&v, "x"), Value::F64(bits) if f64::from_bits(*bits) == 2.5));
    assert!(matches!(field(&v, "t"), Value::Time(Time { sec: 10, nsec: 20 })));
    assert!(matches!(field(&v, "flag"), Value::Bool(true)));
}

#[test]
fn decodes_arrays() {
    let d = def("test_pkg/Arrays", "uint8[] data\nint16[2] pair\n");
    let mut data = Vec::new();
    data.extend_from_slice(&3u32.to_le_bytes());
    data.extend_from_slice(&[1, 2, 3]);
    data.extend_from_slice(&5i16.to_le_bytes());
    data.extend_from_slice(&6i16.to_le_bytes());
    let v = parse_message_data(&data, &vec![d]).unwrap();
    match field(&v, "data") {
        Value::Array(items) => assert_eq!(items.len(), 3),
        other => panic!("unexpected {:?}", other),
    }
    match field(&v, "pair") {
        Value::Array(items) => assert!(matches!(items[1], Value::I16(6))),
        other => panic!("unexpected {:?}", other),
    }
}

#[test]
fn short_data_ends_arrays_and_fails_units() {
    let d = def("test_pkg/Arrays", "uint16[] data\n");
    let mut data = Vec::new();
    data.extend_from_slice(&4u32.to_le_bytes());
    data.extend_from_slice(&[1, 0, 2]);
    let v = parse_message_data(&data, &vec![d]).unwrap();
    match field(&v, "data") {
        Value::Array(items) => assert_eq!(items.len(), 1),
        other => panic!("unexpected {:?}", other),
    }
    let d2 = def("test_pkg/One", "uint32 n\n");
    match parse_message_data(&[1, 2], &vec![d2]) {
        Err(RosbagError::IoError(m)) => assert_eq!(m, "failed to fill whole buffer"),
        other => panic!("unexpected {:?}", other),
    }
}

#[test]
fn bad_utf8_is_a_parsing_error() {
    let d = def("test_pkg/Text", "string s\n");
    let mut data = Vec::new();
    data.extend_from_slice(&2u32.to_le_bytes());
    data.extend_from_slice(&[0xff, 0xfe]);
    match parse_message_data(&data, &vec![d]) {
        Err(RosbagError::MessageParsingError(m)) => {
            let e = String::from_utf8(vec![0xff, 0xfe]).unwrap_err();
            assert_eq!(m, format!("Invalid UTF-8 sequence in string: {}", e));
        }
        other => panic!("unexpected {:?}", other),
    }
}

#[test]
fn no_definitions_is_an_error() {
    match parse_message_data(&[], &vec![]) {
        Err(RosbagError::MissingDefinitionError(m)) => assert_eq!(m, "No message definition found"),
        other => panic!("unexpected {:?}", other),
    }
}

#[test]
fn dependencies_are_read_and_used_for_nested_messages() {
    let text = format!(
        "Header header\ngeometry_msgs/Point p\n{}\nMSG: std_msgs/Header\nuint32 seq\ntime stamp\nstring frame_id\n{}\nMSG: geometry_msgs/Point\nfloat64 x\nfloat64 y\nfloat64 z\n",
        "=".repeat(80),
        "=".repeat(80)
    );
    let path = MessagePath::parse("test_pkg/Stamped").unwrap();
    let defs = get_dependencies(&path, &text).unwrap();
    assert_eq!(defs.len(), 3);
    assert_eq!(defs[1].path.to_text(), "std_msgs/Header");
    assert_eq!(defs[2].path.to_text(), "geometry_msgs/Point");
    let mut data = Vec::new();
    data.extend_from_slice(&9u32.to_le_bytes());
    data.extend_from_slice(&1u32.to_le_bytes());
    data.extend_from_slice(&2u32.to_le_bytes());
    data.extend_from_slice(&3u32.to_le_bytes());
    data.extend_from_slice(b"map");
    for x in [1.0f64, 2.0, 3.0] {
        data.extend_from_slice(&x.to_le_bytes());
    }
    let v = parse_message_data(&data, &defs).unwrap();
    assert!(matches!(field(field(&v, "header"), "frame_id"), Value::String(s) if s == "map"));
    assert!(matches!(field(field(&v, "p"), "z"), Value::F64(b) if f64::from_bits(*b) == 3.0));
    let tree = definition_tree("/pose", &defs);
    assert!(tree.starts_with("topic: /pose\ntype: test_pkg/Stamped\n"));
    assert!(tree.contains("        |- std_msgs/Header\n        |      seq: uint32 Unit\n"));
    assert!(tree.ends_with("        |- geometry_msgs/Point\n        |      x: float64 Unit\n        |      y: float64 Unit\n        |      z: float64 Unit\n"));
}

#[test]
fn missing_nested_definition_is_reported() {
    let d = def("test_pkg/Outer", "test_pkg/Inner inner\n");
    match parse_message_data(&[0, 0, 0, 0], &vec![d]) {
        Err(RosbagError::MissingDefinitionError(m)) => assert_eq!(m, "test_pkg/Inner"),
        other => panic!("unexpected {:?}", other),
    }
}

#[test]
fn unreadable_definition_text_is_an_error() {
    let path = MessagePath::parse("test_pkg/Bad").unwrap();
    assert!(matches!(get_dependencies(&path, "uint8 a b c d\n"), Err(RosbagError::RosMessageError(_))));
}

#[test]
fn array_lengths_must_fit() {
    assert!(array_lengths_fit("uint8[3] a\nfloat64[] b\n"));
    assert!(array_lengths_fit(&format!("uint8[ {}] a", usize::MAX)));
    assert!(!array_lengths_fit("uint8[99999999999999999999999] a"));
    assert!(!array_lengths_fit("uint8[\t 99999999999999999999999 ] a"));
    assert!(array_lengths_fit("string NAME=[x 99999999999999999999999]"));
    assert!(array_lengths_fit("float64 PI=3.14159265358979323846264338327950288419716939937510"));
    assert!(!array_lengths_fit("  \n# header\nuint8 a\n  geometry_msgs/Point[99999999999999999999999]   p  \n"));
}

#[test]
fn comments_and_other_lines_hold_any_number() {
    assert!(array_lengths_fit("uint8[3] a # up to [99999999999999999999999] items"));
    assert!(array_lengths_fit("# [99999999999999999999999]\nuint8 a"));
    assert!(array_lengths_fit("uint8[99999999999999999999999]"));
    assert!(array_lengths_fit("uint8[99999999999999999999999] a b"));
    assert!(array_lengths_fit("uint8[99999999999999999999999] 1a"));
    assert!(array_lengths_fit("string  LABEL = [99999999999999999999999] a"));
    assert!(!array_lengths_fit("string[99999999999999999999999] a"));
}

#[test]
fn full_definition_texts_are_checked_section_by_section() {
    let sep = "=".repeat(80);
    let ok = format!("Header header\n# see [99999999999999999999999]\n{}\nMSG: std_msgs/Header\nuint32 seq\n", sep);
    assert!(definition_lengths_fit(&ok));
    let path = MessagePath::parse("test_pkg/Top").unwrap();
    let defs = get_dependencies(&path, &ok).unwrap();
    assert_eq!(defs.len(), 2);
    let bad = format!("Header header\n{}\nMSG: std_msgs/Header\nuint32[99999999999999999999999] seq\n", sep);
    assert!(!definition_lengths_fit(&bad));
}

#[test]
fn constants_show_in_the_tree() {
    let d = def("test_pkg/Consts", "int32 K=5\nstring NAME=abc\nuint8 a\n");
    let tree = definition_tree("/c", &vec![d]);
    assert!(tree.contains("        |      K: int32 Const(\"5\")\n"), "{}", tree);
    assert!(tree.contains("        |      NAME: string Const(\"abc\")\n"), "{}", tree);
    assert!(tree.contains("        |      a: uint8 Unit\n"), "{}", tree);
}

#[test]
fn type_texts_read_back_as_the_same_text() {
    for t in [
        "bool", "int8", "byte", "int16", "int32", "int64", "uint8", "char", "uint16", "uint32",
        "uint64", "float32", "float64", "string", "time", "duration", "std_msgs/Header", "Point",
    ] {
        assert_eq!(type_text_of(&classify_type(t)), t);
    }
}

#[test]
fn a_repeated_field_name_keeps_one_entry_with_the_last_value() {
    let d = def("test_pkg/Twice", "uint8 a\nuint8 b\nuint8 a\n");
    let v = parse_message_data(&[1, 2, 3], &vec![d]).unwrap();
    match v {
        Value::Message(fields) => {
            assert_eq!(fields.len(), 2);
            assert_eq!(fields[0].0, "a");
            assert!(matches!(fields[0].1, Value::U8(3)));
            assert_eq!(fields[1].0, "b");
        }
        other => panic!("not a message: {:?}", other),
    }
}
