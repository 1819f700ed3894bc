use rosbag_msgs::markdown::{format_value_as_markdown, markdown_fits};
use rosbag_msgs::value::{Duration, Time, Value};

#[test]
fn scalars() {
    assert_eq!(format_value_as_markdown(&Value::Bool(true), 0), "**✓**");
    assert_eq!(format_value_as_markdown(&Value::Bool(false), 0), "**✗**");
    assert_eq!(format_value_as_markdown(&Value::I8(-5), 0), "-5");
    assert_eq!(format_value_as_markdown(&Value::U64(18446744073709551615), 0), "18446744073709551615");
    assert_eq!(format_value_as_markdown(&Value::F64(2.5f64.to_bits()), 0), "2.500");
    assert_eq!(format_value_as_markdown(&Value::F32(0.1f32.to_bits()), 0), "0.100");
    assert_eq!(format_value_as_markdown(&Value::String("hi".to_string()), 0), "\"hi\"");
}

#[test]
fn time_and_duration() {
    assert_eq!(
        format_value_as_markdown(&Value::Time(Time { sec: 12, nsec: 5 }), 0),
        "12.000000005s"
    );
    assert_eq!(
        format_value_as_markdown(&Value::Duration(Duration { sec: -3, nsec: 250 }), 0),
        "⏱️ -3.000000250s"
    );
    assert_eq!(
        format_value_as_markdown(&Value::Duration(Duration { sec: 1, nsec: -7 }), 0),
        format!("⏱️ {}.{:09}s", 1, -7)
    );
}

#[test]
fn arrays() {
    assert_eq!(format_value_as_markdown(&Value::Array(vec![]), 0), "[]");
    assert_eq!(
        format_value_as_markdown(&Value::Array(vec![Value::U8(1), Value::U8(2), Value::U8(3)]), 4),
        "[1, 2, 3]"
    );
    assert_eq!(
        format_value_as_markdown(&Value::Array(vec![Value::U8(1), Value::U8(1), Value::U8(1), Value::U8(1)]), 0),
        "📊 [4 items]"
    );
}

#[test]
fn messages_indent_by_level() {
    let inner = Value::Message(vec![("x".to_string(), Value::I32(7))]);
    let v = Value::Message(vec![
        ("a".to_string(), Value::Bool(true)),
        ("inner".to_string(), inner),
        ("empty".to_string(), Value::Message(vec![])),
    ]);
    assert_eq!(
        format_value_as_markdown(&v, 1),
        "\n  - a: **✓**\n  - inner: \n    - x: 7\n  - empty: {}"
    );
    assert_eq!(format_value_as_markdown(&Value::Message(vec![]), 3), "{}");
}

#[test]
fn indentation_must_fit_in_memory() {
    let half = (isize::MAX as usize) / 2;
    let v = Value::Message(vec![("a".to_string(), Value::Array(vec![Value::U8(1)]))]);
    assert!(markdown_fits(&v, 0));
    assert!(markdown_fits(&v, half - 1));
    assert!(!markdown_fits(&v, half));
    assert!(markdown_fits(&Value::U8(1), half));
    assert!(!markdown_fits(&Value::U8(1), half + 1));
}

#[test]
fn readme_imu_header() {
    let header = Value::Message(vec![
        ("seq".to_string(), Value::U32(10)),
        ("stamp".to_string(), Value::Time(Time { sec: 1654544051, nsec: 511655331 })),
        ("frame_id".to_string(), Value::String("camera_imu_optical_frame".to_string())),
    ]);
    let v = Value::Message(vec![("header".to_string(), header)]);
    assert_eq!(
        format_value_as_markdown(&v, 0),
        "\n- header: \n  - seq: 10\n  - stamp: 1654544051.511655331s\n  - frame_id: \"camera_imu_optical_frame\""
    );
    assert_eq!(
        format_value_as_markdown(&Value::Time(Time { sec: 1654544051, nsec: 511655331 }), 1),
        "1654544051.511655331s"
    );
}
