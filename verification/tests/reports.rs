use rosbag_msgs::processor::{BagProcessor, PaginationInfo};
use rosbag_msgs::report::{
    image_file_name, BagMetadata, info_report, is_large_output, join_strings, message_header, messages_report,
    messages_uri, metadata_text, stored_output_note,
};

#[test]
fn headers_and_joins() {
    assert_eq!(message_header("sensor_msgs/Imu", 3, "/imu"), "\nsensor_msgs/Imu [3] `/imu`");
    assert_eq!(join_strings(&vec!["a".to_string(), "b".to_string()], ", "), "a, b");
    assert_eq!(join_strings(&vec![], ", "), "");
}

#[test]
fn messages_reports() {
    let page = PaginationInfo { offset: 10, limit: 2, returned_count: 2, total: 5679 };
    assert_eq!(
        messages_report(Some(page), &vec!["x".to_string(), "y".to_string()]),
        "Pagination: Offset: 10 | Limit: 2 | Returned: 2 | Total: 5679\n\nx\ny"
    );
    assert_eq!(messages_report(None, &vec![]), "Bag file processed successfully (no output generated)");
}

#[test]
fn info_reports() {
    let topics = vec!["/imu: sensor_msgs/Imu".to_string()];
    assert_eq!(
        info_report("S", &topics, None),
        "S\n\nTopics and message types:\n  /imu: sensor_msgs/Imu"
    );
    let defs = vec!["D1".to_string(), "D2".to_string()];
    assert_eq!(
        info_report("", &topics, Some(&defs)),
        "Topics and message types:\n  /imu: sensor_msgs/Imu\n\nMessage definitions:\n\nD1\nD2"
    );
    assert_eq!(
        metadata_text("S", &topics, &defs),
        "S\n\nTopics and message types:\n  /imu: sensor_msgs/Imu\n\nMessage definitions:\nD1\nD2"
    );
}

#[test]
fn uris_and_file_names() {
    assert_eq!(
        messages_uri("data/a.bag", Some("sensor_msgs/Imu"), None, Some(5), None),
        "rosbag://data/a.bag/messages/sensor_msgs/Imu?offset=5&limit=1"
    );
    assert_eq!(messages_uri("a.bag", None, Some("/imu"), None, None), "rosbag://a.bag/topics//imu");
    assert_eq!(image_file_name("/camera/image_raw", Some(3)), "image__camera_image_raw_3.png");
    assert_eq!(image_file_name("cam", None), "image_cam_0.png");
}

#[test]
fn large_outputs_are_noted_with_a_preview() {
    assert!(!is_large_output(&"é".repeat(20000)));
    assert!(is_large_output(&"a".repeat(20001)));
    assert_eq!(
        stored_output_note("short", "/tmp/x.txt"),
        "Output of 5 characters stored in /tmp/x.txt\n\nPreview:\nshort"
    );
    let long = "b".repeat(2500);
    assert_eq!(
        stored_output_note(&long, "/tmp/y.txt"),
        format!("Output of 2500 characters stored in /tmp/y.txt\n\nPreview:\n{}\n...", "b".repeat(2000))
    );
}

#[test]
fn metadata_keeps_each_topic_and_type_once() {
    let mut p = BagProcessor::<u32>::new("b.bag".to_string());
    let a = p.on_connection(0, "/imu", "test_pkg/Num", "uint32 n\n").unwrap().unwrap();
    let b = p.on_connection(1, "/imu", "test_pkg/Other", "uint32 m\n").unwrap().unwrap();
    let c = p.on_connection(2, "/odom", "test_pkg/Num", "uint32 n\n").unwrap().unwrap();
    let mut meta = BagMetadata::new();
    meta.add_connection(&a);
    meta.add_connection(&b);
    meta.add_connection(&c);
    meta.add_stats(&p.stats());
    assert_eq!(
        meta.topics,
        vec![
            ("/imu".to_string(), "test_pkg/Other".to_string()),
            ("/odom".to_string(), "test_pkg/Num".to_string())
        ]
    );
    assert_eq!(meta.message_types, vec!["test_pkg/Num".to_string(), "test_pkg/Other".to_string()]);
    assert_eq!(meta.topic_list, vec!["/imu: test_pkg/Num", "/imu: test_pkg/Other", "/odom: test_pkg/Num"]);
    assert_eq!(meta.definitions.len(), 3);
    assert!(meta.stats_output.starts_with("Processing completed!\nTotal messages: 0\n"));
}
