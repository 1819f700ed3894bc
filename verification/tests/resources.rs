use rosbag_msgs::resource::{parse_query, parse_resource_uri, parse_usize, MetadataKind, ResourceRequest};

#[test]
fn numbers_read_as_std_reads_them() {
    for s in ["0", "12", "+7", "007", "", "+", "-1", "1a", " 1", "18446744073709551615", "18446744073709551616", "99999999999999999999"] {
        assert_eq!(parse_usize(s), s.parse::<usize>().ok(), "text {:?}", s);
    }
}

#[test]
fn queries_give_offset_and_limit() {
    assert_eq!(parse_query("offset=5&limit=10"), (Some(5), Some(10)));
    assert_eq!(parse_query("limit=3"), (None, Some(3)));
    assert_eq!(parse_query(""), (None, None));
    assert_eq!(parse_query("offset=x&limit=2"), (None, Some(2)));
    assert_eq!(parse_query("offset=1&offset=4&other=9&junk"), (Some(4), None));
    assert_eq!(parse_query("offset=1&offset=bad"), (None, None));
}

#[test]
fn metadata_uris() {
    match parse_resource_uri("rosbag://data/race_1.bag/topics") {
        ResourceRequest::Metadata { bag_path, kind } => {
            assert_eq!(bag_path, "data/race_1.bag");
            assert_eq!(kind, MetadataKind::Topics);
        }
        other => panic!("unexpected {:?}", other),
    }
    match parse_resource_uri("rosbag:///abs/path%20x.bag/message_types") {
        ResourceRequest::Metadata { bag_path, kind } => {
            assert_eq!(bag_path, "/abs/path x.bag");
            assert_eq!(kind, MetadataKind::MessageTypes);
        }
        other => panic!("unexpected {:?}", other),
    }
}

#[test]
fn message_uris_with_pages() {
    match parse_resource_uri("rosbag://data/race_1.bag/messages/sensor_msgs/Imu?offset=0&limit=10") {
        ResourceRequest::Messages { bag_path, message_type, offset, limit } => {
            assert_eq!(bag_path, "data/race_1.bag");
            assert_eq!(message_type, "sensor_msgs/Imu");
            assert_eq!((offset, limit), (Some(0), Some(10)));
        }
        other => panic!("unexpected {:?}", other),
    }
    match parse_resource_uri("rosbag://data/race_1.bag/topics/camera/image_raw?offset=5&limit=3") {
        ResourceRequest::TopicMessages { bag_path, topic, offset, limit } => {
            assert_eq!(bag_path, "data/race_1.bag");
            assert_eq!(topic, "camera/image_raw");
            assert_eq!((offset, limit), (Some(5), Some(3)));
        }
        other => panic!("unexpected {:?}", other),
    }
}

#[test]
fn usage_bad_encoding_and_unknown() {
    assert!(matches!(parse_resource_uri("rosbag://usage"), ResourceRequest::Usage));
    assert!(matches!(parse_resource_uri("http://x"), ResourceRequest::Unknown));
    match parse_resource_uri("rosbag://bag%FF.bag/topics") {
        ResourceRequest::BadEncoding(m) => assert_eq!(m, "Invalid URL encoding in bag path"),
        other => panic!("unexpected {:?}", other),
    }
    match parse_resource_uri("rosbag://b.bag/messages/x%FF") {
        ResourceRequest::BadEncoding(m) => assert_eq!(m, "Invalid URL encoding in message type"),
        other => panic!("unexpected {:?}", other),
    }
    match parse_resource_uri("rosbag://b.bag/topics/x%FF") {
        ResourceRequest::BadEncoding(m) => assert_eq!(m, "Invalid URL encoding in topic name"),
        other => panic!("unexpected {:?}", other),
    }
}

#[test]
fn uri_grammar_edges() {
    match parse_resource_uri("rosbag://a/messages/b/messages/c") {
        ResourceRequest::Messages { bag_path, message_type, offset, limit } => {
            assert_eq!(bag_path, "a");
            assert_eq!(message_type, "b/messages/c");
            assert_eq!((offset, limit), (None, None));
        }
        other => panic!("unexpected {:?}", other),
    }
    match parse_resource_uri("rosbag://d/topics/x?limit=4") {
        ResourceRequest::TopicMessages { bag_path, topic, offset, limit } => {
            assert_eq!(bag_path, "d");
            assert_eq!(topic, "x");
            assert_eq!((offset, limit), (None, Some(4)));
        }
        other => panic!("unexpected {:?}", other),
    }
    match parse_resource_uri("rosbag://d/topics") {
        ResourceRequest::Metadata { bag_path, kind } => {
            assert_eq!(bag_path, "d");
            assert_eq!(kind, MetadataKind::Topics);
        }
        other => panic!("unexpected {:?}", other),
    }
    assert!(matches!(parse_resource_uri("rosbag://x/messages/?offset=1"), ResourceRequest::Unknown));
    assert!(matches!(parse_resource_uri("rosbag://x/messages/T?"), ResourceRequest::Unknown));
    assert!(matches!(parse_resource_uri("rosbag://a\nb/metadata"), ResourceRequest::Unknown));
    assert!(matches!(parse_resource_uri("rosbag:///topics"), ResourceRequest::Unknown));
    match parse_resource_uri("rosbag://a\nb/messages/T\nU") {
        ResourceRequest::Unknown => {}
        other => panic!("unexpected {:?}", other),
    }
    match parse_resource_uri("rosbag://ab/messages/T\nU") {
        ResourceRequest::Messages { message_type, .. } => assert_eq!(message_type, "T\nU"),
        other => panic!("unexpected {:?}", other),
    }
}
