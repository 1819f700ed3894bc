use rosbag_msgs::error::RosbagError;
use rosbag_msgs::processor::{BagProcessor, MessageAction};

fn num_bytes(n: u32) -> Vec<u8> {
    n.to_le_bytes().to_vec()
}

/// A small bag: connection 0 on `/imu` of `test_pkg/Num`, connection 1 on `/odom` of
/// `test_pkg/Other`; ten messages alternating between them.
fn run(types: &[&str], topics: &[&str], offset: Option<usize>, limit: Option<usize>) -> (BagProcessor<u32>, Vec<u64>) {
    let mut p = BagProcessor::<u32>::new("data/test.bag".to_string());
    for t in types {
        p.register_message(t, 1).unwrap();
    }
    for t in topics {
        p.register_topic(t, 2).unwrap();
    }
    p.begin(offset, limit);
    p.on_connection(0, "/imu", "test_pkg/Num", "uint32 n\n").unwrap().unwrap();
    p.on_connection(1, "/odom", "test_pkg/Other", "uint32 m\n").unwrap().unwrap();
    let mut delivered = Vec::new();
    for i in 0..10u32 {
        match p.on_message(i % 2, i as u64, &num_bytes(i)).unwrap() {
            MessageAction::Deliver(log, _, _) => delivered.push(log.time),
            MessageAction::Skip => {}
            MessageAction::ParseFailed(e) => panic!("unexpected {:?}", e),
        }
    }
    (p, delivered)
}

#[test]
fn connection_info_and_lines() {
    let mut p = BagProcessor::<u32>::new("b.bag".to_string());
    let info = p.on_connection(3, "/imu", "test_pkg/Num", "uint32 n\n").unwrap().unwrap();
    assert_eq!(info.id, 3);
    assert_eq!(info.format_basic(), "/imu: test_pkg/Num");
    assert_eq!(
        info.format_definition(),
        "topic: /imu\ntype: test_pkg/Num\n        |      n: uint32 Unit\n"
    );
    assert_eq!(p.bag_path(), "b.bag");
}

#[test]
fn bad_type_names_are_passed_over() {
    let mut p = BagProcessor::<u32>::new("b.bag".to_string());
    assert!(p.on_connection(1, "/x", "NoPackage", "uint32 n\n").unwrap().is_none());
    match p.on_message(1, 0, &[0, 0, 0, 0]) {
        Err(RosbagError::MessageParsingError(m)) => {
            assert_eq!(m, "Internal Error: Connection ID 1 not found for message data.")
        }
        other => panic!("unexpected {:?}", other),
    }
}

#[test]
fn unreadable_definitions_are_errors() {
    let mut p = BagProcessor::<u32>::new("b.bag".to_string());
    assert!(matches!(
        p.on_connection(1, "/x", "test_pkg/Bad", "uint8 a b c\n"),
        Err(RosbagError::RosMessageError(_))
    ));
    match p.on_message(1, 0, &[0]) {
        Err(RosbagError::MissingDefinitionError(m)) => assert_eq!(
            m,
            "Internal Error: Definitions for test_pkg/Bad not found despite connection."
        ),
        other => panic!("unexpected {:?}", other),
    }
}

#[test]
fn registering_again_replaces_the_sender() {
    let mut p = BagProcessor::<u32>::new("b.bag".to_string());
    p.register_message("sensor_msgs/Imu", 10).unwrap();
    p.register_message("nav_msgs/Odometry", 11).unwrap();
    p.register_message("sensor_msgs/Imu", 12).unwrap();
    assert!(matches!(p.register_message("Imu", 13), Err(RosbagError::RosMessageError(_))));
    assert_eq!(p.type_sender(0), Some(&12));
    assert_eq!(p.type_sender(1), Some(&11));
    assert_eq!(p.type_sender(2), None);
    p.register_topic("/a", 20).unwrap();
    p.register_topic("/a", 21).unwrap();
    p.register_topic("/b", 22).unwrap();
    assert_eq!(p.topic_sender(0), Some(&21));
    assert_eq!(p.topic_sender(1), Some(&22));
    assert_eq!(p.topic_sender(2), None);
}

#[test]
fn deliveries_name_the_last_sender_of_the_type() {
    let mut p = BagProcessor::<u32>::new("b.bag".to_string());
    p.register_message("test_pkg/Num", 1).unwrap();
    p.register_message("test_pkg/Num", 2).unwrap();
    p.begin(None, Some(5));
    p.on_connection(0, "/imu", "test_pkg/Num", "uint32 n\n").unwrap();
    match p.on_message(0, 2, &[1, 0, 0, 0]).unwrap() {
        MessageAction::Deliver(_, Some(i), None) => assert_eq!(p.type_sender(i), Some(&2)),
        other => panic!("unexpected {:?}", other),
    }
}

#[test]
fn default_page_is_the_first_selected_message() {
    let (p, delivered) = run(&["test_pkg/Num"], &[], None, None);
    assert_eq!(delivered, vec![0]);
    assert!(p.pagination().is_none());
    assert_eq!(p.total_messages(), 10);
}

#[test]
fn page_of_a_type() {
    let (p, delivered) = run(&["test_pkg/Num"], &[], Some(1), Some(2));
    assert_eq!(delivered, vec![2, 4]);
    let page = p.pagination().unwrap();
    assert_eq!((page.offset, page.limit, page.returned_count, page.total), (1, 2, 2, 5));
    assert_eq!(page.format_line(), "Pagination: Offset: 1 | Limit: 2 | Returned: 2 | Total: 5");
}

#[test]
fn type_and_topic_registrations_select_together() {
    let (p, delivered) = run(&["test_pkg/Num"], &["/odom"], Some(0), Some(100));
    assert_eq!(delivered, (0..10).collect::<Vec<u64>>());
    assert_eq!(p.pagination().unwrap().total, 10);
}

#[test]
fn page_past_the_end_returns_nothing() {
    let (p, delivered) = run(&[], &["/odom"], Some(7), Some(3));
    assert!(delivered.is_empty());
    let page = p.pagination().unwrap();
    assert_eq!((page.returned_count, page.total), (0, 5));
}

#[test]
fn adjacent_pages_cover_one_longer_page() {
    let (_, first) = run(&[], &["/imu", "/odom"], Some(2), Some(3));
    let (_, second) = run(&[], &["/imu", "/odom"], Some(5), Some(4));
    let (_, both) = run(&[], &["/imu", "/odom"], Some(2), Some(7));
    let mut joined = first.clone();
    joined.extend(second.iter());
    assert_eq!(joined, both);
    assert!(first.iter().all(|t| !second.contains(t)));
}

#[test]
fn more_pages_exactly_when_offset_and_returned_fall_short() {
    let (p, _) = run(&["test_pkg/Other"], &[], Some(1), Some(2));
    let page = p.pagination().unwrap();
    assert!((page.offset as u64) + page.returned_count < page.total);
    let (q, _) = run(&["test_pkg/Other"], &[], Some(3), Some(2));
    let last = q.pagination().unwrap();
    assert!(!((last.offset as u64) + last.returned_count < last.total));
}

#[test]
fn counts_add_up_to_the_total() {
    let (p, _) = run(&[], &[], None, None);
    let stats = p.stats();
    assert_eq!(stats.total_messages, 10);
    let by_type: u64 = stats.by_type.iter().map(|(_, n)| n).sum();
    let by_topic: u64 = stats.by_topic.iter().map(|(_, n)| n).sum();
    assert_eq!(by_type, 10);
    assert_eq!(by_topic, 10);
    assert_eq!(
        stats.format_summary(),
        "Processing completed!\nTotal messages: 10\nMessage counts by type:\n  test_pkg/Num: 5\n  test_pkg/Other: 5\nMessage counts by topic:\n  /imu: 5\n  /odom: 5\n"
    );
}

#[test]
fn undecodable_selected_messages_fail() {
    let mut p = BagProcessor::<u32>::new("b.bag".to_string());
    p.register_topic("/imu", 7).unwrap();
    p.begin(None, Some(5));
    p.on_connection(0, "/imu", "test_pkg/Num", "uint32 n\n").unwrap();
    match p.on_message(0, 1, &[1, 2]).unwrap() {
        MessageAction::ParseFailed(RosbagError::IoError(m)) => assert_eq!(m, "failed to fill whole buffer"),
        other => panic!("unexpected {:?}", other),
    }
    match p.on_message(0, 2, &[1, 0, 0, 0]).unwrap() {
        MessageAction::Deliver(log, ts, tps) => {
            assert_eq!(log.topic, "/imu");
            assert_eq!(log.msg_path.to_text(), "test_pkg/Num");
            assert_eq!(ts, None);
            assert_eq!(tps, Some(0));
        }
        other => panic!("unexpected {:?}", other),
    }
    let page = p.pagination().unwrap();
    assert_eq!((page.returned_count, page.total), (1, 2));
}

#[test]
fn begin_starts_the_counts_again() {
    let (mut p, _) = run(&[], &[], None, None);
    p.begin(None, None);
    assert_eq!(p.total_messages(), 0);
    assert!(p.stats().by_type.is_empty());
}

#[test]
fn a_failed_delivery_stops_the_pass() {
    let mut p = BagProcessor::<u32>::new("b.bag".to_string());
    p.register_topic("/imu", 1).unwrap();
    p.begin(None, Some(10));
    p.on_connection(0, "/imu", "test_pkg/Num", "uint32 n\n").unwrap();
    assert!(matches!(p.on_message(0, 1, &[1, 0, 0, 0]).unwrap(), MessageAction::Deliver(..)));
    assert!(p.on_delivery(true));
    assert!(!p.stopped());
    assert!(matches!(p.on_message(0, 2, &[2, 0, 0, 0]).unwrap(), MessageAction::Deliver(..)));
    assert!(!p.on_delivery(false));
    assert!(p.stopped());
    assert!(matches!(p.on_message(0, 3, &[3, 0, 0, 0]).unwrap(), MessageAction::Skip));
    assert_eq!(p.total_messages(), 2);
    p.begin(None, None);
    assert!(!p.stopped());
}
