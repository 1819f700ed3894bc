use rosbag_msgs::prompt::get_prompt;

#[test]
fn inspect_prompt() {
    let p = get_prompt("inspect_bag_metadata", Some("data/a.bag"), None, None).unwrap();
    assert_eq!(p.description, "Command to inspect bag file metadata and structure");
    assert_eq!(
        p.text,
        "Use the process_rosbag tool to inspect the metadata and structure of the ROS bag file at 'data/a.bag'. Call the tool with metadata=true to get:\n- Topic structure with message type definitions\n- Message counts by type and topic\n- Processing statistics\n- Bag duration and timing information\n\nThis will help you understand the contents before extracting specific data."
    );
    assert_eq!(
        get_prompt("inspect_bag_metadata", None, None, None).unwrap_err(),
        "No bag_path provided to inspect_bag_metadata"
    );
}

#[test]
fn sensor_prompt_maps_kinds_in_any_case() {
    let p = get_prompt("extract_sensor_data", Some("b.bag"), Some("Camera"), None).unwrap();
    assert_eq!(p.description, "Command to extract Camera sensor data");
    assert_eq!(
        p.text,
        "Use the process_rosbag tool to extract camera image data from 'b.bag'.\nCall the tool with messages=[\"sensor_msgs/Image\", \"sensor_msgs/CompressedImage\"] to process Camera messages.\nYou can also add max=10 to limit output for large datasets."
    );
    let q = get_prompt("extract_sensor_data", Some("b.bag"), Some("sonar"), None).unwrap();
    assert_eq!(
        q.text,
        "Use the process_rosbag tool to extract data from 'b.bag'.\nFirst inspect metadata to find available message types, then specify the appropriate message types for sonar data."
    );
    assert_eq!(
        get_prompt("extract_sensor_data", Some("b.bag"), None, None).unwrap_err(),
        "No sensor_type provided to extract_sensor_data"
    );
    assert_eq!(
        get_prompt("extract_sensor_data", None, Some("imu"), None).unwrap_err(),
        "No bag_path provided to extract_sensor_data"
    );
}

#[test]
fn topics_prompt_lists_trimmed_topics() {
    let p = get_prompt("topic_filtering", Some("c.bag"), None, Some(" /imu, /odom ")).unwrap();
    assert_eq!(p.description, "Command to filter and process specific topics");
    assert_eq!(
        p.text,
        "Use the process_rosbag tool to filter and process specific topics from 'c.bag'.\nCall the tool with topics=[\"/imu\", \"/odom\"] to process only these topics:\n  - /imu\n  - /odom\nAdd metadata=true to see topic statistics, or max=5 to limit output per topic.\n\nThis is useful for focusing on specific sensors or data streams in large bag files."
    );
    assert_eq!(
        get_prompt("topic_filtering", Some("c.bag"), None, None).unwrap_err(),
        "No topics provided to topic_filtering"
    );
    assert_eq!(get_prompt("other", Some("c.bag"), None, None).unwrap_err(), "prompt not found");
}

#[test]
fn temporal_prompt_pages_through_windows() {
    let p = get_prompt("temporal_analysis", Some("data/race_1.bag"), None, None).unwrap();
    assert_eq!(p.description, "Command to analyze bag data over windows of time");
    assert!(p.text.starts_with("Use the messages tool to analyze how the data in the ROS bag file at 'data/race_1.bag' changes over time"));
    assert!(p.text.contains("offset=0 and limit=10, then offset=10 and limit=10"));
    assert_eq!(
        get_prompt("temporal_analysis", None, None, None).unwrap_err(),
        "No bag_path provided to temporal_analysis"
    );
}

#[test]
fn sensor_names_ignore_the_case_of_ascii_letters() {
    let a = get_prompt("extract_sensor_data", Some("b.bag"), Some("IMU"), None).unwrap();
    let b = get_prompt("extract_sensor_data", Some("b.bag"), Some("imu"), None).unwrap();
    assert!(a.text.contains("messages=[\"sensor_msgs/Imu\"]"));
    assert!(b.text.contains("messages=[\"sensor_msgs/Imu\"]"));
}
