//! The prompts that the bag server offers: texts that tell an assistant which tool calls to
//! make for a bag.
use vstd::prelude::*;
use vstd::string::*;

use crate::text::{all_ascii, ascii_lower, chars_of, concat3, lemma_lower_ignores_ascii_case, lower_of, split, split_ranges, str_eq, string_of, to_lower, trim, trim_range};
use crate::value::{debug_strs, debug_text_of_strs, strs_view};

verus! {

/// The description and text of a prompt.
#[derive(Debug)]
pub struct PromptText {
    pub description: String,
    pub text: String,
}

/// The message types of a kind of sensor (named in lowercase) and a description of its data;
/// no types for an unknown kind.
pub open spec fn sensor_kinds(kind: Seq<char>) -> (Seq<Seq<char>>, Seq<char>) {
    if kind == "imu"@ {
        (
            seq!["sensor_msgs/Imu"@],
            "IMU sensor data including orientation, angular velocity, and linear acceleration"@,
        )
    } else if kind == "camera"@ || kind == "image"@ {
        (seq!["sensor_msgs/Image"@, "sensor_msgs/CompressedImage"@], "camera image data"@)
    } else if kind == "lidar"@ || kind == "laser"@ {
        (seq!["sensor_msgs/LaserScan"@, "sensor_msgs/PointCloud2"@], "LiDAR/laser scan data"@)
    } else if kind == "odom"@ || kind == "odometry"@ {
        (seq!["nav_msgs/Odometry"@], "robot odometry data"@)
    } else if kind == "pose"@ {
        (
            seq!["geometry_msgs/PoseStamped"@, "geometry_msgs/PoseWithCovarianceStamped"@],
            "pose estimation data"@,
        )
    } else if kind == "twist"@ || kind == "cmd_vel"@ {
        (seq!["geometry_msgs/Twist"@], "velocity command data"@)
    } else {
        (Seq::empty(), "unknown sensor type - please specify message types manually"@)
    }
}

/// The sensor kind that a prompt speaks of does not depend on the case of the letters of an
/// ASCII sensor name: `IMU`, `Imu` and `imu` give the same message types and description.
pub proof fn lemma_sensor_kind_ignores_case(s: Seq<char>, t: Seq<char>)
    requires
        all_ascii(s),
        all_ascii(t),
        ascii_lower(s) == ascii_lower(t),
    ensures
        sensor_kinds(lower_of(s)) == sensor_kinds(lower_of(t)),
{
    lemma_lower_ignores_ascii_case(s, t);
}

/// The message types that each sensor name stands for, whatever the case of its ASCII
/// letters: `imu` for IMU messages, `camera` and `image` for raw and compressed images,
/// `lidar` and `laser` for laser scans and point clouds, `odom` and `odometry` for odometry,
/// `pose` for stamped poses with and without covariance, `twist` and `cmd_vel` for velocity
/// commands.
pub proof fn lemma_sensor_table(s: Seq<char>)
    requires
        all_ascii(s),
    ensures
        ascii_lower(s) == "imu"@ ==> sensor_kinds(lower_of(s)).0 == seq!["sensor_msgs/Imu"@],
        ascii_lower(s) == "camera"@ || ascii_lower(s) == "image"@ ==> sensor_kinds(lower_of(s)).0
            == seq!["sensor_msgs/Image"@, "sensor_msgs/CompressedImage"@],
        ascii_lower(s) == "lidar"@ || ascii_lower(s) == "laser"@ ==> sensor_kinds(lower_of(s)).0
            == seq!["sensor_msgs/LaserScan"@, "sensor_msgs/PointCloud2"@],
        ascii_lower(s) == "odom"@ || ascii_lower(s) == "odometry"@ ==> sensor_kinds(
            lower_of(s),
        ).0 == seq!["nav_msgs/Odometry"@],
        ascii_lower(s) == "pose"@ ==> sensor_kinds(lower_of(s)).0 == seq![
            "geometry_msgs/PoseStamped"@,
            "geometry_msgs/PoseWithCovarianceStamped"@,
        ],
        ascii_lower(s) == "twist"@ || ascii_lower(s) == "cmd_vel"@ ==> sensor_kinds(
            lower_of(s),
        ).0 == seq!["geometry_msgs/Twist"@],
{
    reveal_strlit("imu");
    reveal_strlit("camera");
    reveal_strlit("image");
    reveal_strlit("lidar");
    reveal_strlit("laser");
    reveal_strlit("odom");
    reveal_strlit("odometry");
    reveal_strlit("pose");
    reveal_strlit("twist");
    reveal_strlit("cmd_vel");
    assert("camera"@ != "imu"@) by {
        assert("camera"@.len() != "imu"@.len());
    }
    assert("image"@ != "imu"@) by {
        assert("image"@.len() != "imu"@.len());
    }
    assert("lidar"@ != "imu"@ && "lidar"@ != "camera"@ && "lidar"@ != "image"@) by {
        assert("lidar"@.len() != "imu"@.len() && "lidar"@.len() != "camera"@.len());
        assert("lidar"@[0] != "image"@[0]);
    }
    assert("laser"@ != "imu"@ && "laser"@ != "camera"@ && "laser"@ != "image"@) by {
        assert("laser"@.len() != "imu"@.len() && "laser"@.len() != "camera"@.len());
        assert("laser"@[0] != "image"@[0]);
    }
    assert("odom"@ != "imu"@) by {
        assert("odom"@.len() != "imu"@.len());
    }
    assert("odom"@ != "camera"@) by {
        assert("odom"@.len() != "camera"@.len());
    }
    assert("odom"@ != "image"@) by {
        assert("odom"@.len() != "image"@.len());
    }
    assert("odom"@ != "lidar"@) by {
        assert("odom"@.len() != "lidar"@.len());
    }
    assert("odom"@ != "laser"@) by {
        assert("odom"@.len() != "laser"@.len());
    }
    assert("odometry"@ != "imu"@) by {
        assert("odometry"@.len() != "imu"@.len());
    }
    assert("odometry"@ != "camera"@) by {
        assert("odometry"@.len() != "camera"@.len());
    }
    assert("odometry"@ != "image"@) by {
        assert("odometry"@.len() != "image"@.len());
    }
    assert("odometry"@ != "lidar"@) by {
        assert("odometry"@.len() != "lidar"@.len());
    }
    assert("odometry"@ != "laser"@) by {
        assert("odometry"@.len() != "laser"@.len());
    }
    assert("odometry"@ != "odom"@) by {
        assert("odometry"@.len() != "odom"@.len());
    }
    assert("pose"@ != "imu"@) by {
        assert("pose"@.len() != "imu"@.len());
    }
    assert("pose"@ != "camera"@) by {
        assert("pose"@.len() != "camera"@.len());
    }
    assert("pose"@ != "image"@) by {
        assert("pose"@.len() != "image"@.len());
    }
    assert("pose"@ != "lidar"@) by {
        assert("pose"@.len() != "lidar"@.len());
    }
    assert("pose"@ != "laser"@) by {
        assert("pose"@.len() != "laser"@.len());
    }
    assert("pose"@ != "odom"@) by {
        assert("pose"@[0] != "odom"@[0]);
    }
    assert("pose"@ != "odometry"@) by {
        assert("pose"@.len() != "odometry"@.len());
    }
    assert("twist"@ != "imu"@) by {
        assert("twist"@.len() != "imu"@.len());
    }
    assert("twist"@ != "camera"@) by {
        assert("twist"@.len() != "camera"@.len());
    }
    assert("twist"@ != "image"@) by {
        assert("twist"@[0] != "image"@[0]);
    }
    assert("twist"@ != "lidar"@) by {
        assert("twist"@[0] != "lidar"@[0]);
    }
    assert("twist"@ != "laser"@) by {
        assert("twist"@[0] != "laser"@[0]);
    }
    assert("twist"@ != "odom"@) by {
        assert("twist"@.len() != "odom"@.len());
    }
    assert("twist"@ != "odometry"@) by {
        assert("twist"@.len() != "odometry"@.len());
    }
    assert("twist"@ != "pose"@) by {
        assert("twist"@.len() != "pose"@.len());
    }
    assert("cmd_vel"@ != "imu"@) by {
        assert("cmd_vel"@.len() != "imu"@.len());
    }
    assert("cmd_vel"@ != "camera"@) by {
        assert("cmd_vel"@.len() != "camera"@.len());
    }
    assert("cmd_vel"@ != "image"@) by {
        assert("cmd_vel"@.len() != "image"@.len());
    }
    assert("cmd_vel"@ != "lidar"@) by {
        assert("cmd_vel"@.len() != "lidar"@.len());
    }
    assert("cmd_vel"@ != "laser"@) by {
        assert("cmd_vel"@.len() != "laser"@.len());
    }
    assert("cmd_vel"@ != "odom"@) by {
        assert("cmd_vel"@.len() != "odom"@.len());
    }
    assert("cmd_vel"@ != "odometry"@) by {
        assert("cmd_vel"@.len() != "odometry"@.len());
    }
    assert("cmd_vel"@ != "pose"@) by {
        assert("cmd_vel"@.len() != "pose"@.len());
    }
    assert("cmd_vel"@ != "twist"@) by {
        assert("cmd_vel"@.len() != "twist"@.len());
    }
}

/// The text of the prompt that asks for the metadata of a bag.
pub open spec fn inspect_text(bag_path: Seq<char>) -> Seq<char> {
    "Use the process_rosbag tool to inspect the metadata and structure of the ROS bag file at '"@
        + bag_path + "'. Call the tool with metadata=true to get:\n- Topic structure with message type definitions\n- Message counts by type and topic\n- Processing statistics\n- Bag duration and timing information\n\nThis will help you understand the contents before extracting specific data."@
}

/// The text of the prompt that asks for the data of a kind of sensor.
pub open spec fn sensor_text(bag_path: Seq<char>, sensor_type: Seq<char>) -> Seq<char> {
    let (types, description) = sensor_kinds(lower_of(sensor_type));
    if types.len() > 0 {
        "Use the process_rosbag tool to extract "@ + description + " from '"@ + bag_path
            + "'.\nCall the tool with messages="@ + debug_text_of_strs(types) + " to process "@
            + sensor_type + " messages.\nYou can also add max=10 to limit output for large datasets."@
    } else {
        "Use the process_rosbag tool to extract data from '"@ + bag_path
            + "'.\nFirst inspect metadata to find available message types, then specify the appropriate message types for "@
            + sensor_type + " data."@
    }
}

/// The topics of a comma-separated list, each trimmed.
pub open spec fn topic_items(topics: Seq<char>) -> Seq<Seq<char>> {
    split(topics, ","@).map_values(|t: Seq<char>| trim(t))
}

/// One line `  - topic` per topic, separated by line breaks.
pub open spec fn topic_lines(items: Seq<Seq<char>>) -> Seq<char>
    decreases items.len(),
{
    if items.len() == 0 {
        Seq::empty()
    } else if items.len() == 1 {
        "  - "@ + items[0]
    } else {
        topic_lines(items.drop_last()) + "\n"@ + "  - "@ + items.last()
    }
}

/// The text of the prompt that asks for some topics of a bag.
pub open spec fn topics_text(bag_path: Seq<char>, topics: Seq<char>) -> Seq<char> {
    let items = topic_items(topics);
    "Use the process_rosbag tool to filter and process specific topics from '"@ + bag_path
        + "'.\nCall the tool with topics="@ + debug_text_of_strs(items)
        + " to process only these topics:\n"@ + topic_lines(items)
        + "\nAdd metadata=true to see topic statistics, or max=5 to limit output per topic.\n\nThis is useful for focusing on specific sensors or data streams in large bag files."@
}

/// The text of the prompt that asks for an analysis of a bag over windows of time.
pub open spec fn temporal_text(bag_path: Seq<char>) -> Seq<char> {
    "Use the messages tool to analyze how the data in the ROS bag file at '"@ + bag_path + "' changes over time, one window of consecutive messages at a time.\nSet offset to where a window starts and limit to its size, then move on by the size: offset=0 and limit=10, then offset=10 and limit=10, and so on.\nAdd messages or topics to follow specific sensors, and compare the header stamps within and across windows to see how much time each window covers.\n\nThis is useful for studying trends, events and timing in long recordings without reading the whole bag at once."@
}

/// The prompt of the given name with the given arguments: its description and text, or the
/// text of the error for an unknown prompt or a missing argument.
pub open spec fn prompt_of(
    name: Seq<char>,
    bag_path: Option<Seq<char>>,
    sensor_type: Option<Seq<char>>,
    topics: Option<Seq<char>>,
) -> core::result::Result<(Seq<char>, Seq<char>), Seq<char>> {
    if name == "inspect_bag_metadata"@ {
        match bag_path {
            None => Err("No bag_path provided to inspect_bag_metadata"@),
            Some(b) => Ok(("Command to inspect bag file metadata and structure"@, inspect_text(b))),
        }
    } else if name == "extract_sensor_data"@ {
        match bag_path {
            None => Err("No bag_path provided to extract_sensor_data"@),
            Some(b) => match sensor_type {
                None => Err("No sensor_type provided to extract_sensor_data"@),
                Some(s) => Ok(
                    ("Command to extract "@ + s + " sensor data"@, sensor_text(b, s)),
                ),
            },
        }
    } else if name == "temporal_analysis"@ {
        match bag_path {
            None => Err("No bag_path provided to temporal_analysis"@),
            Some(b) => Ok(("Command to analyze bag data over windows of time"@, temporal_text(b))),
        }
    } else if name == "topic_filtering"@ {
        match bag_path {
            None => Err("No bag_path provided to topic_filtering"@),
            Some(b) => match topics {
                None => Err("No topics provided to topic_filtering"@),
                Some(t) => Ok(("Command to filter and process specific topics"@, topics_text(b, t))),
            },
        }
    } else {
        Err("prompt not found"@)
    }
}

/// The outcome of building a prompt, by content.
pub open spec fn prompt_outcome(r: Result<PromptText, String>) -> core::result::Result<
    (Seq<char>, Seq<char>),
    Seq<char>,
> {
    match r {
        Ok(p) => Ok((p.description@, p.text@)),
        Err(m) => Err(m@),
    }
}

/// The message types and the description of the data of a kind of sensor, named in any case.
fn sensor_message_types(sensor_type: &str) -> (r: (Vec<&'static str>, &'static str))
    ensures
        strs_view(r.0@) == sensor_kinds(lower_of(sensor_type@)).0,
        r.1@ == sensor_kinds(lower_of(sensor_type@)).1,
{
    let lower = to_lower(sensor_type);
    let k = lower.as_str();
    let r: (Vec<&'static str>, &'static str) = if str_eq(k, "imu") {
        (
            vec!["sensor_msgs/Imu"],
            "IMU sensor data including orientation, angular velocity, and linear acceleration",
        )
    } else if str_eq(k, "camera") || str_eq(k, "image") {
        (vec!["sensor_msgs/Image", "sensor_msgs/CompressedImage"], "camera image data")
    } else if str_eq(k, "lidar") || str_eq(k, "laser") {
        (vec!["sensor_msgs/LaserScan", "sensor_msgs/PointCloud2"], "LiDAR/laser scan data")
    } else if str_eq(k, "odom") || str_eq(k, "odometry") {
        (vec!["nav_msgs/Odometry"], "robot odometry data")
    } else if str_eq(k, "pose") {
        (
            vec!["geometry_msgs/PoseStamped", "geometry_msgs/PoseWithCovarianceStamped"],
            "pose estimation data",
        )
    } else if str_eq(k, "twist") || str_eq(k, "cmd_vel") {
        (vec!["geometry_msgs/Twist"], "velocity command data")
    } else {
        (Vec::new(), "unknown sensor type - please specify message types manually")
    };
    assert(strs_view(r.0@) =~= sensor_kinds(lower_of(sensor_type@)).0);
    r
}

/// The text of the prompt that asks for the data of a kind of sensor.
fn sensor_prompt(bag_path: &str, sensor_type: &str) -> (r: String)
    ensures
        r@ == sensor_text(bag_path@, sensor_type@),
{
    let (types, description) = sensor_message_types(sensor_type);
    if types.len() > 0 {
        let mut out = concat3("Use the process_rosbag tool to extract ", description, " from '");
        out.append(bag_path);
        out.append("'.\nCall the tool with messages=");
        out.append(debug_strs(types.as_slice()).as_str());
        out.append(" to process ");
        out.append(sensor_type);
        out.append(" messages.\nYou can also add max=10 to limit output for large datasets.");
        out
    } else {
        let mut out = concat3("Use the process_rosbag tool to extract data from '", bag_path, "'.\nFirst inspect metadata to find available message types, then specify the appropriate message types for ");
        out.append(sensor_type);
        out.append(" data.");
        out
    }
}

/// The text of the prompt that asks for some topics of a bag.
fn topics_prompt(bag_path: &str, topics: &str) -> (r: String)
    ensures
        r@ == topics_text(bag_path@, topics@),
{
    let v = chars_of(topics);
    let comma: Vec<char> = vec![','];
    proof {
        reveal_strlit(",");
        assert(comma@ =~= ","@);
    }
    let ranges = split_ranges(&v, &comma);
    let ghost pieces = split(topics@, ","@);
    let ghost items = topic_items(topics@);
    assert(split(v@, comma@) == pieces);
    let mut trimmed: Vec<String> = Vec::new();
    let mut i: usize = 0;
    while i < ranges.len()
        invariant
            v@ == topics@,
            pieces == split(topics@, ","@),
            items == topic_items(topics@),
            ranges@.len() == pieces.len(),
            forall|j: int|
                0 <= j < ranges@.len() ==> #[trigger] ranges@[j].0 <= ranges@[j].1 <= v@.len()
                    && v@.subrange(ranges@[j].0 as int, ranges@[j].1 as int) == pieces[j],
            i <= ranges@.len(),
            trimmed@.len() == i,
            forall|j: int| 0 <= j < i ==> (#[trigger] trimmed@[j])@ == items[j],
        decreases ranges@.len() - i,
    {
        let (a, b) = ranges[i];
        let (c, d) = trim_range(&v, a, b);
        trimmed.push(string_of(&v, c, d));
        i = i + 1;
    }
    let mut refs: Vec<&str> = Vec::new();
    let mut k: usize = 0;
    while k < trimmed.len()
        invariant
            k <= trimmed@.len(),
            refs@.len() == k,
            forall|j: int| 0 <= j < k ==> (#[trigger] refs@[j])@ == trimmed@[j]@,
        decreases trimmed@.len() - k,
    {
        refs.push(trimmed[k].as_str());
        k = k + 1;
    }
    assert(strs_view(refs@) =~= items);
    let mut lines = String::new();
    let mut j: usize = 0;
    assert(items.take(0) =~= Seq::<Seq<char>>::empty());
    while j < refs.len()
        invariant
            j <= refs@.len() == items.len(),
            forall|t: int| 0 <= t < refs@.len() ==> (#[trigger] refs@[t])@ == items[t],
            lines@ == topic_lines(items.take(j as int)),
        decreases refs@.len() - j,
    {
        if j > 0 {
            lines.append("\n");
        }
        lines.append("  - ");
        lines.append(refs[j]);
        assert(items.take(j + 1).drop_last() =~= items.take(j as int));
        assert(lines@ =~= topic_lines(items.take(j + 1)));
        j = j + 1;
    }
    assert(items.take(j as int) =~= items);
    let mut out = concat3("Use the process_rosbag tool to filter and process specific topics from '", bag_path, "'.\nCall the tool with topics=");
    out.append(debug_strs(refs.as_slice()).as_str());
    out.append(" to process only these topics:\n");
    out.append(lines.as_str());
    out.append("\nAdd metadata=true to see topic statistics, or max=5 to limit output per topic.\n\nThis is useful for focusing on specific sensors or data streams in large bag files.");
    out
}

/// Builds the prompt of the given name from its arguments (`bag_path`, and `sensor_type` or
/// `topics` where the prompt needs one): `inspect_bag_metadata`, `extract_sensor_data`,
/// `temporal_analysis` or `topic_filtering`.
pub fn get_prompt(
    name: &str,
    bag_path: Option<&str>,
    sensor_type: Option<&str>,
    topics: Option<&str>,
) -> (r: Result<PromptText, String>)
    ensures
        prompt_outcome(r) == prompt_of(
            name@,
            match bag_path {
                Some(b) => Some(b@),
                None => None,
            },
            match sensor_type {
                Some(s) => Some(s@),
                None => None,
            },
            match topics {
                Some(t) => Some(t@),
                None => None,
            },
        ),
{
    if str_eq(name, "inspect_bag_metadata") {
        match bag_path {
            None => Err(String::from_str("No bag_path provided to inspect_bag_metadata")),
            Some(b) => {
                let text = concat3("Use the process_rosbag tool to inspect the metadata and structure of the ROS bag file at '", b, "'. Call the tool with metadata=true to get:\n- Topic structure with message type definitions\n- Message counts by type and topic\n- Processing statistics\n- Bag duration and timing information\n\nThis will help you understand the contents before extracting specific data.");
                Ok(
                    PromptText {
                        description: String::from_str("Command to inspect bag file metadata and structure"),
                        text,
                    },
                )
            },
        }
    } else if str_eq(name, "extract_sensor_data") {
        match bag_path {
            None => Err(String::from_str("No bag_path provided to extract_sensor_data")),
            Some(b) => match sensor_type {
                None => Err(String::from_str("No sensor_type provided to extract_sensor_data")),
                Some(s) => Ok(
                    PromptText {
                        description: concat3("Command to extract ", s, " sensor data"),
                        text: sensor_prompt(b, s),
                    },
                ),
            },
        }
    } else if str_eq(name, "temporal_analysis") {
        match bag_path {
            None => Err(String::from_str("No bag_path provided to temporal_analysis")),
            Some(b) => Ok(
                PromptText {
                    description: String::from_str("Command to analyze bag data over windows of time"),
                    text: concat3("Use the messages tool to analyze how the data in the ROS bag file at '", b, "' changes over time, one window of consecutive messages at a time.\nSet offset to where a window starts and limit to its size, then move on by the size: offset=0 and limit=10, then offset=10 and limit=10, and so on.\nAdd messages or topics to follow specific sensors, and compare the header stamps within and across windows to see how much time each window covers.\n\nThis is useful for studying trends, events and timing in long recordings without reading the whole bag at once."),
                },
            ),
        }
    } else if str_eq(name, "topic_filtering") {
        match bag_path {
            None => Err(String::from_str("No bag_path provided to topic_filtering")),
            Some(b) => match topics {
                None => Err(String::from_str("No topics provided to topic_filtering")),
                Some(t) => Ok(
                    PromptText {
                        description: String::from_str("Command to filter and process specific topics"),
                        text: topics_prompt(b, t),
                    },
                ),
            },
        }
    } else {
        Err(String::from_str("prompt not found"))
    }
}

} // verus!
