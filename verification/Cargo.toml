[package]
name = "rosbag_msgs"
version = "0.1.0"
edition = "2021"
publish = false

[dependencies]
ros_message = "=0.1.1"
rosbag = "=0.6.3"
byteorder = "=1.5.0"
image = { version = "=0.25.10", default-features = false, features = ["png", "jpeg"] }
regex = "=1.13.1"
urlencoding = "=2.1.3"
base64 = "=0.22.1"
tokio = { version = "=1.54.1", features = ["full"] }
clap = { version = "=4.6.7", features = ["derive"] }
env_logger = "=0.11.11"
log = "=0.4.35"
thiserror = "=2.0.21"
serde = { version = "=1.0.229", features = ["derive"] }
serde_json = "=1.0.154"
rmcp = { version = "=0.1.5", features = ["server", "transport-io"] }
tracing = "=0.1.44"
tracing-subscriber = { version = "=0.3.23", features = ["env-filter"] }
