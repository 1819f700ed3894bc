# rosbag_msgs

Reading ROS 1 bag files: decoding message data against its message definitions, selecting
messages by type or topic with offset/limit pages, counting messages, writing decoded values
as markdown, and turning image messages into PNG data.

The library in `src/` is written in Verus; every function in it carries a contract that
Verus proves. Calls into outside crates (`ros_message`, `byteorder`, `image`, `regex`,
`urlencoding`) and a few std functions go through small trusted wrappers whose contracts
say what those functions do.

- `value`: the decoded value model and typed field access (`ValueExt`, `FromValue`).
- `definition`: message type names and message definitions (through `ros_message`).
- `decode`: decoding message bytes against definitions.
- `processor`: the state of a pass over a bag: connections, registrations, pages, counts.
- `markdown`, `float`, `fmt`: text of values and numbers.
- `image`: PNG data of image messages.
- `resource`, `prompt`, `report`: resource URIs, prompts and report texts of the bag server.
- `text`, `assoc`, `brackets`: building blocks.

`app/` holds the command line program and the MCP server: reading bag files with the
`rosbag` crate, channels, files and the protocol.
