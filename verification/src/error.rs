//! The library's error type.
use vstd::prelude::*;

verus! {

/// An error reported by the `ros_message` crate while reading a type name or a message
/// definition.
#[verifier::external_type_specification]
#[verifier::external_body]
pub struct ExRosMessageError(ros_message::Error);

/// Everything that can go wrong while reading a bag and decoding its messages.
#[derive(Debug)]
pub enum RosbagError {
    /// Reading failed; the text says how.
    IoError(String),
    /// The bag container itself could not be read; the text says how.
    RosbagError(String),
    /// A message type name or a message definition was refused by `ros_message`.
    RosMessageError(ros_message::Error),
    /// Message data does not match what its definition asks for.
    MessageParsingError(String),
    /// A message definition that decoding needs is not known.
    MissingDefinitionError(String),
}

/// Results of this library.
pub type Result<T> = core::result::Result<T, RosbagError>;

} // verus!
