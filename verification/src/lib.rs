//! Decoding and inspection of ROS bag message data.
use vstd::prelude::*;

pub mod assoc;
pub mod brackets;
pub mod decode;
pub mod definition;
pub mod error;
pub mod float;
pub mod fmt;
pub mod image;
pub mod markdown;
pub mod processor;
pub mod prompt;
pub mod report;
pub mod resource;
pub mod text;
pub mod value;

verus! {
} // verus!
