//! Text helpers of the chat layer.

pub mod chunking;
pub mod mentions;
pub mod roundtrip;
pub mod sanitizer;
pub mod tags;
pub mod text;
