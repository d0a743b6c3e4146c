//! A compact, non-self-describing binary wire format: fixed-width little-endian
//! numbers, varint lengths and ordinals, shape-driven decoding, and optional
//! zero-free framing of whole messages.
use vstd::prelude::*;

pub mod error;
pub mod fixed;
pub mod varint;
pub mod value;
pub mod laws;
pub mod de;
pub mod ser;
pub mod frame;
