//! Byte framing, CRC-16/CCITT and bit packing for a Bell-202 style
//! audio frequency-shift keying codec.

pub mod config;
pub mod crc;
pub mod bits;
pub mod text;
pub mod framer;
pub mod decoder;
pub mod roundtrip;
pub mod gui;
