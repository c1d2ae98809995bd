use vstd::prelude::*;

verus! {

/// PCM sample rate used for all WAV files (Hz).
pub const SAMPLE_RATE: u32 = 44_100;

/// Baud rate: symbols (bits) transmitted per second.
pub const BAUD_RATE: u32 = 1_200;

/// Number of preamble bytes sent before the sync word.
/// Their alternating bits let a receiver lock onto the bit clock.
pub const PREAMBLE_LEN: usize = 24;

/// The value of every preamble byte.
pub const PREAMBLE_BYTE: u8 = 0xAA;

/// Each of the two bytes of the sync word that marks the start of the frame header.
pub const SYNC_BYTE: u8 = 0x7E;

/// Length of the sync word in bytes.
pub const SYNC_LEN: usize = 2;

/// Longest filename, in bytes, that a frame carries.
pub const MAX_NAME_LEN: usize = 255;

/// Largest payload, in bytes, that the bit-stream decoder accepts.
pub const MAX_DECODED_PAYLOAD: u32 = 1_000_000;

} // verus!
