//! Frame layout:
//!
//! preamble (24 x 0xAA) | 7E 7E | name_len u16 LE | name | payload_len u32 LE | payload | CRC-16 LE
//!
//! The CRC covers everything from the sync word to the end of the payload.
use vstd::prelude::*;
use vstd::utf8::{decode_utf8, valid_utf8};

use crate::config::{MAX_NAME_LEN, PREAMBLE_BYTE, PREAMBLE_LEN, SYNC_BYTE, SYNC_LEN};
use crate::crc::{crc16, crc16_of};
use crate::text::{
    decimal, decimal_string, hex4, hex4_string, string_from_utf8_lossy, utf8_lossy,
};
use vstd::string::StringExecFns;
use vstd::string::StringSliceAdditionalSpecFns;

verus! {

/// A decoded frame: the embedded filename and the payload bytes.
#[derive(Debug)]
pub struct Decoded {
    pub filename: String,
    pub data: Vec<u8>,
}

/// Why a byte buffer holds no valid frame.
#[derive(Debug, Clone, Copy, PartialEq, Eq, Structural)]
pub enum FrameError {
    /// No two consecutive sync bytes in the buffer.
    SyncNotFound,
    /// The buffer ends before the filename length.
    MissingNameLength,
    /// The buffer ends inside the filename.
    MissingFilename,
    /// The buffer ends before the payload length.
    MissingPayloadLength,
    /// The buffer ends inside the payload or the CRC: `needed` bytes from the sync
    /// word on would be required, `available` are there.
    Truncated { needed: u64, available: u64 },
    /// The stored CRC differs from the one computed over the frame.
    CrcMismatch { stored: u16, computed: u16 },
}

/// The text that describes a framing error.
pub open spec fn frame_error_message(e: FrameError) -> Seq<char> {
    match e {
        FrameError::SyncNotFound => "sync word not found"@,
        FrameError::MissingNameLength => "frame too short: missing name_len"@,
        FrameError::MissingFilename => "frame too short: missing filename"@,
        FrameError::MissingPayloadLength => "frame too short: missing payload_len"@,
        FrameError::Truncated { needed, available } => "frame truncated: need "@ + decimal(
            needed as nat,
        ) + " bytes after sync, have "@ + decimal(available as nat),
        FrameError::CrcMismatch { stored, computed } => "CRC mismatch: stored "@ + hex4(stored)
            + ", computed "@ + hex4(computed),
    }
}

impl FrameError {
    /// The text that describes the error.
    pub fn message(&self) -> (text: String)
        ensures
            text@ == frame_error_message(*self),
    {
        match self {
            FrameError::SyncNotFound => String::from_str("sync word not found"),
            FrameError::MissingNameLength => String::from_str("frame too short: missing name_len"),
            FrameError::MissingFilename => String::from_str("frame too short: missing filename"),
            FrameError::MissingPayloadLength => String::from_str(
                "frame too short: missing payload_len",
            ),
            FrameError::Truncated { needed, available } => {
                let mut text = String::from_str("frame truncated: need ");
                text.append(decimal_string(*needed).as_str());
                text.append(" bytes after sync, have ");
                text.append(decimal_string(*available).as_str());
                text
            },
            FrameError::CrcMismatch { stored, computed } => {
                let mut text = String::from_str("CRC mismatch: stored ");
                text.append(hex4_string(*stored).as_str());
                text.append(", computed ");
                text.append(hex4_string(*computed).as_str());
                text
            },
        }
    }
}

/// Little-endian encoding of the low 16 bits of `v`.
pub open spec fn le16(v: int) -> Seq<u8> {
    seq![(v % 256) as u8, ((v / 256) % 256) as u8]
}

/// Little-endian encoding of the low 32 bits of `v`.
pub open spec fn le32(v: int) -> Seq<u8> {
    seq![
        (v % 256) as u8,
        ((v / 256) % 256) as u8,
        ((v / 65536) % 256) as u8,
        ((v / 16777216) % 256) as u8,
    ]
}

/// Value of two little-endian bytes.
pub open spec fn le16_value(b: Seq<u8>) -> int {
    b[0] + 256 * b[1]
}

/// Value of four little-endian bytes.
pub open spec fn le32_value(b: Seq<u8>) -> int {
    b[0] + 256 * b[1] + 65536 * b[2] + 16777216 * b[3]
}

/// The filename bytes that a frame carries: at most the first 255.
pub open spec fn framed_name(name: Seq<u8>) -> Seq<u8> {
    if name.len() <= MAX_NAME_LEN {
        name
    } else {
        name.take(MAX_NAME_LEN as int)
    }
}

/// The payload length as the frame records it, saturated at `u32::MAX`.
pub open spec fn length_field(n: int) -> int {
    if n <= u32::MAX {
        n
    } else {
        u32::MAX as int
    }
}

/// The preamble bytes.
pub open spec fn preamble() -> Seq<u8> {
    Seq::new(PREAMBLE_LEN as nat, |i: int| PREAMBLE_BYTE)
}

/// The sync word.
pub open spec fn sync_word() -> Seq<u8> {
    seq![SYNC_BYTE, SYNC_BYTE]
}

/// The part of a frame that the CRC covers: sync word, name length, name,
/// payload length, payload.
#[verifier::opaque]
pub open spec fn frame_body(data: Seq<u8>, name: Seq<u8>) -> Seq<u8> {
    let n = framed_name(name);
    sync_word() + le16(n.len() as int) + n + le32(length_field(data.len() as int)) + data
}

/// The complete frame for a payload and the bytes of a filename.
#[verifier::opaque]
pub open spec fn frame_bytes(data: Seq<u8>, name: Seq<u8>) -> Seq<u8> {
    let body = frame_body(data, name);
    preamble() + body + le16(crc16_of(body) as int)
}

/// Two sync bytes follow each other at position `j`.
pub open spec fn sync_pair_at(raw: Seq<u8>, j: int) -> bool {
    raw[j] == SYNC_BYTE && raw[j + 1] == SYNC_BYTE
}

/// First position at or after `from` where two sync bytes follow each other.
pub open spec fn first_sync(raw: Seq<u8>, from: int) -> Option<int>
    decreases raw.len() - from,
{
    if from < 0 || from + 2 > raw.len() {
        None
    } else if sync_pair_at(raw, from) {
        Some(from)
    } else {
        first_sync(raw, from + 1)
    }
}

/// What a byte buffer decodes to: the filename bytes and the payload of the frame
/// that starts at the first sync word, or why there is none.
pub open spec fn deframe_spec(raw: Seq<u8>) -> Result<(Seq<u8>, Seq<u8>), FrameError> {
    match first_sync(raw, 0) {
        None => Err(FrameError::SyncNotFound),
        Some(s) => {
            let c0 = s + 2;
            if raw.len() < c0 + 2 {
                Err(FrameError::MissingNameLength)
            } else {
                let name_len = le16_value(raw.subrange(c0, c0 + 2));
                let c1 = c0 + 2;
                if raw.len() < c1 + name_len {
                    Err(FrameError::MissingFilename)
                } else {
                    let name = raw.subrange(c1, c1 + name_len);
                    let c2 = c1 + name_len;
                    if raw.len() < c2 + 4 {
                        Err(FrameError::MissingPayloadLength)
                    } else {
                        let payload_len = le32_value(raw.subrange(c2, c2 + 4));
                        let c3 = c2 + 4;
                        let payload_end = c3 + payload_len;
                        let crc_end = payload_end + 2;
                        if raw.len() < crc_end {
                            Err(
                                FrameError::Truncated {
                                    needed: (crc_end - s) as u64,
                                    available: (raw.len() - s) as u64,
                                },
                            )
                        } else {
                            let stored = le16_value(raw.subrange(payload_end, crc_end));
                            let computed = crc16_of(raw.subrange(s, payload_end));
                            if stored != computed {
                                Err(
                                    FrameError::CrcMismatch {
                                        stored: stored as u16,
                                        computed: computed,
                                    },
                                )
                            } else {
                                Ok((name, raw.subrange(c3, payload_end)))
                            }
                        }
                    }
                }
            }
        },
    }
}

/// Where `first_sync` finds a sync word, it is there, at or after `from`.
pub proof fn lemma_first_sync_found(raw: Seq<u8>, from: int)
    ensures
        first_sync(raw, from) matches Some(p) ==> from <= p && p + 2 <= raw.len() && raw[p]
            == SYNC_BYTE && raw[p + 1] == SYNC_BYTE,
    decreases raw.len() - from,
{
    if !(from < 0 || from + 2 > raw.len()) && !(raw[from] == SYNC_BYTE && raw[from + 1]
        == SYNC_BYTE) {
        lemma_first_sync_found(raw, from + 1);
    }
}

fn push_le16(out: &mut Vec<u8>, v: u16)
    ensures
        final(out)@ == old(out)@ + le16(v as int),
{
    out.push((v % 256) as u8);
    out.push((v / 256) as u8);
    proof {
        assert(final(out)@ =~= old(out)@ + le16(v as int));
    }
}

fn push_le32(out: &mut Vec<u8>, v: u32)
    ensures
        final(out)@ == old(out)@ + le32(v as int),
{
    out.push((v % 256) as u8);
    out.push(((v / 256) % 256) as u8);
    out.push(((v / 65536) % 256) as u8);
    out.push((v / 16777216) as u8);
    proof {
        assert(final(out)@ =~= old(out)@ + le32(v as int));
    }
}

fn push_slice(out: &mut Vec<u8>, src: &[u8], len: usize)
    requires
        len <= src@.len(),
    ensures
        final(out)@ == old(out)@ + src@.take(len as int),
{
    let mut i: usize = 0;
    while i < len
        invariant
            i <= len <= src@.len(),
            out@ == old(out)@ + src@.take(i as int),
        decreases len - i,
    {
        out.push(src[i]);
        proof {
            assert(src@.take(i + 1) =~= src@.take(i as int).push(src@[i as int]));
        }
        i = i + 1;
    }
}

/// Wrap `data` in a transmittable frame that embeds `filename` (its UTF-8 bytes,
/// cut to the first 255), so that a receiver can restore the file under its name.
pub fn frame(data: &[u8], filename: &str) -> (out: Vec<u8>)
    ensures
        out@ == frame_bytes(data@, filename.spec_bytes()),
{
    let name_bytes = filename.as_bytes();
    let name_len: usize = if name_bytes.len() < MAX_NAME_LEN {
        name_bytes.len()
    } else {
        MAX_NAME_LEN
    };
    let ghost name = framed_name(name_bytes@);
    proof {
        reveal(frame_bytes);
        reveal(frame_body);
        assert(name =~= name_bytes@.take(name_len as int));
    }
    let mut out: Vec<u8> = Vec::new();
    let mut k: usize = 0;
    while k < PREAMBLE_LEN
        invariant
            k <= PREAMBLE_LEN,
            out@ =~= Seq::new(k as nat, |i: int| PREAMBLE_BYTE),
        decreases PREAMBLE_LEN - k,
    {
        out.push(PREAMBLE_BYTE);
        k = k + 1;
    }
    let mut s: usize = 0;
    while s < SYNC_LEN
        invariant
            s <= SYNC_LEN,
            out@ =~= preamble() + Seq::new(s as nat, |i: int| SYNC_BYTE),
        decreases SYNC_LEN - s,
    {
        out.push(SYNC_BYTE);
        s = s + 1;
    }
    push_le16(&mut out, name_len as u16);
    push_slice(&mut out, name_bytes, name_len);
    let payload_len: u32 = if data.len() <= u32::MAX as usize {
        data.len() as u32
    } else {
        u32::MAX
    };
    push_le32(&mut out, payload_len);
    push_slice(&mut out, data, data.len());
    let ghost body = frame_body(data@, name_bytes@);
    proof {
        assert(data@.take(data@.len() as int) =~= data@);
        assert(out@ =~= preamble() + body);
    }
    let crc = crc16(&out.as_slice()[PREAMBLE_LEN..out.len()]);
    proof {
        assert(out@.subrange(PREAMBLE_LEN as int, out@.len() as int) =~= body);
    }
    push_le16(&mut out, crc);
    out
}

fn find_sync(raw: &[u8]) -> (pos: Option<usize>)
    ensures
        pos matches Some(p) ==> first_sync(raw@, 0) == Some(p as int),
        pos is None ==> first_sync(raw@, 0) is None,
{
    let mut i: usize = 0;
    while i < raw.len()
        invariant
            i <= raw@.len(),
            first_sync(raw@, 0) == first_sync(raw@, i as int),
        decreases raw@.len() - i,
    {
        if raw.len() - i < 2 {
            return None;
        }
        if raw[i] == SYNC_BYTE && raw[i + 1] == SYNC_BYTE {
            return Some(i);
        }
        i = i + 1;
    }
    None
}

fn read_le16(field: &[u8]) -> (v: u16)
    requires
        field@.len() == 2,
    ensures
        v as int == le16_value(field@),
{
    field[0] as u16 + 256 * (field[1] as u16)
}

fn read_le32(field: &[u8]) -> (v: u32)
    requires
        field@.len() == 4,
    ensures
        v as int == le32_value(field@),
{
    field[0] as u32 + 256 * (field[1] as u32) + 65536 * (field[2] as u32) + 16777216 * (
    field[3] as u32)
}

/// Find and check the frame that starts at the first sync word of `raw`, and return
/// its filename (decoded as UTF-8, ill-formed parts replaced) and its payload.
pub fn deframe(raw: &[u8]) -> (res: Result<Decoded, FrameError>)
    ensures
        match deframe_spec(raw@) {
            Ok((name, data)) => res matches Ok(d) && d.filename@ == utf8_lossy(name) && (valid_utf8(
                name) ==> d.filename@ == decode_utf8(name)) && d.data@ == data,
            Err(e) => res matches Err(e2) && e2 == e,
        },
{
    let n = raw.len();
    let sync_pos = match find_sync(raw) {
        Some(p) => p,
        None => {
            return Err(FrameError::SyncNotFound);
        },
    };
    proof {
        lemma_first_sync_found(raw@, 0);
    }
    let mut cursor = sync_pos + SYNC_LEN;
    if n - cursor < 2 {
        return Err(FrameError::MissingNameLength);
    }
    let name_len = read_le16(&raw[cursor..cursor + 2]) as usize;
    cursor = cursor + 2;
    if n - cursor < name_len {
        return Err(FrameError::MissingFilename);
    }
    let filename = string_from_utf8_lossy(&raw[cursor..cursor + name_len]);
    cursor = cursor + name_len;
    if n - cursor < 4 {
        return Err(FrameError::MissingPayloadLength);
    }
    let payload_len = read_le32(&raw[cursor..cursor + 4]);
    cursor = cursor + 4;
    if (((n - cursor) as u64) < payload_len as u64 + 2) {
        let needed: u64 = (cursor - sync_pos) as u64 + payload_len as u64 + 2;
        let available: u64 = (n - sync_pos) as u64;
        return Err(FrameError::Truncated { needed, available });
    }
    let payload_end = cursor + payload_len as usize;
    let crc_end = payload_end + 2;
    let stored = read_le16(&raw[payload_end..crc_end]);
    let computed = crc16(&raw[sync_pos..payload_end]);
    if stored != computed {
        return Err(FrameError::CrcMismatch { stored, computed });
    }
    let data = vstd::slice::slice_to_vec(&raw[cursor..payload_end]);
    Ok(Decoded { filename, data })
}

} // verus!
