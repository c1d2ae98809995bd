//! Recovery of a frame from a demodulated bit stream.
use vstd::prelude::*;
use vstd::utf8::{decode_utf8, valid_utf8};

use crate::bits::{bits_to_bytes, pack_bytes, unpack_bytes};
use crate::config::{MAX_DECODED_PAYLOAD, MAX_NAME_LEN};
use crate::crc::{crc16, crc16_of};
use crate::framer::{le16_value, le32_value, sync_word, Decoded, FrameError};
use crate::text::{string_from_utf8_lossy, utf8_lossy};

verus! {

/// The bit pattern of the sync word, most significant bit of each byte first.
pub open spec fn sync_bits() -> Seq<bool> {
    unpack_bytes(sync_word())
}

/// The sync pattern starts at bit `p`.
pub open spec fn sync_at(bits: Seq<bool>, p: int) -> bool {
    0 <= p && p + 16 <= bits.len() && bits.subrange(p, p + 16) == sync_bits()
}

/// The bytes that the bits `[from, to)` pack into.
pub open spec fn bytes_of(bits: Seq<bool>, from: int, to: int) -> Seq<u8> {
    pack_bytes(bits.subrange(from, to))
}

/// Filename length read after a sync pattern at `s`.
pub open spec fn name_len_at(bits: Seq<bool>, s: int) -> int {
    le16_value(bytes_of(bits, s + 16, s + 32))
}

/// Bit position where the filename of a frame at `s` ends.
pub open spec fn name_end_at(bits: Seq<bool>, s: int) -> int {
    s + 32 + 8 * name_len_at(bits, s)
}

/// Payload length read after the filename of a frame at `s`.
pub open spec fn payload_len_at(bits: Seq<bool>, s: int) -> int {
    let e = name_end_at(bits, s);
    le32_value(bytes_of(bits, e, e + 32))
}

/// Bit position where the payload of a frame at `s` starts.
pub open spec fn payload_start_at(bits: Seq<bool>, s: int) -> int {
    name_end_at(bits, s) + 32
}

/// Bit position where the payload of a frame at `s` ends.
pub open spec fn payload_end_at(bits: Seq<bool>, s: int) -> int {
    payload_start_at(bits, s) + 8 * payload_len_at(bits, s)
}

/// A frame at sync position `s` is complete, within the limits, and its CRC matches.
pub open spec fn frame_ok_at(bits: Seq<bool>, s: int) -> bool {
    let pe = payload_end_at(bits, s);
    &&& s + 32 <= bits.len()
    &&& name_len_at(bits, s) <= MAX_NAME_LEN
    &&& name_end_at(bits, s) + 32 <= bits.len()
    &&& payload_len_at(bits, s) <= MAX_DECODED_PAYLOAD
    &&& pe + 16 <= bits.len()
    &&& le16_value(bytes_of(bits, pe, pe + 16)) == crc16_of(bytes_of(bits, s, pe))
}

/// The search gives up at sync position `s`: the stream ends before the filename
/// length, or, with an acceptable filename, before the payload length.
pub open spec fn frame_stop_at(bits: Seq<bool>, s: int) -> bool {
    ||| s + 32 > bits.len()
    ||| {
        &&& name_len_at(bits, s) <= MAX_NAME_LEN
        &&& name_end_at(bits, s) <= bits.len()
        &&& name_end_at(bits, s) + 32 > bits.len()
    }
}

/// The search rejects the frame at sync position `s` and looks further: its
/// filename length is in the stream, and the filename is longer than 255 bytes or
/// runs past the stream, or, with its payload length in the stream, the payload is
/// over 1 000 000 bytes, or the payload and CRC run past the stream, or the stored
/// CRC differs from the one computed from the sync word to the end of the payload.
pub open spec fn rejected_at(bits: Seq<bool>, s: int) -> bool {
    let ne = name_end_at(bits, s);
    let pe = payload_end_at(bits, s);
    &&& s + 32 <= bits.len()
    &&& {
        ||| name_len_at(bits, s) > MAX_NAME_LEN
        ||| ne > bits.len()
        ||| {
            &&& ne + 32 <= bits.len()
            &&& {
                ||| payload_len_at(bits, s) > MAX_DECODED_PAYLOAD
                ||| pe + 16 > bits.len()
                ||| le16_value(bytes_of(bits, pe, pe + 16)) != crc16_of(bytes_of(bits, s, pe))
            }
        }
    }
}

/// The frame that the search finds from bit `p` on: the filename bytes and the
/// payload of the first sync position that holds a valid frame, unless the search
/// gives up first.
pub open spec fn find_frame_from(bits: Seq<bool>, p: int) -> Option<(Seq<u8>, Seq<u8>)>
    decreases bits.len() - p,
{
    if p < 0 || p + 16 > bits.len() {
        None
    } else if !sync_at(bits, p) {
        find_frame_from(bits, p + 1)
    } else if frame_ok_at(bits, p) {
        Some(
            (
                bytes_of(bits, p + 32, name_end_at(bits, p)),
                bytes_of(bits, payload_start_at(bits, p), payload_end_at(bits, p)),
            ),
        )
    } else if frame_stop_at(bits, p) {
        None
    } else {
        find_frame_from(bits, p + 1)
    }
}

/// A rejected frame does not end the search: what is found from a rejected sync
/// position is what is found from the next bit on. In particular a frame whose
/// payload and CRC would run past the end of the stream is passed over.
pub proof fn lemma_search_passes_rejected(bits: Seq<bool>, p: int)
    requires
        0 <= p,
        rejected_at(bits, p),
    ensures
        find_frame_from(bits, p) == find_frame_from(bits, p + 1),
{
}

/// The search gives up, finding nothing, at a sync pattern whose filename length
/// runs past the end of the stream, or whose filename is acceptable but whose
/// payload length runs past the end of the stream.
pub proof fn lemma_search_stops_at_cut_header(bits: Seq<bool>, p: int)
    requires
        sync_at(bits, p),
        p + 32 > bits.len() || (name_len_at(bits, p) <= MAX_NAME_LEN && name_end_at(bits, p)
            <= bits.len() && name_end_at(bits, p) + 32 > bits.len()),
    ensures
        find_frame_from(bits, p) is None,
{
}

/// The sync pattern is 0111_1110 twice.
pub proof fn lemma_sync_bits()
    ensures
        sync_bits() == Seq::new(16, |k: int| k % 8 != 0 && k % 8 != 7),
{
    assert((0x7Eu8 >> 7u8) & 1u8 == 0u8 && (0x7Eu8 >> 6u8) & 1u8 == 1u8 && (0x7Eu8 >> 5u8) & 1u8
        == 1u8 && (0x7Eu8 >> 4u8) & 1u8 == 1u8 && (0x7Eu8 >> 3u8) & 1u8 == 1u8 && (0x7Eu8 >> 2u8)
        & 1u8 == 1u8 && (0x7Eu8 >> 1u8) & 1u8 == 1u8 && (0x7Eu8 >> 0u8) & 1u8 == 0u8)
        by (bit_vector);
    assert(sync_bits() =~= Seq::new(16, |k: int| k % 8 != 0 && k % 8 != 7));
}

fn is_sync_window(window: &[bool]) -> (r: bool)
    requires
        window@.len() == 16,
    ensures
        r == (window@ == sync_bits()),
{
    proof {
        lemma_sync_bits();
    }
    let mut k: usize = 0;
    while k < 16
        invariant
            k <= 16,
            window@.len() == 16,
            sync_bits() == Seq::new(16, |k: int| k % 8 != 0 && k % 8 != 7),
            forall|i: int| 0 <= i < k ==> window@[i] == sync_bits()[i],
        decreases 16 - k,
    {
        let expected = k % 8 != 0 && k % 8 != 7;
        if window[k] != expected {
            return false;
        }
        k = k + 1;
    }
    proof {
        assert(window@ =~= sync_bits());
    }
    true
}

fn read_u16_bits(window: &[bool]) -> (v: u16)
    requires
        window@.len() == 16,
    ensures
        v as int == le16_value(pack_bytes(window@)),
{
    let b = bits_to_bytes(window);
    b[0] as u16 + 256 * (b[1] as u16)
}

fn read_u32_bits(window: &[bool]) -> (v: u32)
    requires
        window@.len() == 32,
    ensures
        v as int == le32_value(pack_bytes(window@)),
{
    let b = bits_to_bytes(window);
    b[0] as u32 + 256 * (b[1] as u32) + 65536 * (b[2] as u32) + 16777216 * (b[3] as u32)
}

/// Search a demodulated bit stream for the first valid frame and return its
/// filename (decoded as UTF-8, ill-formed parts replaced) and payload.
/// A sync pattern is skipped when its filename is longer than 255 bytes or runs
/// past the stream, when its payload is over 1 000 000 bytes or its payload and
/// CRC run past the stream, or when its CRC does not match. The search stops with
/// an error when the stream ends before a sync pattern's filename length, or,
/// with an acceptable filename, before its payload length.
pub fn find_frame_in_bits(bits: &[bool]) -> (res: Result<Decoded, FrameError>)
    ensures
        match find_frame_from(bits@, 0) {
            Some((name, data)) => res matches Ok(d) && d.filename@ == utf8_lossy(name) && (valid_utf8(
                name) ==> d.filename@ == decode_utf8(name)) && d.data@ == data,
            None => res matches Err(e) && e == FrameError::SyncNotFound,
        },
{
    let n = bits.len();
    let mut search: usize = 0;
    while search < n
        invariant
            n == bits@.len(),
            search <= n,
            find_frame_from(bits@, 0) == find_frame_from(bits@, search as int),
        decreases n - search,
    {
        if n - search < 16 {
            return Err(FrameError::SyncNotFound);
        }
        if !is_sync_window(&bits[search..search + 16]) {
            search = search + 1;
            continue;
        }
        let sync_start = search;
        let mut cursor = sync_start + 16;
        if n - cursor < 16 {
            return Err(FrameError::SyncNotFound);
        }
        let name_len = read_u16_bits(&bits[cursor..cursor + 16]) as usize;
        cursor = cursor + 16;
        if name_len > MAX_NAME_LEN {
            search = sync_start + 1;
            continue;
        }
        let name_bits = name_len * 8;
        if n - cursor < name_bits {
            search = sync_start + 1;
            continue;
        }
        let name_bytes = bits_to_bytes(&bits[cursor..cursor + name_bits]);
        cursor = cursor + name_bits;
        if n - cursor < 32 {
            return Err(FrameError::SyncNotFound);
        }
        let payload_len = read_u32_bits(&bits[cursor..cursor + 32]);
        cursor = cursor + 32;
        if payload_len > MAX_DECODED_PAYLOAD {
            search = sync_start + 1;
            continue;
        }
        let payload_start = cursor;
        let payload_bits = payload_len as usize * 8;
        if n - payload_start < payload_bits + 16 {
            search = sync_start + 1;
            continue;
        }
        let payload_end = payload_start + payload_bits;
        let crc_end = payload_end + 16;
        let frame_bytes = bits_to_bytes(&bits[sync_start..payload_end]);
        let computed = crc16(frame_bytes.as_slice());
        let stored = read_u16_bits(&bits[payload_end..crc_end]);
        if stored == computed {
            let filename = string_from_utf8_lossy(name_bytes.as_slice());
            let data = bits_to_bytes(&bits[payload_start..payload_end]);
            return Ok(Decoded { filename, data });
        }
        search = sync_start + 1;
    }
    Err(FrameError::SyncNotFound)
}

} // verus!
