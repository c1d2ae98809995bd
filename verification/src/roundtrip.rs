//! What a receiver recovers of what a sender framed.
use vstd::prelude::*;
use vstd::utf8::{decode_utf8, encode_utf8, encode_utf8_decode_utf8, encode_utf8_valid_utf8, valid_utf8};

use crate::bits::{
    byte_bit, chunk, lemma_pack_bits_le_255, lemma_pack_unpack, lemma_unpack_subrange, pack_bits,
    pack_bytes, unpack_bytes,
};
use crate::config::{MAX_DECODED_PAYLOAD, MAX_NAME_LEN, PREAMBLE_BYTE, SYNC_BYTE};
use crate::decoder::{
    bytes_of, find_frame_from, frame_ok_at, lemma_sync_bits, name_end_at, name_len_at,
    payload_end_at, payload_len_at, payload_start_at, rejected_at, sync_at, sync_bits,
};
use crate::crc::crc16_of;
use crate::framer::{
    deframe_spec, first_sync, frame_body, FrameError, frame_bytes, framed_name, le16, le16_value, le32,
    le32_value, length_field, sync_pair_at,
};

verus! {

/// A filename whose UTF-8 encoding has at most 255 bytes travels whole, and the
/// bytes a frame carries for it decode back to it.
pub proof fn lemma_framed_name_decodes(filename: Seq<char>)
    requires
        encode_utf8(filename).len() <= MAX_NAME_LEN,
    ensures
        framed_name(encode_utf8(filename)) == encode_utf8(filename),
        valid_utf8(framed_name(encode_utf8(filename))),
        decode_utf8(framed_name(encode_utf8(filename))) == filename,
{
    encode_utf8_valid_utf8(filename);
    encode_utf8_decode_utf8(filename);
}

/// A frame is 34 bytes longer than the filename bytes it carries and the payload
/// together: 24 preamble bytes, the sync word, the two length fields and the CRC.
pub proof fn lemma_frame_len(data: Seq<u8>, name: Seq<u8>)
    ensures
        frame_bytes(data, name).len() == 34 + framed_name(name).len() + data.len(),
{
    reveal(frame_bytes);
    reveal(frame_body);
}

/// Reading two little-endian bytes gives back the 16-bit value they encode.
pub proof fn lemma_le16_roundtrip(v: u16)
    ensures
        le16_value(le16(v as int)) == v,
{
    assert(((v % 256) as u8) as u32 + 256 * (((v / 256) % 256) as u8) as u32 == v as u32)
        by (bit_vector);
}

/// Reading four little-endian bytes gives back the 32-bit value they encode.
pub proof fn lemma_le32_roundtrip(v: u32)
    ensures
        le32_value(le32(v as int)) == v,
{
    assert(((v % 256) as u8) as u64 + 256 * (((v / 256) % 256) as u8) as u64 + 65536 * (((v
        / 65536) % 256) as u8) as u64 + 16777216 * (((v / 16777216) % 256) as u8) as u64
        == v as u64) by (bit_vector);
}

proof fn lemma_no_sync_pair(g: Seq<u8>, from: int, j: int)
    requires
        first_sync(g, from) is None,
        0 <= from <= j,
        j + 1 < g.len(),
    ensures
        !sync_pair_at(g, j),
    decreases j - from,
{
    if from < j {
        lemma_no_sync_pair(g, from + 1, j);
    }
}

proof fn lemma_first_sync_skip(raw: Seq<u8>, from: int, s: int)
    requires
        0 <= from <= s,
        s + 2 <= raw.len(),
        sync_pair_at(raw, s),
        forall|j: int| from <= j < s ==> !#[trigger] sync_pair_at(raw, j),
    ensures
        first_sync(raw, from) == Some(s),
    decreases s - from,
{
    if from < s {
        lemma_first_sync_skip(raw, from + 1, s);
    }
}

#[verifier::spinoff_prover]
#[verifier::rlimit(30)]
proof fn lemma_deframe_in(
    garbage: Seq<u8>,
    f: Seq<u8>,
    body: Seq<u8>,
    name: Seq<u8>,
    data: Seq<u8>,
    trailing: Seq<u8>,
    stored: u16,
)
    requires
        first_sync(garbage, 0) is None,
        name.len() <= MAX_NAME_LEN,
        data.len() <= u32::MAX,
        ({
            let nl = name.len() as int;
            let dl = data.len() as int;
            &&& f.len() == 34 + nl + dl
            &&& forall|i: int| 0 <= i < 24 ==> f[i] == PREAMBLE_BYTE
            &&& f.subrange(24, 26) == crate::framer::sync_word()
            &&& f.subrange(26, 28) == le16(nl)
            &&& f.subrange(28, 28 + nl) == name
            &&& f.subrange(28 + nl, 32 + nl) == le32(dl)
            &&& f.subrange(32 + nl, 32 + nl + dl) == data
            &&& f.subrange(24, 32 + nl + dl) == body
            &&& f.subrange(32 + nl + dl, 34 + nl + dl) == le16(stored as int)
        }),
    ensures
        deframe_spec(garbage + f + trailing) == if stored == crc16_of(body) {
            Ok::<(Seq<u8>, Seq<u8>), FrameError>((name, data))
        } else {
            Err(FrameError::CrcMismatch { stored, computed: crc16_of(body) })
        },
{
    let crc = stored;
    let x = garbage + f;
    let raw = x + trailing;
    let g = garbage.len() as int;
    let s = g + 24;
    let nl = name.len() as int;
    let dl = data.len() as int;
    assert forall|i: int, j: int| 0 <= i <= j <= f.len() implies #[trigger] raw.subrange(
        g + i,
        g + j,
    ) == f.subrange(i, j) by {
        lemma_sub_left(x, trailing, g + i, g + j);
        lemma_sub_right(garbage, f, i, j);
    }
    assert forall|i: int| 0 <= i < f.len() implies raw[g + i] == f[i] by {
        assert(raw[g + i] == x[g + i]);
    }
    assert(f[24] == f.subrange(24, 26)[0] && f[25] == f.subrange(24, 26)[1]);
    assert forall|j: int| 0 <= j < s implies !#[trigger] sync_pair_at(raw, j) by {
        if j + 1 < g {
            lemma_no_sync_pair(garbage, 0, j);
            assert(raw[j] == garbage[j] && raw[j + 1] == garbage[j + 1]);
        } else if j + 1 < s {
            assert(raw[g + (j + 1 - g)] == f[j + 1 - g]);
        } else {
            assert(raw[g + (j - g)] == f[j - g]);
        }
    }
    assert(raw[g + 24] == f[24] && raw[g + 25] == f[25]);
    assert(sync_pair_at(raw, s));
    lemma_first_sync_skip(raw, 0, s);
    assert(raw.subrange(g + 26, g + 28) == f.subrange(26, 28));
    lemma_le16_roundtrip(nl as u16);
    assert(raw.subrange(g + 28, g + (28 + nl)) == f.subrange(28, 28 + nl));
    assert(raw.subrange(g + (28 + nl), g + (32 + nl)) == f.subrange(28 + nl, 32 + nl));
    lemma_le32_roundtrip(dl as u32);
    assert(raw.subrange(g + (32 + nl + dl), g + (34 + nl + dl)) == f.subrange(
        32 + nl + dl,
        34 + nl + dl,
    ));
    lemma_le16_roundtrip(crc);
    assert(raw.subrange(g + 24, g + (32 + nl + dl)) == f.subrange(24, 32 + nl + dl));
    assert(raw.subrange(g + (32 + nl), g + (32 + nl + dl)) == f.subrange(32 + nl, 32 + nl + dl));
}

/// A frame, after any bytes that hold no sync word and before any bytes at all,
/// deframes to the filename bytes and the payload it was made of, when the filename
/// has at most 255 bytes and the payload length fits the 32-bit length field.
pub proof fn lemma_deframe_frame(
    garbage: Seq<u8>,
    data: Seq<u8>,
    name: Seq<u8>,
    trailing: Seq<u8>,
)
    requires
        first_sync(garbage, 0) is None,
        name.len() <= MAX_NAME_LEN,
        data.len() <= u32::MAX,
    ensures
        deframe_spec(garbage + frame_bytes(data, name) + trailing) == Ok::<
            (Seq<u8>, Seq<u8>),
            FrameError,
        >((name, data)),
{
    lemma_frame_layout(data, name);
    lemma_deframe_in(
        garbage,
        frame_bytes(data, name),
        frame_body(data, name),
        name,
        data,
        trailing,
        crc16_of(frame_body(data, name)),
    );
}

/// Changing any one payload byte of a frame makes deframing fail the CRC check,
/// with the CRC the frame stores and the one computed over the changed bytes.
#[verifier::spinoff_prover]
#[verifier::rlimit(30)]
pub proof fn lemma_deframe_detects_payload_change(data: Seq<u8>, name: Seq<u8>, i: int, v: u8)
    requires
        name.len() <= MAX_NAME_LEN,
        data.len() <= u32::MAX,
        0 <= i < data.len(),
        v != data[i],
    ensures
        ({
            let nl = name.len() as int;
            let body = frame_body(data, name);
            deframe_spec(frame_bytes(data, name).update(32 + nl + i, v)) == Err::<
                (Seq<u8>, Seq<u8>),
                FrameError,
            >(
                FrameError::CrcMismatch {
                    stored: crc16_of(body),
                    computed: crc16_of(body.update(8 + nl + i, v)),
                },
            )
        }),
{
    let nl = name.len() as int;
    let dl = data.len() as int;
    let f = frame_bytes(data, name);
    let body = frame_body(data, name);
    lemma_frame_layout(data, name);
    let p = 32 + nl + i;
    let f2 = f.update(p, v);
    let body2 = body.update(8 + nl + i, v);
    let data2 = data.update(i, v);
    assert(body[8 + nl + i] == body.subrange(8 + nl, 8 + nl + dl)[i]);
    crate::crc::lemma_crc16_detects_byte_change(body, 8 + nl + i, v);
    assert forall|k: int| 0 <= k < 24 implies f2[k] == PREAMBLE_BYTE by {
        assert(f2[k] == f[k]);
    }
    assert(f2.subrange(24, 26) =~= f.subrange(24, 26));
    assert(f2.subrange(26, 28) =~= f.subrange(26, 28));
    assert(f2.subrange(28, 28 + nl) =~= f.subrange(28, 28 + nl));
    assert(f2.subrange(28 + nl, 32 + nl) =~= f.subrange(28 + nl, 32 + nl));
    assert(f2.subrange(32 + nl, 32 + nl + dl) =~= data2);
    assert(f2.subrange(24, 32 + nl + dl) =~= body2);
    assert(f2.subrange(32 + nl + dl, 34 + nl + dl) =~= f.subrange(32 + nl + dl, 34 + nl + dl));
    assert(first_sync(Seq::<u8>::empty(), 0) is None);
    lemma_deframe_in(
        Seq::empty(),
        f2,
        body2,
        name,
        data2,
        Seq::empty(),
        crc16_of(body),
    );
    assert(Seq::<u8>::empty() + f2 + Seq::<u8>::empty() =~= f2);
}

/// Changing any one filename byte of a frame makes deframing fail the CRC check,
/// with the CRC the frame stores and the one computed over the changed bytes.
#[verifier::spinoff_prover]
#[verifier::rlimit(30)]
pub proof fn lemma_deframe_detects_name_change(data: Seq<u8>, name: Seq<u8>, j: int, v: u8)
    requires
        name.len() <= MAX_NAME_LEN,
        data.len() <= u32::MAX,
        0 <= j < name.len(),
        v != name[j],
    ensures
        ({
            let body = frame_body(data, name);
            deframe_spec(frame_bytes(data, name).update(28 + j, v)) == Err::<
                (Seq<u8>, Seq<u8>),
                FrameError,
            >(
                FrameError::CrcMismatch {
                    stored: crc16_of(body),
                    computed: crc16_of(body.update(4 + j, v)),
                },
            )
        }),
{
    let nl = name.len() as int;
    let dl = data.len() as int;
    let f = frame_bytes(data, name);
    let body = frame_body(data, name);
    lemma_frame_layout(data, name);
    lemma_body_layout(data, name);
    let f2 = f.update(28 + j, v);
    let body2 = body.update(4 + j, v);
    let name2 = name.update(j, v);
    assert(body[4 + j] == body.subrange(4, 4 + nl)[j]);
    crate::crc::lemma_crc16_detects_byte_change(body, 4 + j, v);
    assert forall|k: int| 0 <= k < 24 implies f2[k] == PREAMBLE_BYTE by {
        assert(f2[k] == f[k]);
    }
    assert(f2.subrange(24, 26) =~= f.subrange(24, 26));
    assert(f2.subrange(26, 28) =~= f.subrange(26, 28));
    assert(f2.subrange(28, 28 + nl) =~= name2);
    assert(f2.subrange(28 + nl, 32 + nl) =~= f.subrange(28 + nl, 32 + nl));
    assert(f2.subrange(32 + nl, 32 + nl + dl) =~= f.subrange(32 + nl, 32 + nl + dl));
    assert(f2.subrange(24, 32 + nl + dl) =~= body2);
    assert(f2.subrange(32 + nl + dl, 34 + nl + dl) =~= f.subrange(32 + nl + dl, 34 + nl + dl));
    assert(first_sync(Seq::<u8>::empty(), 0) is None);
    lemma_deframe_in(Seq::empty(), f2, body2, name2, data, Seq::empty(), crc16_of(body));
    assert(Seq::<u8>::empty() + f2 + Seq::<u8>::empty() =~= f2);
}

proof fn lemma_le16_of_bytes(b0: u8, b1: u8)
    ensures
        le16(b0 + 256 * b1) == seq![b0, b1],
        0 <= b0 + 256 * b1 <= u16::MAX,
{
    let v = b0 + 256 * b1;
    vstd::arithmetic::div_mod::lemma_fundamental_div_mod_converse(v, 256, b1 as int, b0 as int);
    vstd::arithmetic::div_mod::lemma_small_mod(b1 as nat, 256);
    assert(le16(v) =~= seq![b0, b1]);
}

/// Changing either byte of the CRC a frame stores makes deframing fail the CRC
/// check, with the changed stored value and the CRC computed over the frame.
#[verifier::spinoff_prover]
#[verifier::rlimit(30)]
pub proof fn lemma_deframe_detects_crc_change(data: Seq<u8>, name: Seq<u8>, k: int, v: u8)
    requires
        name.len() <= MAX_NAME_LEN,
        data.len() <= u32::MAX,
        0 <= k < 2,
        v != frame_bytes(data, name)[34 + name.len() + data.len() - 2 + k],
    ensures
        ({
            let f = frame_bytes(data, name);
            let body = frame_body(data, name);
            let cb = le16(crc16_of(body) as int).update(k, v);
            deframe_spec(f.update(32 + name.len() + data.len() + k, v)) == Err::<
                (Seq<u8>, Seq<u8>),
                FrameError,
            >(
                FrameError::CrcMismatch {
                    stored: le16_value(cb) as u16,
                    computed: crc16_of(body),
                },
            )
        }),
{
    let nl = name.len() as int;
    let dl = data.len() as int;
    let f = frame_bytes(data, name);
    let body = frame_body(data, name);
    lemma_frame_layout(data, name);
    let crc = crc16_of(body);
    let pe = 32 + nl + dl;
    let f2 = f.update(pe + k, v);
    let cb = le16(crc as int).update(k, v);
    lemma_le16_of_bytes(cb[0], cb[1]);
    assert(seq![cb[0], cb[1]] =~= cb);
    let stored = le16_value(cb) as u16;
    assert(le16(stored as int) == cb);
    assert(f[pe + k] == f.subrange(pe, pe + 2)[k]);
    assert(cb[k] != le16(crc as int)[k]);
    assert(stored != crc);
    assert forall|q: int| 0 <= q < 24 implies f2[q] == PREAMBLE_BYTE by {
        assert(f2[q] == f[q]);
    }
    assert(f2.subrange(24, 26) =~= f.subrange(24, 26));
    assert(f2.subrange(26, 28) =~= f.subrange(26, 28));
    assert(f2.subrange(28, 28 + nl) =~= f.subrange(28, 28 + nl));
    assert(f2.subrange(28 + nl, 32 + nl) =~= f.subrange(28 + nl, 32 + nl));
    assert(f2.subrange(32 + nl, 32 + nl + dl) =~= f.subrange(32 + nl, 32 + nl + dl));
    assert(f2.subrange(24, 32 + nl + dl) =~= f.subrange(24, 32 + nl + dl));
    assert(f2.subrange(pe, pe + 2) =~= cb);
    assert(first_sync(Seq::<u8>::empty(), 0) is None);
    lemma_deframe_in(Seq::empty(), f2, body, name, data, Seq::empty(), stored);
    assert(Seq::<u8>::empty() + f2 + Seq::<u8>::empty() =~= f2);
}

proof fn lemma_first_sync_none(raw: Seq<u8>, from: int)
    requires
        0 <= from,
        forall|j: int| from <= j && j + 1 < raw.len() ==> !#[trigger] sync_pair_at(raw, j),
    ensures
        first_sync(raw, from) is None,
    decreases raw.len() - from,
{
    if from + 2 <= raw.len() {
        assert(!sync_pair_at(raw, from));
        lemma_first_sync_none(raw, from + 1);
    }
}

#[verifier::spinoff_prover]
#[verifier::rlimit(30)]
proof fn lemma_prefix_fails_in(f: Seq<u8>, body: Seq<u8>, name: Seq<u8>, data: Seq<u8>, k: int)
    requires
        name.len() <= MAX_NAME_LEN,
        data.len() <= u32::MAX,
        0 <= k < f.len(),
        ({
            let nl = name.len() as int;
            let dl = data.len() as int;
            &&& f.len() == 34 + nl + dl
            &&& forall|i: int| 0 <= i < 24 ==> f[i] == PREAMBLE_BYTE
            &&& f.subrange(24, 26) == crate::framer::sync_word()
            &&& f.subrange(26, 28) == le16(nl)
            &&& f.subrange(28 + nl, 32 + nl) == le32(dl)
        }),
    ensures
        deframe_spec(f.take(k)) is Err,
{
    let nl = name.len() as int;
    let dl = data.len() as int;
    let t = f.take(k);
    assert(f[24] == f.subrange(24, 26)[0] && f[25] == f.subrange(24, 26)[1]);
    if k <= 25 {
        assert forall|j: int| 0 <= j && j + 1 < t.len() implies !#[trigger] sync_pair_at(t, j) by {
            assert(t[j] == f[j]);
        }
        lemma_first_sync_none(t, 0);
    } else {
        assert forall|j: int| 0 <= j < 24 implies !#[trigger] sync_pair_at(t, j) by {
            assert(t[j] == f[j]);
        }
        assert(t[24] == f[24] && t[25] == f[25]);
        lemma_first_sync_skip(t, 0, 24);
        if k >= 28 {
            assert(t.subrange(26, 28) =~= f.subrange(26, 28));
            lemma_le16_roundtrip(nl as u16);
            if k >= 32 + nl {
                assert(t.subrange(28 + nl, 32 + nl) =~= f.subrange(28 + nl, 32 + nl));
                lemma_le32_roundtrip(dl as u32);
            }
        }
    }
}

/// Every proper prefix of a frame fails to deframe: a frame cut short anywhere,
/// even inside its CRC, is never returned with a shortened payload.
pub proof fn lemma_deframe_prefix_fails(data: Seq<u8>, name: Seq<u8>, k: int)
    requires
        name.len() <= MAX_NAME_LEN,
        data.len() <= u32::MAX,
        0 <= k < frame_bytes(data, name).len(),
    ensures
        deframe_spec(frame_bytes(data, name).take(k)) is Err,
{
    lemma_frame_layout(data, name);
    lemma_prefix_fails_in(frame_bytes(data, name), frame_body(data, name), name, data, k);
}

/// Bits taken at whole bytes of an expansion pack back into those bytes.
pub proof fn lemma_bytes_of_unpacked(f: Seq<u8>, a: int, b: int)
    requires
        0 <= a <= b <= f.len(),
    ensures
        bytes_of(unpack_bytes(f), 8 * a, 8 * b) == f.subrange(a, b),
{
    lemma_unpack_subrange(f, a, b);
    lemma_pack_unpack(f.subrange(a, b));
}

proof fn lemma_preamble_bit(j: int)
    requires
        0 <= j < 8,
    ensures
        byte_bit(PREAMBLE_BYTE, j) == (j % 2 == 0),
        !byte_bit(SYNC_BYTE, 0),
{
    assert((0xAAu8 >> 7u8) & 1u8 == 1u8 && (0xAAu8 >> 6u8) & 1u8 == 0u8 && (0xAAu8 >> 5u8) & 1u8
        == 1u8 && (0xAAu8 >> 4u8) & 1u8 == 0u8 && (0xAAu8 >> 3u8) & 1u8 == 1u8 && (0xAAu8 >> 2u8)
        & 1u8 == 0u8 && (0xAAu8 >> 1u8) & 1u8 == 1u8 && (0xAAu8 >> 0u8) & 1u8 == 0u8 && (0x7Eu8
        >> 7u8) & 1u8 == 0u8) by (bit_vector);
    if j == 0 {
    } else if j == 1 {
    } else if j == 2 {
    } else if j == 3 {
    } else if j == 4 {
    } else if j == 5 {
    } else if j == 6 {
    } else {
    }
}

/// The search passes over position `p`: no sync pattern starts there, or the
/// filename length read after it is too large.
spec fn passed_over(bits: Seq<bool>, p: int) -> bool {
    ||| !sync_at(bits, p)
    ||| rejected_at(bits, p)
}

proof fn lemma_find_skip(bits: Seq<bool>, from: int, to: int)
    requires
        0 <= from <= to,
        to + 16 <= bits.len(),
        forall|p: int| from <= p < to ==> #[trigger] passed_over(bits, p),
    ensures
        find_frame_from(bits, from) == find_frame_from(bits, to),
    decreases to - from,
{
    if from < to {
        assert(passed_over(bits, from));
        if rejected_at(bits, from) {
            crate::decoder::lemma_search_passes_rejected(bits, from);
        }
        lemma_find_skip(bits, from + 1, to);
    }
}

proof fn lemma_preamble_bits(f: Seq<u8>)
    requires
        f.len() >= 25,
        forall|i: int| 0 <= i < 24 ==> f[i] == PREAMBLE_BYTE,
        f[24] == SYNC_BYTE,
    ensures
        forall|k: int| 0 <= k < 192 ==> #[trigger] unpack_bytes(f)[k] == (k % 2 == 0),
        !unpack_bytes(f)[192],
{
    let bits = unpack_bytes(f);
    assert forall|k: int| 0 <= k < 192 implies #[trigger] bits[k] == (k % 2 == 0) by {
        vstd::arithmetic::div_mod::lemma_fundamental_div_mod(k, 8);
        vstd::arithmetic::div_mod::lemma_mod_mod(k, 2, 4);
        assert(k / 8 < 24);
        lemma_preamble_bit(k % 8);
    }
    assert(!bits[192]) by {
        lemma_preamble_bit(0);
    }
}

proof fn lemma_alternating_byte(c: Seq<bool>, t: int)
    requires
        c.len() == 8,
        t == 0 || t == 1,
        forall|j: int| 0 <= j < 8 ==> #[trigger] c[j] == ((j + t) % 2 == 0),
    ensures
        pack_bits(c) >= 85,
{
    reveal_with_fuel(pack_bits, 9);
    if t == 0 {
        assert(c =~= seq![true, false, true, false, true, false, true, false]);
    } else {
        assert(c =~= seq![false, true, false, true, false, true, false, true]);
    }
}

/// A sync pattern that starts in the 15 bits before a preamble reads its filename
/// length from alternating preamble bits, which is far above 255.
proof fn lemma_name_len_in_preamble(bits: Seq<bool>, at: int, p: int)
    requires
        0 <= p < at,
        at <= p + 16,
        at + 192 <= bits.len(),
        forall|k: int| 0 <= k < 192 ==> #[trigger] bits[at + k] == (k % 2 == 0),
    ensures
        name_len_at(bits, p) > MAX_NAME_LEN,
{
    let w = bits.subrange(p + 16, p + 32);
    let t = (p + 16 - at) % 2;
    let hi = chunk(w, 1);
    assert(hi =~= w.subrange(8, 16));
    assert forall|j: int| 0 <= j < 8 implies #[trigger] hi[j] == ((j + t) % 2 == 0) by {
        let k = p + 16 - at + 8 + j;
        assert(hi[j] == bits[at + k]);
    }
    lemma_alternating_byte(hi, t);
    lemma_pack_bits_le_255(hi);
    assert(pack_bytes(w)[1] == pack_bits(hi) as u8);
}

proof fn lemma_no_sync_in_preamble(f: Seq<u8>)
    requires
        f.len() >= 26,
        forall|i: int| 0 <= i < 24 ==> f[i] == PREAMBLE_BYTE,
        f[24] == SYNC_BYTE,
    ensures
        forall|p: int| 0 <= p < 192 ==> !#[trigger] sync_at(unpack_bytes(f), p),
{
    let bits = unpack_bytes(f);
    lemma_sync_bits();
    lemma_preamble_bits(f);
    assert forall|p: int| 0 <= p < 192 implies !#[trigger] sync_at(bits, p) by {
        if sync_at(bits, p) {
            assert(bits.subrange(p, p + 16)[1] == sync_bits()[1]);
            assert(bits.subrange(p, p + 16)[2] == sync_bits()[2]);
            assert(bits[p + 1] && bits[p + 2]);
        }
    }
}

proof fn lemma_sub_left<A>(x: Seq<A>, y: Seq<A>, i: int, j: int)
    requires
        0 <= i <= j <= x.len(),
    ensures
        (x + y).subrange(i, j) == x.subrange(i, j),
{
    assert((x + y).subrange(i, j) =~= x.subrange(i, j));
}

proof fn lemma_sub_right<A>(x: Seq<A>, y: Seq<A>, i: int, j: int)
    requires
        0 <= i <= j <= y.len(),
    ensures
        (x + y).subrange(x.len() + i, x.len() + j) == y.subrange(i, j),
{
    assert((x + y).subrange(x.len() + i, x.len() + j) =~= y.subrange(i, j));
}

#[verifier::spinoff_prover]
#[verifier::rlimit(30)]
proof fn lemma_body_layout(data: Seq<u8>, name: Seq<u8>)
    requires
        name.len() <= MAX_NAME_LEN,
        data.len() <= u32::MAX,
    ensures
        ({
            let body = frame_body(data, name);
            let nl = name.len() as int;
            let dl = data.len() as int;
            &&& body.len() == 8 + nl + dl
            &&& body.subrange(0, 2) == crate::framer::sync_word()
            &&& body.subrange(2, 4) == le16(nl)
            &&& body.subrange(4, 4 + nl) == name
            &&& body.subrange(4 + nl, 8 + nl) == le32(dl)
            &&& body.subrange(8 + nl, 8 + nl + dl) == data
        }),
{
    reveal(frame_bytes);
    reveal(frame_body);
    let nl = name.len() as int;
    let dl = data.len() as int;
    assert(framed_name(name) == name);
    assert(length_field(dl) == dl);
    let sw = crate::framer::sync_word();
    let a = le16(nl);
    let b = le32(dl);
    let x1 = sw + a;
    let x2 = x1 + name;
    let x3 = x2 + b;
    let body = x3 + data;
    assert(body == frame_body(data, name));
    lemma_sub_right(x3, data, 0, dl);
    lemma_sub_left(x3, data, 4 + nl, 8 + nl);
    lemma_sub_right(x2, b, 0, 4);
    lemma_sub_left(x3, data, 4, 4 + nl);
    lemma_sub_left(x2, b, 4, 4 + nl);
    lemma_sub_right(x1, name, 0, nl);
    lemma_sub_left(x3, data, 0, 4);
    lemma_sub_left(x2, b, 0, 4);
    lemma_sub_left(x1, name, 0, 4);
    assert(x1.subrange(0, 4) =~= x1);
    lemma_sub_left(x1, name, 0, 2);
    lemma_sub_left(x2, b, 0, 2);
    lemma_sub_left(x3, data, 0, 2);
    lemma_sub_left(sw, a, 0, 2);
    assert(sw.subrange(0, 2) =~= sw);
    lemma_sub_left(x1, name, 2, 4);
    lemma_sub_left(x2, b, 2, 4);
    lemma_sub_left(x3, data, 2, 4);
    lemma_sub_right(sw, a, 0, 2);
    assert(a.subrange(0, 2) =~= a);
    assert(b.subrange(0, 4) =~= b);
    assert(name.subrange(0, nl) =~= name);
    assert(data.subrange(0, dl) =~= data);
}

#[verifier::spinoff_prover]
#[verifier::rlimit(30)]
proof fn lemma_frame_layout(data: Seq<u8>, name: Seq<u8>)
    requires
        name.len() <= MAX_NAME_LEN,
        data.len() <= u32::MAX,
    ensures
        ({
            let f = frame_bytes(data, name);
            let body = frame_body(data, name);
            let nl = name.len() as int;
            let dl = data.len() as int;
            &&& f.len() == 34 + nl + dl
            &&& forall|i: int| 0 <= i < 24 ==> f[i] == PREAMBLE_BYTE
            &&& f.subrange(24, 26) == crate::framer::sync_word()
            &&& f.subrange(26, 28) == le16(nl)
            &&& f.subrange(28, 28 + nl) == name
            &&& f.subrange(28 + nl, 32 + nl) == le32(dl)
            &&& f.subrange(32 + nl, 32 + nl + dl) == data
            &&& f.subrange(24, 32 + nl + dl) == body
            &&& f.subrange(32 + nl + dl, 34 + nl + dl) == le16(crc16_of(body) as int)
        }),
{
    reveal(frame_bytes);
    reveal(frame_body);
    let body = frame_body(data, name);
    let nl = name.len() as int;
    let dl = data.len() as int;
    lemma_body_layout(data, name);
    let pre = crate::framer::preamble();
    let c = le16(crc16_of(body) as int);
    let x = pre + body;
    let f = x + c;
    assert forall|i: int| 0 <= i < 24 implies f[i] == PREAMBLE_BYTE by {
        assert(f[i] == x[i]);
    }
    lemma_sub_right(x, c, 0, 2);
    assert(c.subrange(0, 2) =~= c);
    lemma_sub_left(x, c, 24, 26);
    lemma_sub_right(pre, body, 0, 2);
    lemma_sub_left(x, c, 26, 28);
    lemma_sub_right(pre, body, 2, 4);
    lemma_sub_left(x, c, 28, 28 + nl);
    lemma_sub_right(pre, body, 4, 4 + nl);
    lemma_sub_left(x, c, 28 + nl, 32 + nl);
    lemma_sub_right(pre, body, 4 + nl, 8 + nl);
    lemma_sub_left(x, c, 32 + nl, 32 + nl + dl);
    lemma_sub_right(pre, body, 8 + nl, 8 + nl + dl);
    lemma_sub_left(x, c, 24, 32 + nl + dl);
    lemma_sub_right(pre, body, 0, 8 + nl + dl);
    assert(body.subrange(0, 8 + nl + dl) =~= body);
    assert(f == frame_bytes(data, name));
}

proof fn lemma_bytes_of_stream(bits: Seq<bool>, at: int, f: Seq<u8>, a: int, b: int)
    requires
        0 <= at,
        at + 8 * f.len() <= bits.len(),
        bits.subrange(at, at + 8 * f.len()) == unpack_bytes(f),
        0 <= a <= b <= f.len(),
    ensures
        bytes_of(bits, at + 8 * a, at + 8 * b) == f.subrange(a, b),
{
    assert(bits.subrange(at + 8 * a, at + 8 * b) =~= unpack_bytes(f).subrange(8 * a, 8 * b));
    lemma_bytes_of_unpacked(f, a, b);
}

#[verifier::spinoff_prover]
#[verifier::rlimit(30)]
proof fn lemma_find_frame_in(
    bits: Seq<bool>,
    at: int,
    f: Seq<u8>,
    body: Seq<u8>,
    name: Seq<u8>,
    data: Seq<u8>,
)
    requires
        name.len() <= MAX_NAME_LEN,
        data.len() <= MAX_DECODED_PAYLOAD,
        0 <= at,
        at + 8 * f.len() <= bits.len(),
        bits.subrange(at, at + 8 * f.len()) == unpack_bytes(f),
        forall|p: int|
            0 <= p && p + 16 <= at ==> !#[trigger] sync_at(bits, p) || rejected_at(bits, p),
        ({
            let nl = name.len() as int;
            let dl = data.len() as int;
            &&& f.len() == 34 + nl + dl
            &&& forall|i: int| 0 <= i < 24 ==> f[i] == PREAMBLE_BYTE
            &&& f.subrange(24, 26) == crate::framer::sync_word()
            &&& f.subrange(26, 28) == le16(nl)
            &&& f.subrange(28, 28 + nl) == name
            &&& f.subrange(28 + nl, 32 + nl) == le32(dl)
            &&& f.subrange(32 + nl, 32 + nl + dl) == data
            &&& f.subrange(24, 32 + nl + dl) == body
            &&& f.subrange(32 + nl + dl, 34 + nl + dl) == le16(crc16_of(body) as int)
        }),
    ensures
        find_frame_from(bits, 0) == Some((name, data)),
{
    let u = unpack_bytes(f);
    let nl = name.len() as int;
    let dl = data.len() as int;
    let crc = crc16_of(body);
    let s = at + 192;
    assert(f[24] == f.subrange(24, 26)[0]);
    lemma_no_sync_in_preamble(f);
    lemma_preamble_bits(f);
    assert forall|k: int| 0 <= k < 192 implies #[trigger] bits[at + k] == (k % 2 == 0) by {
        assert(bits[at + k] == bits.subrange(at, at + 8 * f.len())[k]);
        assert(u[k] == (k % 2 == 0));
    }
    assert forall|p: int| 0 <= p < s implies #[trigger] passed_over(bits, p) by {
        if at <= p && sync_at(bits, p) {
            assert(bits.subrange(p, p + 16) =~= u.subrange(p - at, p - at + 16));
            assert(sync_at(u, p - at));
        } else if p < at && at < p + 16 {
            lemma_name_len_in_preamble(bits, at, p);
        }
    }
    lemma_find_skip(bits, 0, s);
    lemma_unpack_subrange(f, 24, 26);
    assert(bits.subrange(s, s + 16) =~= u.subrange(192, 208));
    assert(sync_at(bits, s));
    lemma_bytes_of_stream(bits, at, f, 26, 28);
    lemma_le16_roundtrip(nl as u16);
    assert(name_len_at(bits, s) == nl);
    lemma_bytes_of_stream(bits, at, f, 28 + nl, 32 + nl);
    lemma_le32_roundtrip(dl as u32);
    assert(payload_len_at(bits, s) == dl);
    lemma_bytes_of_stream(bits, at, f, 32 + nl + dl, 34 + nl + dl);
    lemma_le16_roundtrip(crc);
    lemma_bytes_of_stream(bits, at, f, 24, 32 + nl + dl);
    assert(frame_ok_at(bits, s));
    lemma_bytes_of_stream(bits, at, f, 28, 28 + nl);
    lemma_bytes_of_stream(bits, at, f, 32 + nl, 32 + nl + dl);
}

/// The bit expansion of a frame, after any bits in which every whole sync pattern
/// starts a frame that the search rejects (CRC mismatch, filename or payload over
/// its limit, or a filename, payload or CRC running past the end of the stream),
/// and before any bits at all, decodes to the filename bytes and the payload it was
/// made of, when the filename has at most 255 bytes and the payload at most
/// 1 000 000 bytes.
pub proof fn lemma_find_frame_after_rejected(
    before: Seq<bool>,
    data: Seq<u8>,
    name: Seq<u8>,
    after: Seq<bool>,
)
    requires
        name.len() <= MAX_NAME_LEN,
        data.len() <= MAX_DECODED_PAYLOAD,
        forall|p: int|
            0 <= p && p + 16 <= before.len() && #[trigger] sync_at(
                before + unpack_bytes(frame_bytes(data, name)) + after,
                p,
            ) ==> rejected_at(before + unpack_bytes(frame_bytes(data, name)) + after, p),
    ensures
        find_frame_from(before + unpack_bytes(frame_bytes(data, name)) + after, 0) == Some(
            (name, data),
        ),
{
    let f = frame_bytes(data, name);
    let bits = before + unpack_bytes(f) + after;
    lemma_frame_layout(data, name);
    assert(bits.subrange(before.len() as int, (before.len() + 8 * f.len()) as int) =~= unpack_bytes(f));
    lemma_find_frame_in(bits, before.len() as int, f, frame_body(data, name), name, data);
}

/// The bit expansion of a frame, after any bits that hold no whole sync pattern
/// (at any bit offset) and before any bits at all, decodes to the filename bytes
/// and the payload it was made of, when the filename has at most 255 bytes and the
/// payload at most 1 000 000 bytes.
pub proof fn lemma_find_frame_unpacked(
    before: Seq<bool>,
    data: Seq<u8>,
    name: Seq<u8>,
    after: Seq<bool>,
)
    requires
        name.len() <= MAX_NAME_LEN,
        data.len() <= MAX_DECODED_PAYLOAD,
        forall|p: int| 0 <= p && p + 16 <= before.len() ==> !#[trigger] sync_at(before, p),
    ensures
        find_frame_from(before + unpack_bytes(frame_bytes(data, name)) + after, 0) == Some(
            (name, data),
        ),
{
    let bits = before + unpack_bytes(frame_bytes(data, name)) + after;
    assert forall|p: int| 0 <= p && p + 16 <= before.len() implies !#[trigger] sync_at(bits, p) by {
        assert(bits.subrange(p, p + 16) =~= before.subrange(p, p + 16));
        assert(!sync_at(before, p));
    }
    lemma_find_frame_after_rejected(before, data, name, after);
}

} // verus!
