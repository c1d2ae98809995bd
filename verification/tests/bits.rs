use rustwave::bits::{bits_to_bytes, bytes_to_bits};
use rustwave::decoder::find_frame_in_bits;
use rustwave::framer::{frame, FrameError};

#[test]
fn bytes_expand_most_significant_bit_first() {
    assert_eq!(
        bytes_to_bits(&[0xA5]),
        vec![true, false, true, false, false, true, false, true]
    );
    assert_eq!(bytes_to_bits(&[]), Vec::<bool>::new());
}

#[test]
fn bits_pack_most_significant_bit_first() {
    assert_eq!(
        bits_to_bytes(&[false, true, true, true, true, true, true, false, true]),
        vec![0x7E, 0x80]
    );
    assert_eq!(bits_to_bytes(&[true, true, false]), vec![0xC0]);
    assert_eq!(bits_to_bytes(&[]), Vec::<u8>::new());
}

#[test]
fn packing_undoes_expansion() {
    let data: Vec<u8> = (0u8..=255).collect();
    assert_eq!(bits_to_bytes(&bytes_to_bits(&data)), data);
}

#[test]
fn bit_stream_round_trip_text() {
    let bits = bytes_to_bits(&frame(b"Hello, AFSK!", "hello.txt"));
    let d = find_frame_in_bits(&bits).unwrap();
    assert_eq!(d.data, b"Hello, AFSK!");
    assert_eq!(d.filename, "hello.txt");
}

#[test]
fn bit_stream_round_trip_all_bytes() {
    let payload: Vec<u8> = (0u8..=255).collect();
    let bits = bytes_to_bits(&frame(&payload, "all.bin"));
    let d = find_frame_in_bits(&bits).unwrap();
    assert_eq!(d.data, payload);
    assert_eq!(d.filename, "all.bin");
}

#[test]
fn bit_stream_round_trip_empty() {
    let bits = bytes_to_bits(&frame(&[], "empty.bin"));
    let d = find_frame_in_bits(&bits).unwrap();
    assert!(d.data.is_empty());
    assert_eq!(d.filename, "empty.bin");
}

#[test]
fn bit_stream_at_any_bit_offset() {
    let framed = frame(b"offset", "o.txt");
    for shift in 0..8 {
        let mut bits = vec![false; shift];
        bits.extend(bytes_to_bits(&framed));
        bits.extend(vec![true; 5]);
        let d = find_frame_in_bits(&bits).unwrap();
        assert_eq!(d.data, b"offset");
        assert_eq!(d.filename, "o.txt");
    }
}

#[test]
fn bit_stream_skips_a_corrupt_frame() {
    let mut first = frame(b"bad", "1");
    let n = first.len();
    first[n - 3] ^= 0x10;
    let mut bytes = first;
    bytes.extend(frame(b"good", "2"));
    let d = find_frame_in_bits(&bytes_to_bits(&bytes)).unwrap();
    assert_eq!(d.data, b"good");
    assert_eq!(d.filename, "2");
}

#[test]
fn bit_stream_without_frame() {
    assert_eq!(find_frame_in_bits(&[]).unwrap_err(), FrameError::SyncNotFound);
    assert_eq!(
        find_frame_in_bits(&bytes_to_bits(&[0xAA; 40])).unwrap_err(),
        FrameError::SyncNotFound
    );
}

#[test]
fn bit_stream_rejects_oversized_payload_length() {
    // Sync, empty name, payload length 1 000 001: skipped, then nothing else.
    let mut bytes = vec![0x7E, 0x7E, 0, 0];
    bytes.extend_from_slice(&1_000_001u32.to_le_bytes());
    bytes.extend(vec![0u8; 8]);
    assert!(find_frame_in_bits(&bytes_to_bits(&bytes)).is_err());
}

#[test]
fn expansion_undoes_packing() {
    let bits = vec![
        true, false, false, true, true, true, false, false, false, false, false, false, true,
        true, true, true,
    ];
    assert_eq!(bytes_to_bits(&bits_to_bytes(&bits)), bits);
}

#[test]
fn packing_distributes_at_byte_boundary() {
    let a = bytes_to_bits(&[0x12, 0x34]);
    let b = vec![true, false, true];
    let mut ab = a.clone();
    ab.extend_from_slice(&b);
    let mut expected = bits_to_bytes(&a);
    expected.extend(bits_to_bytes(&b));
    assert_eq!(bits_to_bytes(&ab), expected);
    assert_eq!(bits_to_bytes(&ab), vec![0x12, 0x34, 0xA0]);
}

#[test]
fn sync_pattern_reaching_into_the_preamble_is_passed_over() {
    // These 14 bits and the first two preamble bits (1, 0) form the sync pattern.
    let mut bits = vec![
        false, true, true, true, true, true, true, false, false, true, true, true, true, true,
    ];
    bits.extend(bytes_to_bits(&frame(b"edge", "e.bin")));
    let d = find_frame_in_bits(&bits).unwrap();
    assert_eq!(d.data, b"edge");
    assert_eq!(d.filename, "e.bin");
}
