use rustwave::config::PREAMBLE_LEN;
use rustwave::crc::crc16;
use rustwave::framer::{deframe, frame, Decoded, FrameError};

fn rt(data: &[u8], name: &str) -> Decoded {
    deframe(&frame(data, name)).unwrap()
}

#[test]
fn round_trip_empty_payload() {
    let d = rt(&[], "empty.bin");
    assert!(d.data.is_empty());
    assert_eq!(d.filename, "empty.bin");
}

#[test]
fn round_trip_ascii() {
    let d = rt(b"Hello, AFSK!", "hello.txt");
    assert_eq!(d.data, b"Hello, AFSK!");
    assert_eq!(d.filename, "hello.txt");
}

#[test]
fn round_trip_binary() {
    let data: Vec<u8> = (0u8..=255).collect();
    let d = rt(&data, "all_bytes.bin");
    assert_eq!(d.data, data);
}

#[test]
fn filename_preserved() {
    let d = rt(b"data", "archive.tar.gz");
    assert_eq!(d.filename, "archive.tar.gz");
}

#[test]
fn deframe_ignores_leading_garbage() {
    let mut framed = frame(b"test", "test.txt");
    framed.insert(0, 0xFF);
    framed.insert(0, 0x42);
    let d = deframe(&framed).unwrap();
    assert_eq!(d.data, b"test");
    assert_eq!(d.filename, "test.txt");
}

#[test]
fn crc_detects_corruption() {
    let mut framed = frame(b"integrity check", "check.txt");
    // Corrupt a payload byte (past preamble+sync+namelen+name+payloadlen)
    let corrupt_pos = PREAMBLE_LEN + 2 + 2 + "check.txt".len() + 4 + 2;
    framed[corrupt_pos] ^= 0xFF;
    assert!(deframe(&framed).is_err());
}

#[test]
fn crc16_known_value() {
    assert_eq!(crc16(b"123456789"), 0x29B1);
}

#[test]
fn crc16_of_nothing_is_initial_value() {
    assert_eq!(crc16(&[]), 0xFFFF);
}

#[test]
fn frame_exact_bytes() {
    let framed = frame(b"hi", "a");
    let mut expected = vec![0xAA_u8; 24];
    expected.extend_from_slice(&[0x7E, 0x7E, 1, 0, b'a', 2, 0, 0, 0, b'h', b'i', 134, 206]);
    assert_eq!(framed, expected);
}

#[test]
fn frame_of_nothing_has_fixed_overhead() {
    let framed = frame(&[], "");
    assert_eq!(framed.len(), 34);
    assert_eq!(&framed[24..32], &[0x7E, 0x7E, 0, 0, 0, 0, 0, 0]);
    assert_eq!(&framed[32..], &[0xCA, 0xA9]);
}

#[test]
fn long_filename_cut_to_255_bytes() {
    let name = "n".repeat(300);
    let framed = frame(b"x", &name);
    assert_eq!(framed.len(), 34 + 255 + 1);
    let d = deframe(&framed).unwrap();
    assert_eq!(d.filename, "n".repeat(255));
    assert_eq!(d.data, b"x");
}

#[test]
fn non_ascii_filename_round_trips() {
    let d = rt(b"\x00\x01", "d\u{e9}j\u{e0} vu \u{2603}.txt");
    assert_eq!(d.filename, "d\u{e9}j\u{e0} vu \u{2603}.txt");
    assert_eq!(d.data, vec![0, 1]);
}

#[test]
fn ill_formed_filename_bytes_are_replaced() {
    let mut raw = vec![0x7E, 0x7E, 2, 0, 0xFF, b'z', 0, 0, 0, 0];
    let crc = crc16(&raw);
    raw.push((crc & 0xFF) as u8);
    raw.push((crc >> 8) as u8);
    let d = deframe(&raw).unwrap();
    assert_eq!(d.filename, "\u{FFFD}z");
    assert!(d.data.is_empty());
}

#[test]
fn deframe_without_sync_word() {
    assert_eq!(deframe(&[0xAA, 0x7E, 0xAA, 0x7E]).unwrap_err(), FrameError::SyncNotFound);
    assert_eq!(deframe(&[]).unwrap_err(), FrameError::SyncNotFound);
}

#[test]
fn deframe_missing_name_length() {
    assert_eq!(deframe(&[0x7E, 0x7E, 0]).unwrap_err(), FrameError::MissingNameLength);
}

#[test]
fn deframe_missing_filename() {
    assert_eq!(deframe(&[0x7E, 0x7E, 5, 0, b'a']).unwrap_err(), FrameError::MissingFilename);
}

#[test]
fn deframe_missing_payload_length() {
    assert_eq!(
        deframe(&[0x7E, 0x7E, 0, 0, 1, 2, 3]).unwrap_err(),
        FrameError::MissingPayloadLength
    );
}

#[test]
fn deframe_truncated_payload() {
    assert_eq!(
        deframe(&[9, 0x7E, 0x7E, 0, 0, 5, 0, 0, 0, 1]).unwrap_err(),
        FrameError::Truncated { needed: 15, available: 9 }
    );
}

#[test]
fn deframe_reports_both_crcs() {
    let mut framed = frame(b"hi", "a");
    let last = framed.len() - 1;
    framed[last] ^= 0x01;
    assert_eq!(
        deframe(&framed).unwrap_err(),
        FrameError::CrcMismatch { stored: 0xCF86, computed: 0xCE86 }
    );
}

#[test]
fn deframe_takes_first_sync_word() {
    // A sync word inside the garbage in front of the frame is taken first.
    let mut raw = vec![0x7E, 0x7E];
    raw.extend_from_slice(&frame(b"ok", "f"));
    assert!(deframe(&raw).is_err());
}

#[test]
fn deframe_ignores_trailing_bytes() {
    let mut raw = vec![1, 2, 3];
    raw.extend(frame(b"body", "t.bin"));
    raw.extend_from_slice(&[0x7E, 0x7E, 9, 9]);
    let d = deframe(&raw).unwrap();
    assert_eq!(d.data, b"body");
    assert_eq!(d.filename, "t.bin");
}

#[test]
fn crc16_changes_with_any_single_byte() {
    let data = b"123456789".to_vec();
    let original = crc16(&data);
    for i in 0..data.len() {
        for delta in [1u8, 0x80, 0xFF] {
            let mut changed = data.clone();
            changed[i] ^= delta;
            assert_ne!(crc16(&changed), original);
        }
    }
}

#[test]
fn every_payload_byte_change_is_detected() {
    let framed = frame(b"abc", "n");
    let start = PREAMBLE_LEN + 2 + 2 + 1 + 4;
    for i in 0..3 {
        let mut bad = framed.clone();
        bad[start + i] = b'z';
        assert!(matches!(deframe(&bad), Err(FrameError::CrcMismatch { .. })));
    }
}

#[test]
fn error_messages() {
    assert_eq!(FrameError::SyncNotFound.message(), "sync word not found");
    assert_eq!(
        FrameError::MissingNameLength.message(),
        "frame too short: missing name_len"
    );
    assert_eq!(
        FrameError::MissingFilename.message(),
        "frame too short: missing filename"
    );
    assert_eq!(
        FrameError::MissingPayloadLength.message(),
        "frame too short: missing payload_len"
    );
    assert_eq!(
        FrameError::Truncated { needed: 15, available: 9 }.message(),
        "frame truncated: need 15 bytes after sync, have 9"
    );
    assert_eq!(
        FrameError::Truncated { needed: 0, available: 1234567890123 }.message(),
        "frame truncated: need 0 bytes after sync, have 1234567890123"
    );
    assert_eq!(
        FrameError::CrcMismatch { stored: 0xCF86, computed: 0x00a9 }.message(),
        "CRC mismatch: stored 0xcf86, computed 0x00a9"
    );
}

#[test]
fn every_proper_prefix_fails() {
    let framed = frame(b"prefix", "p.txt");
    for k in 0..framed.len() {
        assert!(deframe(&framed[..k]).is_err());
    }
}

#[test]
fn every_name_and_crc_byte_change_is_detected() {
    let framed = frame(b"abc", "name");
    let name_start = PREAMBLE_LEN + 2 + 2;
    let crc_start = framed.len() - 2;
    for i in (name_start..name_start + 4).chain(crc_start..framed.len()) {
        let mut bad = framed.clone();
        bad[i] ^= 0x21;
        assert!(matches!(deframe(&bad), Err(FrameError::CrcMismatch { .. })));
    }
}

#[test]
fn crc16_of_message_and_its_crc_is_zero() {
    for msg in [&b""[..], b"123456789", b"\x00\xff\x7e"] {
        let c = crc16(msg);
        let mut whole = msg.to_vec();
        whole.extend_from_slice(&c.to_be_bytes());
        assert_eq!(crc16(&whole), 0);
    }
}

#[test]
fn crc16_is_affine_over_xor() {
    let a = b"abcdefgh";
    let b = b"12345678";
    let c = b"\x00\x01\x02\x03\xf0\xf1\xf2\xf3";
    let x: Vec<u8> = (0..8).map(|i| a[i] ^ b[i] ^ c[i]).collect();
    assert_eq!(crc16(&x), crc16(a) ^ crc16(b) ^ crc16(c));
}
