# rustwave

Encode arbitrary bytes into a WAV file with Bell-202-style audio frequency-shift
keying, and decode them back.

## Layout

- `src/` — the library, with its contracts and proofs:
  - `config.rs` — integer signal and frame constants.
  - `crc.rs` — CRC-16/CCITT, its specification, and the proof that a change of any
    one byte changes the CRC.
  - `bits.rs` — packing bits into bytes and expanding bytes into bits, both most
    significant bit first, with the proofs that each undoes the other.
  - `text.rs` — lossy UTF-8 decoding of filenames (a trusted call into std) and
    the plural suffix of messages.
  - `framer.rs` — building a frame (preamble, sync word, filename, payload, CRC)
    and finding and checking one in a byte buffer.
  - `decoder.rs` — finding and checking a frame in a demodulated bit stream.
  - `roundtrip.rs` — what a receiver recovers of what a sender framed.
  - `gui.rs` — the drag-and-drop window's state machine and its detail line.
- `app/` — the command-line program, WAV I/O (hound), the floating-point
  modulator and demodulator, and the eframe window.
- `tests/` — tests of the library.
