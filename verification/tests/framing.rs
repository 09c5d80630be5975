//! The framing of a byte stream into frames.

use vmlab::net::framing::{read_frame, write_frame, FrameError, ReadStep, MAX_FRAME_LEN};

/// A reader over the bytes of a stream that has closed.
struct Reader {
    bytes: Vec<u8>,
}

impl Reader {
    fn next(&mut self) -> Result<Option<Vec<u8>>, FrameError> {
        match read_frame(&self.bytes, true) {
            ReadStep::Frame { frame, used } => {
                self.bytes.drain(..used);
                Ok(Some(frame))
            }
            ReadStep::Closed => Ok(None),
            ReadStep::NeedMore => panic!("a closed stream needs no more"),
            ReadStep::Failed(e) => Err(e),
        }
    }
}

#[test]
fn roundtrip_multiple_frames() {
    let frames: [&[u8]; 3] = [b"first", b"", b"third frame with more bytes"];
    let mut bytes = Vec::new();
    for f in frames {
        bytes.extend_from_slice(&write_frame(f).unwrap());
    }
    let mut r = Reader { bytes };
    for f in frames {
        assert_eq!(r.next().unwrap().unwrap(), f);
    }
}

#[test]
fn clean_eof_returns_none() {
    let mut r = Reader {
        bytes: write_frame(b"only").unwrap(),
    };
    assert_eq!(r.next().unwrap().unwrap(), b"only");
    assert!(r.next().unwrap().is_none());
}

#[test]
fn dribbled_bytes_reassemble() {
    // One byte at a time, to exercise partial prefixes and bodies.
    let payload = b"dribble me gently".to_vec();
    let mut encoded = (payload.len() as u32).to_be_bytes().to_vec();
    encoded.extend_from_slice(&payload);
    let mut buf = Vec::new();
    for (i, byte) in encoded.iter().enumerate() {
        assert!(matches!(read_frame(&buf, false), ReadStep::NeedMore), "after {i} bytes");
        buf.push(*byte);
    }
    match read_frame(&buf, false) {
        ReadStep::Frame { frame, used } => {
            assert_eq!(frame, b"dribble me gently");
            assert_eq!(used, encoded.len());
        }
        other => panic!("expected a frame, got {other:?}"),
    }
    assert!(matches!(read_frame(&[], true), ReadStep::Closed));
}

#[test]
fn eof_mid_prefix_is_error() {
    let mut r = Reader {
        bytes: vec![0x00, 0x00],
    };
    assert_eq!(r.next().unwrap_err(), FrameError::EofInPrefix);
}

#[test]
fn eof_mid_body_is_error() {
    let mut bytes = 10u32.to_be_bytes().to_vec();
    bytes.extend_from_slice(b"short");
    let mut r = Reader { bytes };
    assert_eq!(r.next().unwrap_err(), FrameError::EofInBody);
}

#[test]
fn oversize_length_is_error() {
    let over = MAX_FRAME_LEN as u32 + 1;
    let mut r = Reader {
        bytes: over.to_be_bytes().to_vec(),
    };
    assert_eq!(r.next().unwrap_err(), FrameError::LengthOverCap(over));
}

#[test]
fn write_rejects_oversize_frame() {
    let huge = vec![0u8; MAX_FRAME_LEN + 1];
    assert_eq!(
        write_frame(&huge).unwrap_err(),
        FrameError::FrameOverCap(MAX_FRAME_LEN + 1)
    );
}

#[test]
fn max_size_frame_roundtrips() {
    let frame = vec![0xA5u8; MAX_FRAME_LEN];
    let mut r = Reader {
        bytes: write_frame(&frame).unwrap(),
    };
    let got = r.next().unwrap().unwrap();
    assert_eq!(got.len(), MAX_FRAME_LEN);
    assert!(got.iter().all(|&x| x == 0xA5));
}

#[test]
fn a_frame_is_prefixed_with_its_length() {
    assert_eq!(write_frame(b"abc").unwrap(), [0, 0, 0, 3, b'a', b'b', b'c']);
}
