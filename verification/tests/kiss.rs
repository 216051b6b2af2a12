use aprstx::serial::kiss::{
    KissCodec, KISS_CMD_DATA, KISS_FEND, KISS_FESC, KISS_TFEND, KISS_TFESC,
};
use bytes::BytesMut;

const KISS_CMD_TXDELAY: u8 = 0x01;

#[test]
fn test_kiss_encode() {
    let codec = KissCodec::new();

    // Simple data
    let data = b"Hello";
    let encoded = codec.encode(data, 0);
    assert_eq!(encoded[0], KISS_FEND);
    assert_eq!(encoded[1], KISS_CMD_DATA);
    assert_eq!(&encoded[2..7], b"Hello");
    assert_eq!(encoded[7], KISS_FEND);

    // Data with FEND
    let data = &[0x41, KISS_FEND, 0x42];
    let encoded = codec.encode(data, 0);
    assert_eq!(encoded[0], KISS_FEND);
    assert_eq!(encoded[1], KISS_CMD_DATA);
    assert_eq!(encoded[2], 0x41);
    assert_eq!(encoded[3], KISS_FESC);
    assert_eq!(encoded[4], KISS_TFEND);
    assert_eq!(encoded[5], 0x42);
    assert_eq!(encoded[6], KISS_FEND);

    // Data with FESC
    let data = &[0x41, KISS_FESC, 0x42];
    let encoded = codec.encode(data, 0);
    assert_eq!(encoded[3], KISS_FESC);
    assert_eq!(encoded[4], KISS_TFESC);

    // Different port
    let encoded = codec.encode(b"Test", 1);
    assert_eq!(encoded[1], 0x10); // Port 1, command 0
}

#[test]
fn test_kiss_decode_simple() {
    let mut codec = KissCodec::new();
    let mut buf = BytesMut::new();

    // Simple frame
    buf.extend_from_slice(&[KISS_FEND, KISS_CMD_DATA, 0x41, 0x42, KISS_FEND]);

    let result = codec.decode(&mut buf).unwrap().unwrap();
    assert_eq!(result, vec![0x41, 0x42]);
}

#[test]
fn test_kiss_decode_escaped() {
    let mut codec = KissCodec::new();
    let mut buf = BytesMut::new();

    // Frame with escaped FEND
    buf.extend_from_slice(&[
        KISS_FEND,
        KISS_CMD_DATA,
        0x41,
        KISS_FESC,
        KISS_TFEND,
        0x42,
        KISS_FEND,
    ]);

    let result = codec.decode(&mut buf).unwrap().unwrap();
    assert_eq!(result, vec![0x41, KISS_FEND, 0x42]);

    // Frame with escaped FESC
    buf.extend_from_slice(&[
        KISS_FEND,
        KISS_CMD_DATA,
        0x41,
        KISS_FESC,
        KISS_TFESC,
        0x42,
        KISS_FEND,
    ]);

    let result = codec.decode(&mut buf).unwrap().unwrap();
    assert_eq!(result, vec![0x41, KISS_FESC, 0x42]);
}

#[test]
fn test_kiss_decode_multiple_frames() {
    let mut codec = KissCodec::new();
    let mut buf = BytesMut::new();

    // Two frames back-to-back
    buf.extend_from_slice(&[
        KISS_FEND,
        KISS_CMD_DATA,
        0x41,
        KISS_FEND,
        KISS_FEND,
        KISS_CMD_DATA,
        0x42,
        KISS_FEND,
    ]);

    let result1 = codec.decode(&mut buf).unwrap().unwrap();
    assert_eq!(result1, vec![0x41]);

    let result2 = codec.decode(&mut buf).unwrap().unwrap();
    assert_eq!(result2, vec![0x42]);
}

#[test]
fn test_kiss_decode_partial() {
    let mut codec = KissCodec::new();
    let mut buf = BytesMut::new();

    // Partial frame
    buf.extend_from_slice(&[KISS_FEND, KISS_CMD_DATA, 0x41]);
    assert!(codec.decode(&mut buf).unwrap().is_none());

    // Complete the frame
    buf.extend_from_slice(&[0x42, KISS_FEND]);
    let result = codec.decode(&mut buf).unwrap().unwrap();
    assert_eq!(result, vec![0x41, 0x42]);
}

#[test]
fn test_kiss_decode_non_data_frames() {
    let mut codec = KissCodec::new();
    let mut buf = BytesMut::new();

    // TXDELAY frame (should be ignored)
    buf.extend_from_slice(&[KISS_FEND, KISS_CMD_TXDELAY, 0x10, KISS_FEND]);
    assert!(codec.decode(&mut buf).unwrap().is_none());

    // Different port data frame
    buf.extend_from_slice(&[KISS_FEND, 0x10, 0x41, 0x42, KISS_FEND]);
    assert!(codec.decode(&mut buf).unwrap().is_none());
}

#[test]
fn test_kiss_decode_invalid_escape() {
    let mut codec = KissCodec::new();
    let mut buf = BytesMut::new();

    // Invalid escape sequence
    buf.extend_from_slice(&[KISS_FEND, KISS_CMD_DATA, KISS_FESC, 0xFF, KISS_FEND]);
    assert!(codec.decode(&mut buf).unwrap().is_none());

    // Codec should recover for next frame
    buf.extend_from_slice(&[KISS_FEND, KISS_CMD_DATA, 0x41, KISS_FEND]);
    let result = codec.decode(&mut buf).unwrap().unwrap();
    assert_eq!(result, vec![0x41]);
}

#[test]
fn kiss_encode_exact_frames() {
    let codec = KissCodec::new();
    assert_eq!(codec.encode(b"", 0), vec![0xC0, 0x00, 0xC0]);
    assert_eq!(codec.encode(&[0xC0, 0xDB, 0xDC, 0xDD], 0), vec![
        0xC0, 0x00, 0xDB, 0xDC, 0xDB, 0xDD, 0xDC, 0xDD, 0xC0
    ]);
    assert_eq!(codec.encode(&[1], 15), vec![0xC0, 0xF0, 1, 0xC0]);
    // Only the low four bits of the port count.
    assert_eq!(codec.encode(&[1], 0x21), vec![0xC0, 0x10, 1, 0xC0]);
}

#[test]
fn kiss_roundtrip_of_every_byte() {
    let codec = KissCodec::new();
    let all: Vec<u8> = (0u8..=255).collect();
    let mut decoder = KissCodec::new();
    let mut buf = BytesMut::new();
    buf.extend_from_slice(&codec.encode(&all, 0));
    assert_eq!(decoder.decode(&mut buf).unwrap().unwrap(), all);
    assert!(buf.is_empty());
    for b in 0u8..=255 {
        buf.extend_from_slice(&codec.encode(&[b], 0));
        assert_eq!(decoder.decode(&mut buf).unwrap().unwrap(), vec![b]);
        assert!(buf.is_empty());
    }
}

#[test]
fn kiss_discards_empty_and_foreign_frames() {
    let codec = KissCodec::new();
    let mut decoder = KissCodec::new();
    let mut buf = BytesMut::new();
    // A data frame without data.
    buf.extend_from_slice(&codec.encode(&[], 0));
    assert!(decoder.decode(&mut buf).unwrap().is_none());
    assert!(buf.is_empty());
    // A data frame for another port.
    buf.extend_from_slice(&codec.encode(&[1, 2, 3], 2));
    assert!(decoder.decode(&mut buf).unwrap().is_none());
    // Every command but data.
    for cmd in 1u8..=15 {
        buf.extend_from_slice(&[KISS_FEND, cmd, 7, KISS_FEND]);
        assert!(decoder.decode(&mut buf).unwrap().is_none());
    }
    // Bytes outside a frame.
    buf.extend_from_slice(&[1, 2, KISS_FESC, 3]);
    buf.extend_from_slice(&codec.encode(&[9], 0));
    assert_eq!(decoder.decode(&mut buf).unwrap().unwrap(), vec![9]);
}

#[test]
fn kiss_decode_leaves_what_follows_a_frame() {
    let mut decoder = KissCodec::new();
    let mut buf = BytesMut::new();
    buf.extend_from_slice(&[KISS_FEND, 0, 0x41, KISS_FEND, 0x55, 0x66]);
    assert_eq!(decoder.decode(&mut buf).unwrap().unwrap(), vec![0x41]);
    assert_eq!(&buf[..], &[0x55, 0x66]);
}
