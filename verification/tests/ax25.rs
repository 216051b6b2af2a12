use aprstx::aprs::packet::{AprsPacket, CallSign};
use aprstx::aprs::parser::parse_packet_at;
use aprstx::serial::ax25::Ax25Error;
use aprstx::serial::{aprs_to_ax25, ax25_to_aprs, decode_ax25_address, encode_ax25_address};

#[test]
fn test_decode_ax25_address() {
    // Simple callsign
    let data = [0x9C, 0x60, 0x86, 0x82, 0x98, 0x98, 0x60]; // N0CALL
    let result = decode_ax25_address(&data).unwrap();
    assert_eq!(result, "N0CALL");

    // Callsign with SSID
    let data = [0x9C, 0x60, 0x86, 0x82, 0x98, 0x98, 0x6A]; // N0CALL-5
    let result = decode_ax25_address(&data).unwrap();
    assert_eq!(result, "N0CALL-5");

    // Short callsign
    let data = [0x82, 0x84, 0x86, 0x40, 0x40, 0x40, 0x60];
    let result = decode_ax25_address(&data).unwrap();
    assert_eq!(result, "ABC");

    // Invalid length
    assert!(decode_ax25_address(&[0x00; 6]).is_err());
}

#[test]
fn test_encode_ax25_address() {
    let mut frame = Vec::new();

    // Simple callsign
    let call = CallSign::new("N0CALL", 0);
    encode_ax25_address(&call, false, &mut frame).unwrap();
    assert_eq!(frame, vec![0x9C, 0x60, 0x86, 0x82, 0x98, 0x98, 0x60]);

    // With SSID and last address bit
    frame.clear();
    let call = CallSign::new("N0CALL", 5);
    encode_ax25_address(&call, true, &mut frame).unwrap();
    assert_eq!(frame, vec![0x9C, 0x60, 0x86, 0x82, 0x98, 0x98, 0x6B]);

    // Short callsign
    frame.clear();
    let call = CallSign::new("ABC", 0);
    encode_ax25_address(&call, false, &mut frame).unwrap();
    assert_eq!(frame, vec![0x82, 0x84, 0x86, 0x40, 0x40, 0x40, 0x60]);
}

#[test]
fn test_ax25_to_aprs() {
    // Basic packet
    let frame = vec![
        // Destination: APRS
        0x82,
        0xA0,
        0xA4,
        0xA6,
        0x40,
        0x40,
        0x60,
        // Source: N0CALL-5
        0x9C,
        0x60,
        0x86,
        0x82,
        0x98,
        0x98,
        0x6B,
        // Control, PID
        0x03,
        0xF0,
        // Information
        b'>'.to_owned(),
        b'T'.to_owned(),
        b'e'.to_owned(),
        b's'.to_owned(),
        b't'.to_owned(),
    ];

    let result = ax25_to_aprs(&frame).unwrap();
    assert_eq!(result, "N0CALL-5>APRS:>Test");

    // With digipeater path
    let frame = vec![
        // Destination: APRS
        0x82,
        0xA0,
        0xA4,
        0xA6,
        0x40,
        0x40,
        0x60,
        // Source: TEST
        0xA8,
        0x8A,
        0xA6,
        0xA8,
        0x40,
        0x40,
        0x60,
        // Digipeater: WIDE1-1
        0xAE,
        0x92,
        0x88,
        0x8A,
        0x62,
        0x40,
        0x63,
        // Control, PID
        0x03,
        0xF0,
        // Information
        b'!'.to_owned(),
    ];

    let result = ax25_to_aprs(&frame).unwrap();
    assert_eq!(result, "TEST>APRS,WIDE1-1:!");

    // Too short frame
    assert!(ax25_to_aprs(&[0x00; 10]).is_err());
}

#[test]
fn test_aprs_to_ax25() {
    let packet = AprsPacket::new(
        CallSign::new("N0CALL", 5),
        CallSign::new("APRS", 0),
        ">Test".to_string(),
    );

    let frame = aprs_to_ax25(&packet).unwrap();

    // Check destination
    assert_eq!(&frame[0..7], &[0x82, 0xA0, 0xA4, 0xA6, 0x40, 0x40, 0x60]);
    // Check source with last bit
    assert_eq!(&frame[7..14], &[0x9C, 0x60, 0x86, 0x82, 0x98, 0x98, 0x6B]);
    // Check control and PID
    assert_eq!(&frame[14..16], &[0x03, 0xF0]);
    // Check information
    assert_eq!(&frame[16..], b">Test");
}

#[test]
fn test_aprs_to_ax25_with_path() {
    let mut packet = AprsPacket::new(
        CallSign::new("TEST", 0),
        CallSign::new("APRS", 0),
        "!".to_string(),
    );
    packet.path.push(CallSign::new("WIDE1", 1));
    packet.path.push(CallSign::new("WIDE2", 2));

    let frame = aprs_to_ax25(&packet).unwrap();

    // Check addresses count (dest + src + 2 digis)
    assert!(frame.len() >= 28); // 7*4 addresses

    // Check last address bit is set on last digi
    assert_eq!(frame[27] & 0x01, 0x01);
}

#[test]
fn ax25_errors() {
    assert_eq!(ax25_to_aprs(&[0x40; 15]).unwrap_err(), Ax25Error::FrameTooShort);
    assert_eq!(ax25_to_aprs(&[]).unwrap_err(), Ax25Error::FrameTooShort);
    assert_eq!(decode_ax25_address(&[0x40; 6]).unwrap_err(), Ax25Error::AddressTooShort);
    assert_eq!(decode_ax25_address(&[]).unwrap_err(), Ax25Error::AddressTooShort);
    // Seven bytes of padding are an empty call.
    assert_eq!(decode_ax25_address(&[0x40, 0x40, 0x40, 0x40, 0x40, 0x40, 0x60]).unwrap(), "");
    assert_eq!(
        decode_ax25_address(&[0x82, 0x40, 0x84, 0x40, 0x40, 0x40, 0x7E, 0xFF]).unwrap(),
        "AB-15"
    );
}

#[test]
fn ax25_exact_frame_with_path() {
    let packet = parse_packet_at("TEST>APRS,WIDE1-1,WIDE2-2:!", 0).unwrap();
    let frame = aprs_to_ax25(&packet).unwrap();
    assert_eq!(frame, vec![
        0x82, 0xA0, 0xA4, 0xA6, 0x40, 0x40, 0x60, // APRS
        0xA8, 0x8A, 0xA6, 0xA8, 0x40, 0x40, 0x60, // TEST
        0xAE, 0x92, 0x88, 0x8A, 0x62, 0x40, 0x62, // WIDE1-1
        0xAE, 0x92, 0x88, 0x8A, 0x64, 0x40, 0x65, // WIDE2-2, last
        0x03, 0xF0, b'!',
    ]);
}

#[test]
fn ax25_roundtrip_through_the_text_parser() {
    for text in [
        "N0CALL-5>APRS:>Test",
        "TEST>APRS,WIDE1-1:!",
        "A>B,C,D-15,E-1,F0F0F0-7:}x:y>z, \u{e9}\u{4e2d}",
        "N0CALL>APRS-1:",
        "AB1CDE-15>APRS,WIDE1-1,WIDE2-2,WIDE3-3::N1CALL   :msg{1",
    ] {
        let packet = parse_packet_at(text, 42).unwrap();
        let frame = aprs_to_ax25(&packet).unwrap();
        let back = ax25_to_aprs(&frame).unwrap();
        assert_eq!(back, text);
        assert_eq!(parse_packet_at(&back, 42).unwrap(), packet);
    }
}

#[test]
fn ax25_decode_marks_used_digipeaters() {
    let mut frame = vec![
        0x82, 0xA0, 0xA4, 0xA6, 0x40, 0x40, 0xE0, // APRS, command bit set
        0xA8, 0x8A, 0xA6, 0xA8, 0x40, 0x40, 0x60, // TEST
        0xAE, 0x92, 0x88, 0x8A, 0x62, 0x40, 0xE2, // WIDE1-1, repeated
        0xAE, 0x92, 0x88, 0x8A, 0x64, 0x40, 0x65, // WIDE2-2, last
        0x03, 0xF0,
    ];
    frame.extend_from_slice(b">hi");
    assert_eq!(ax25_to_aprs(&frame).unwrap(), "TEST>APRS,WIDE1-1*,WIDE2-2:>hi");
    let packet = parse_packet_at(&ax25_to_aprs(&frame).unwrap(), 0).unwrap();
    assert!(packet.path[0].digipeated);
    assert!(!packet.path[1].digipeated);
    assert!(!packet.destination.digipeated);
}

#[test]
fn ax25_decode_without_ui_header_or_with_invalid_text() {
    // Control and PID of another kind: no information is surfaced.
    let mut frame = vec![
        0x82, 0xA0, 0xA4, 0xA6, 0x40, 0x40, 0x60, 0xA8, 0x8A, 0xA6, 0xA8, 0x40, 0x40, 0x61,
        0x13, 0xF0,
    ];
    frame.extend_from_slice(b">hi");
    assert_eq!(ax25_to_aprs(&frame).unwrap(), "TEST>APRS");
    // Bytes that are no UTF-8 are replaced.
    let frame = vec![
        0x82, 0xA0, 0xA4, 0xA6, 0x40, 0x40, 0x60, 0xA8, 0x8A, 0xA6, 0xA8, 0x40, 0x40, 0x61,
        0x03, 0xF0, b'>', 0xFF, b'a',
    ];
    assert_eq!(ax25_to_aprs(&frame).unwrap(), "TEST>APRS:>\u{fffd}a");
    // An address field that does not end: the digipeater addresses run to the end.
    let frame = vec![
        0x82, 0xA0, 0xA4, 0xA6, 0x40, 0x40, 0x60, 0xA8, 0x8A, 0xA6, 0xA8, 0x40, 0x40, 0x60,
        0x03, 0xF0,
    ];
    assert_eq!(ax25_to_aprs(&frame).unwrap(), "TEST>APRS:");
}

#[test]
fn ax25_encode_takes_six_bytes_of_the_call() {
    let mut frame = Vec::new();
    let call = CallSign::new("LONGCALL", 3);
    encode_ax25_address(&call, false, &mut frame).unwrap();
    assert_eq!(frame, vec![b'L' << 1, b'O' << 1, b'N' << 1, b'G' << 1, b'C' << 1, b'A' << 1, 0x66]);
}
