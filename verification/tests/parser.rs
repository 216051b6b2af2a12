use aprstx::aprs::packet::DataType;
use aprstx::aprs::parse_packet;
use aprstx::aprs::parser::{parse_packet_at, ParseError};

#[test]
fn test_parse_basic_packet() {
    let input = "N0CALL>APRS:>Test status";
    let packet = parse_packet(input).unwrap();

    assert_eq!(packet.source.call, "N0CALL");
    assert_eq!(packet.destination.call, "APRS");
    assert_eq!(packet.information, ">Test status");
}

#[test]
fn test_parse_packet_with_path() {
    let input = "N0CALL-5>APRS,WIDE1-1,WIDE2-2:!4903.50N/07201.75W>Test";
    let packet = parse_packet(input).unwrap();

    assert_eq!(packet.source.call, "N0CALL");
    assert_eq!(packet.source.ssid.0, 5);
    assert_eq!(packet.destination.call, "APRS");
    assert_eq!(packet.path.len(), 2);
    assert_eq!(packet.path[0].to_string(), "WIDE1-1");
    assert_eq!(packet.path[1].to_string(), "WIDE2-2");
}

#[test]
fn test_parse_packet_with_spaces() {
    let input = " N0CALL>APRS:>Test status ";
    let packet = parse_packet(input).unwrap();
    assert_eq!(packet.source.call, "N0CALL");
    assert_eq!(packet.information, ">Test status ");
}

#[test]
fn test_parse_errors() {
    // Empty packet
    assert!(parse_packet("").is_err());

    // No separator
    assert!(parse_packet("N0CALL>APRS").is_err());

    // No destination
    assert!(parse_packet("N0CALL>:test").is_err());

    // No source
    assert!(parse_packet(">APRS:test").is_err());

    // Invalid format
    assert!(parse_packet("invalid packet").is_err());
}

#[test]
fn test_parse_digipeated_packet() {
    let input = "N0CALL>APRS,WIDE1-1*,WIDE2-2:>Test";
    let packet = parse_packet(input).unwrap();

    assert_eq!(packet.path.len(), 2);
    assert_eq!(packet.path[0].call, "WIDE1");
    assert_eq!(packet.path[0].ssid.0, 1);
    assert!(packet.path[0].digipeated);
    assert_eq!(packet.path[1].call, "WIDE2");
    assert_eq!(packet.path[1].ssid.0, 2);
    assert!(!packet.path[1].digipeated);
}

#[test]
fn test_parse_long_path() {
    let input = "N0CALL>APRS,A,B,C,D,E,F,G,H:>Test";
    let packet = parse_packet(input).unwrap();

    assert_eq!(packet.path.len(), 8);
    assert_eq!(packet.path[0].call, "A");
    assert_eq!(packet.path[7].call, "H");
}

#[test]
fn test_parse_special_characters() {
    let input = "N0CALL>APRS::N1CALL   :Test message{123";
    let packet = parse_packet(input).unwrap();

    assert_eq!(packet.information, ":N1CALL   :Test message{123");
}

#[test]
fn test_packet_flow() {
    // Test that a packet flows through the system correctly
    let packet_str = "N0CALL>APRS,WIDE1-1:>Test packet";
    let packet = parse_packet(packet_str).unwrap();

    assert_eq!(packet.source.call, "N0CALL");
    assert_eq!(packet.destination.call, "APRS");
    assert_eq!(packet.path.len(), 1);
    assert_eq!(packet.path[0].call, "WIDE1");
    assert_eq!(packet.path[0].ssid.0, 1);
    assert_eq!(packet.information, ">Test packet");
}

#[test]
fn parse_position_report_with_used_hop() {
    let p = parse_packet("N0CALL-5>APRS,WIDE1-1*,WIDE2-2:!4903.50N/07201.75W>Test").unwrap();
    assert_eq!(p.source.to_string(), "N0CALL-5");
    assert_eq!(p.destination.to_string(), "APRS");
    assert_eq!(p.path.len(), 2);
    assert_eq!(p.path[0].call, "WIDE1");
    assert_eq!(p.path[0].ssid.0, 1);
    assert!(p.path[0].digipeated);
    assert_eq!(p.path[1].call, "WIDE2");
    assert_eq!(p.path[1].ssid.0, 2);
    assert!(!p.path[1].digipeated);
    assert_eq!(p.data_type, DataType::Position);
    assert_eq!(p.information, "!4903.50N/07201.75W>Test");
    assert!(p.raw.is_none());
}

#[test]
fn parse_names_each_error() {
    assert_eq!(parse_packet_at("", 0).unwrap_err(), ParseError::Empty);
    assert_eq!(parse_packet_at(" \t\r\n", 0).unwrap_err(), ParseError::Empty);
    assert_eq!(parse_packet_at("N0CALL>APRS", 0).unwrap_err(), ParseError::NoSeparator);
    assert_eq!(parse_packet_at("invalid packet", 0).unwrap_err(), ParseError::NoSeparator);
    assert_eq!(parse_packet_at("N0CALL:test", 0).unwrap_err(), ParseError::InvalidHeader);
    assert_eq!(parse_packet_at("A>B>C:test", 0).unwrap_err(), ParseError::InvalidHeader);
    assert_eq!(parse_packet_at(">APRS:test", 0).unwrap_err(), ParseError::InvalidSource);
    assert_eq!(parse_packet_at("N0CALL-16>APRS:test", 0).unwrap_err(), ParseError::InvalidSource);
    assert_eq!(parse_packet_at("N0CALL>:test", 0).unwrap_err(), ParseError::InvalidDestination);
    assert_eq!(
        parse_packet_at("N0CALL>,WIDE1-1:test", 0).unwrap_err(),
        ParseError::InvalidDestination
    );
}

#[test]
fn parse_error_messages() {
    assert_eq!(ParseError::Empty.message(), "Empty packet");
    assert_eq!(ParseError::NoSeparator.message(), "No ':' separator found");
    assert_eq!(ParseError::InvalidHeader.message(), "Invalid header format");
    assert_eq!(ParseError::InvalidSource.message(), "Invalid source callsign");
    assert_eq!(ParseError::InvalidDestination.message(), "Invalid destination callsign");
}

#[test]
fn parse_drops_malformed_hops_only() {
    let p = parse_packet_at("N0CALL>APRS,WIDE1-1,,BAD-99,-3,WIDE2-2:>x", 7).unwrap();
    assert_eq!(p.path.len(), 2);
    assert_eq!(p.path[0].to_string(), "WIDE1-1");
    assert_eq!(p.path[1].to_string(), "WIDE2-2");
    assert_eq!(p.timestamp, 7);
}

#[test]
fn parse_keeps_trailing_spaces_and_empty_information() {
    let p = parse_packet_at("\t N0CALL>APRS ::N1CALL   :hi  ", 0).unwrap();
    assert_eq!(p.destination.call, "APRS");
    assert_eq!(p.information, ":N1CALL   :hi  ");
    assert_eq!(p.data_type, DataType::Message);

    let p = parse_packet_at("N0CALL>APRS:", 0).unwrap();
    assert_eq!(p.information, "");
    assert_eq!(p.data_type, DataType::Invalid);
}

#[test]
fn parse_then_format_is_the_text() {
    for text in [
        "N0CALL>APRS:>hi",
        "N0CALL-5>APRS,WIDE1-1*,WIDE2-2:!4903.50N/07201.75W>Test",
        "A>B,C*,D-15*,E-1:}x:y>z,",
        "TEST-12>APRS-1,N0CALL-10*::N1CALL   :msg{1",
    ] {
        let p = parse_packet_at(text, 0).unwrap();
        assert_eq!(p.to_string(), text);
        let q = parse_packet_at(&p.to_string(), 0).unwrap();
        assert_eq!(q, p);
    }
}

#[test]
fn parse_refuses_large_ssids_everywhere() {
    assert_eq!(parse_packet_at("N0CALL-256>APRS:test", 0).unwrap_err(), ParseError::InvalidSource);
    assert_eq!(parse_packet_at("N0CALL-1000>APRS:test", 0).unwrap_err(), ParseError::InvalidSource);
    assert_eq!(
        parse_packet_at("N0CALL>APRS-300:test", 0).unwrap_err(),
        ParseError::InvalidDestination
    );
    // A hop with such an SSID is left out, like any other that is no callsign.
    let p = parse_packet_at("N0CALL>APRS,WIDE1-256,WIDE2-2,X-65536*:test", 0).unwrap();
    assert_eq!(p.path.len(), 1);
    assert_eq!(p.path[0].to_string(), "WIDE2-2");
}
