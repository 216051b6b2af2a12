use aprstx::aprs::parser::parse_packet_at;
use aprstx::config::{SerialPortConfig, SerialProtocol};
use aprstx::router::PacketSource;
use aprstx::serial::kiss::KissCodec;
use aprstx::serial::link::{is_standard_baud, receive_kiss, transmit_kiss, Tnc2Link};
use aprstx::serial::aprs_to_ax25;
use bytes::BytesMut;

fn port(protocol: SerialProtocol) -> SerialPortConfig {
    SerialPortConfig {
        name: "vhf".to_string(),
        device: "/dev/ttyUSB0".to_string(),
        baud_rate: 9600,
        protocol,
        tx_enable: true,
        rx_enable: true,
    }
}

#[test]
fn kiss_link_receives_packets() {
    let config = port(SerialProtocol::Kiss);
    let encoder = KissCodec::new();
    let a = parse_packet_at("TEST>APRS,WIDE1-1:>one", 0).unwrap();
    let b = parse_packet_at("N0CALL-5>APRS:!4903.50N/07201.75W>two", 0).unwrap();
    let mut wire = Vec::new();
    wire.extend(encoder.encode(&aprs_to_ax25(&a).unwrap(), 0));
    // A frame that is no AX.25 and a frame for another port are passed over.
    wire.extend(encoder.encode(&[1, 2, 3], 0));
    wire.extend(encoder.encode(&aprs_to_ax25(&a).unwrap(), 1));
    wire.extend(encoder.encode(&aprs_to_ax25(&b).unwrap(), 0));
    let (first, second) = wire.split_at(wire.len() - 5);

    let mut codec = KissCodec::new();
    let mut buf = BytesMut::new();
    buf.extend_from_slice(first);
    let got = receive_kiss(&mut codec, &mut buf, &config, 77);
    assert!(buf.is_empty());
    assert_eq!(got.len(), 1);
    assert_eq!(got[0].packet.to_string(), "TEST>APRS,WIDE1-1:>one");
    assert_eq!(got[0].packet.timestamp, 77);
    assert_eq!(got[0].source, PacketSource::SerialPort("vhf".to_string()));
    // The rest of the last frame completes it.
    buf.extend_from_slice(second);
    let got = receive_kiss(&mut codec, &mut buf, &config, 78);
    assert_eq!(got.len(), 1);
    assert_eq!(got[0].packet.to_string(), "N0CALL-5>APRS:!4903.50N/07201.75W>two");
    assert!(receive_kiss(&mut codec, &mut buf, &config, 79).is_empty());
}

#[test]
fn kiss_link_with_receiving_disabled_still_reads() {
    let mut config = port(SerialProtocol::Kiss);
    config.rx_enable = false;
    let encoder = KissCodec::new();
    let a = parse_packet_at("TEST>APRS:>one", 0).unwrap();
    let mut codec = KissCodec::new();
    let mut buf = BytesMut::new();
    buf.extend_from_slice(&encoder.encode(&aprs_to_ax25(&a).unwrap(), 0));
    assert!(receive_kiss(&mut codec, &mut buf, &config, 0).is_empty());
    assert!(buf.is_empty());
}

#[test]
fn kiss_link_transmits() {
    let mut config = port(SerialProtocol::Kiss);
    let codec = KissCodec::new();
    let a = parse_packet_at("TEST>APRS:>one", 0).unwrap();
    let bytes = transmit_kiss(&codec, &config, &a).unwrap();
    assert_eq!(bytes, codec.encode(&aprs_to_ax25(&a).unwrap(), 0));
    assert_eq!(bytes[0], 0xC0);
    assert_eq!(bytes[1], 0x00);
    assert_eq!(bytes[bytes.len() - 1], 0xC0);
    config.tx_enable = false;
    assert!(transmit_kiss(&codec, &config, &a).is_none());
}

#[test]
fn tnc2_link_receives_lines() {
    let config = port(SerialProtocol::Tnc2);
    let mut link = Tnc2Link::new();
    let got = link.receive(b"TEST>APRS:>one\r\n\r\nnot a packet\nN0CALL>APRS:>tw", &config, 5);
    assert_eq!(got.len(), 1);
    assert_eq!(got[0].packet.to_string(), "TEST>APRS:>one");
    assert_eq!(got[0].packet.timestamp, 5);
    assert_eq!(got[0].source, PacketSource::SerialPort("vhf".to_string()));
    assert_eq!(link.line_buffer, "N0CALL>APRS:>tw");
    let got = link.receive(b"o \r\r\nA>B:x\n", &config, 6);
    let texts: Vec<String> = got.iter().map(|r| r.packet.to_string()).collect();
    // Spaces at the end of the line belong to the packet, carriage returns do not.
    assert_eq!(texts, vec!["N0CALL>APRS:>two ", "A>B:x"]);
    assert_eq!(link.line_buffer, "");
    assert!(link.receive(b"", &config, 7).is_empty());
    // What is no UTF-8 is replaced.
    let got = link.receive(b"A>B:\xff\n", &config, 7);
    assert_eq!(got[0].packet.information, "\u{fffd}");
}

#[test]
fn tnc2_link_with_receiving_disabled_still_reads() {
    let mut config = port(SerialProtocol::Tnc2);
    config.rx_enable = false;
    let mut link = Tnc2Link::new();
    assert!(link.receive(b"TEST>APRS:>one\nrest", &config, 0).is_empty());
    assert_eq!(link.line_buffer, "rest");
}

#[test]
fn tnc2_link_transmits() {
    let mut config = port(SerialProtocol::Tnc2);
    let a = parse_packet_at("TEST>APRS,WIDE1-1*:>one ", 0).unwrap();
    assert_eq!(Tnc2Link::transmit(&config, &a).unwrap(), "TEST>APRS,WIDE1-1*:>one \r\n");
    config.tx_enable = false;
    assert!(Tnc2Link::transmit(&config, &a).is_none());
}

#[test]
fn standard_baud_rates() {
    let standard = [
        50, 75, 110, 134, 150, 200, 300, 600, 1200, 1800, 2400, 4800, 9600, 19200, 38400, 57600,
        115200, 230400,
    ];
    for rate in standard {
        assert!(is_standard_baud(rate));
    }
    for rate in [0, 1, 49, 51, 9601, 14400, 28800, 460800, u32::MAX] {
        assert!(!is_standard_baud(rate));
    }
}
