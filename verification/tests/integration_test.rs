use aprstx::aprs::packet::DataType;
use aprstx::aprs::{AprsPacket, CallSign};
use aprstx::beacon::BeaconService;
use aprstx::config::{BeaconConfig, SmartBeaconConfig};
use aprstx::gps::{GpsPosition, GpsSource};

#[test]
fn test_config_loading() {
    // This would test loading a config from a string
    let _config_str = r#"
        mycall = "N0CALL-10"
        
        [[serial_ports]]
        name = "test"
        device = "/dev/ttyUSB0"
        baud_rate = 9600
        protocol = "kiss"
        tx_enable = true
        rx_enable = true
        
        [digipeater]
        enabled = true
        mycall = "N0CALL-10"
        aliases = ["WIDE1-1"]
        viscous_delay = 5
        max_hops = 3
        
        [telemetry]
        enabled = false
        interval = 1200
        comment = "Test"
        
        [[filters]]
        name = "test"
        action = "drop"
        pattern = "TEST"
    "#;
}

#[test]
fn test_message_ack_flow() {
    // Create a message packet
    let msg_packet = AprsPacket::new(
        CallSign::new("N1CALL", 0),
        CallSign::new("APRS", 0),
        ":N0CALL   :Test message{123".to_string(),
    );

    assert_eq!(msg_packet.data_type, DataType::Message);

    // Verify message format
    let info = &msg_packet.information;
    assert!(info.starts_with(':'));
    assert_eq!(&info[1..10], "N0CALL   ");
    assert!(info.contains("Test message{123"));
}

#[test]
fn test_smart_beacon_logic() {
    let config = BeaconConfig {
        enabled: true,
        callsign: "N0CALL-9".to_string(),
        interval: 600,
        path: "WIDE1-1".to_string(),
        symbol_table: '/',
        symbol: '>',
        comment: "Test".to_string(),
        timestamp: true,
        smart_beacon: SmartBeaconConfig {
            enabled: true,
            check_interval: 5,
            min_interval: 30,
            stationary_interval: 600,
            low_speed: 5,
            low_speed_interval: 300,
            high_speed: 60,
            high_speed_interval: 60,
            turn_angle: 20,
            turn_speed: 5,
        },
    };

    let pos = GpsPosition {
        latitude: 407_128_000,
        longitude: -740_060_000,
        altitude: Some(10_000),
        speed: Some(0),
        course: Some(0),
        timestamp: 0,
    };

    let _gps = GpsSource::Fixed(pos);
    let _beacon = BeaconService::new(config);
}
