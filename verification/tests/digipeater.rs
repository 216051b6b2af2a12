use aprstx::aprs::packet::{AprsPacket, CallSign};
use aprstx::aprs::parser::parse_packet_at;
use aprstx::config::DigipeaterConfig;
use aprstx::digipeater::{
    cleanup_old_packets, digipeat, is_wide_pattern, parse_wide_pattern, process_packet,
    should_digipeat, DigipeaterState,
};

fn create_test_config() -> DigipeaterConfig {
    DigipeaterConfig {
        enabled: true,
        mycall: "N0CALL-10".to_string(),
        aliases: vec!["WIDE1-1".to_string()],
        viscous_delay: 5,
        max_hops: 3,
    }
}

fn test_packet() -> AprsPacket {
    AprsPacket::new(CallSign::new("TEST", 0), CallSign::new("APRS", 0), ">Test".to_string())
}

#[test]
fn test_should_digipeat_disabled() {
    let mut config = create_test_config();
    config.enabled = false;

    let packet = AprsPacket::new(
        CallSign::new("TEST", 0),
        CallSign::new("APRS", 0),
        ">Test".to_string(),
    );

    assert!(!should_digipeat(&config, &packet));
}

#[test]
fn test_should_digipeat_direct_call() {
    let config = create_test_config();

    let mut packet = AprsPacket::new(
        CallSign::new("TEST", 0),
        CallSign::new("APRS", 0),
        ">Test".to_string(),
    );
    packet.path.push(CallSign::new("N0CALL-10", 0));

    assert!(should_digipeat(&config, &packet));
}

#[test]
fn test_should_digipeat_alias() {
    let config = create_test_config();

    let mut packet = AprsPacket::new(
        CallSign::new("TEST", 0),
        CallSign::new("APRS", 0),
        ">Test".to_string(),
    );
    packet.path.push(CallSign::new("WIDE1-1", 0));

    assert!(should_digipeat(&config, &packet));
}

#[test]
fn test_should_digipeat_wide_pattern() {
    let config = create_test_config();

    let mut packet = AprsPacket::new(
        CallSign::new("TEST", 0),
        CallSign::new("APRS", 0),
        ">Test".to_string(),
    );
    packet.path.push(CallSign::new("WIDE2-2", 0));

    assert!(should_digipeat(&config, &packet));
}

#[test]
fn test_should_not_digipeat_used_hop() {
    let config = create_test_config();

    let mut packet = AprsPacket::new(
        CallSign::new("TEST", 0),
        CallSign::new("APRS", 0),
        ">Test".to_string(),
    );
    packet.path.push(CallSign::new("N0CALL-10*", 0));
    packet.path.push(CallSign::new("WIDE1-1", 0));

    assert!(should_digipeat(&config, &packet));
}

#[test]
fn test_should_not_digipeat_max_hops() {
    let config = create_test_config();

    let mut packet = AprsPacket::new(
        CallSign::new("TEST", 0),
        CallSign::new("APRS", 0),
        ">Test".to_string(),
    );
    packet.path.push(CallSign::new("N0CALL*", 0));
    packet.path.push(CallSign::new("N1CALL*", 0));
    packet.path.push(CallSign::new("N2CALL*", 0));
    packet.path.push(CallSign::new("WIDE1-1", 0));

    assert!(!should_digipeat(&config, &packet));
}

#[test]
fn test_is_wide_pattern() {
    assert!(is_wide_pattern("WIDE1-1"));
    assert!(is_wide_pattern("WIDE2-2"));
    assert!(is_wide_pattern("WIDE3-3"));
    assert!(is_wide_pattern("WIDE7-7"));

    assert!(!is_wide_pattern("WIDE8-8"));
    assert!(!is_wide_pattern("WIDE1-0"));
    assert!(!is_wide_pattern("WIDE"));
    assert!(!is_wide_pattern("WIDE-1"));
    assert!(!is_wide_pattern("WIDEN-1"));
    assert!(!is_wide_pattern("TEST-1"));
}

#[test]
fn test_parse_wide_pattern() {
    assert_eq!(parse_wide_pattern("WIDE2-2"), ("WIDE2".to_string(), 2));
    assert_eq!(parse_wide_pattern("WIDE1-1"), ("WIDE1".to_string(), 1));
    assert_eq!(parse_wide_pattern("TEST"), ("TEST".to_string(), 0));
}

#[test]
fn wide_pattern_edges() {
    // The level digit is 1 to 7, and so is the number of hops left.
    assert!(!is_wide_pattern("WIDE0-1"));
    assert!(!is_wide_pattern("WIDE8-1"));
    assert!(!is_wide_pattern("WIDE9-7"));
    assert!(is_wide_pattern("WIDE7-1"));
    assert!(is_wide_pattern("WIDE1-7"));
    assert!(!is_wide_pattern("WIDE1-8"));
    assert!(!is_wide_pattern("WIDE1-"));
    assert!(!is_wide_pattern("WIDE1-1-1"));
    assert!(!is_wide_pattern("WIDE1-x"));
    assert!(!is_wide_pattern("wide1-1"));
    assert!(!is_wide_pattern("WIDE1"));
    assert!(!is_wide_pattern(""));
    assert!(!is_wide_pattern("XWIDE1-1"));
    assert_eq!(parse_wide_pattern("A-1-2"), ("A-1-2".to_string(), 0));
    assert_eq!(parse_wide_pattern("A-"), ("A-".to_string(), 0));
    assert_eq!(parse_wide_pattern("-9"), ("".to_string(), 9));
    assert_eq!(parse_wide_pattern("X-255"), ("X".to_string(), 255));
    assert_eq!(parse_wide_pattern("X-256"), ("X-256".to_string(), 0));
}

#[test]
fn digipeats_wide2_2() {
    let config = create_test_config();
    let mut state = DigipeaterState::new();
    let packet = parse_packet_at("TEST>APRS,WIDE2-2:>hi", 0).unwrap();
    let out = digipeat(&config, &packet, &mut state, 100).unwrap();
    assert_eq!(out.to_string(), "TEST>APRS,N0CALL-10*,WIDE2-1:>hi");
    assert_eq!(out.path.len(), 2);
    assert!(out.path[0].digipeated);
    assert_eq!(out.path[0].call, "N0CALL");
    assert_eq!(out.path[0].ssid.0, 10);
    assert_eq!(out.path[1].call, "WIDE2");
    assert_eq!(out.path[1].ssid.0, 1);
    assert!(!out.path[1].digipeated);
}

#[test]
fn digipeats_wide1_1_as_last_hop() {
    let mut config = create_test_config();
    config.aliases.clear();
    let mut state = DigipeaterState::new();
    let packet = parse_packet_at("TEST>APRS,WIDE1-1:>hi", 0).unwrap();
    let out = digipeat(&config, &packet, &mut state, 100).unwrap();
    assert_eq!(out.to_string(), "TEST>APRS,N0CALL-10*:>hi");
}

#[test]
fn digipeats_alias_and_own_call() {
    let config = create_test_config();
    let mut state = DigipeaterState::new();
    let packet = parse_packet_at("TEST>APRS,WIDE1-1:>hi", 0).unwrap();
    let out = digipeat(&config, &packet, &mut state, 100).unwrap();
    assert_eq!(out.to_string(), "TEST>APRS,N0CALL-10*:>hi");

    let packet = parse_packet_at("TEST>APRS,N0CALL-10,WIDE2-1:>other", 0).unwrap();
    let out = digipeat(&config, &packet, &mut state, 100).unwrap();
    assert_eq!(out.to_string(), "TEST>APRS,N0CALL-10*,WIDE2-1:>other");
}

#[test]
fn digipeater_keeps_the_rest_of_the_path() {
    let config = create_test_config();
    let mut state = DigipeaterState::new();
    let packet = parse_packet_at("TEST-3>APRS,K1ABC*,WIDE3-3,WIDE2-2,X9X:>hi", 0).unwrap();
    let out = digipeat(&config, &packet, &mut state, 1).unwrap();
    assert_eq!(out.to_string(), "TEST-3>APRS,K1ABC*,N0CALL-10*,WIDE3-2,WIDE2-2,X9X:>hi");
    assert_eq!(out.source, packet.source);
    assert_eq!(out.destination, packet.destination);
    assert_eq!(out.information, packet.information);
    assert_eq!(out.data_type, packet.data_type);
    assert_eq!(out.timestamp, packet.timestamp);
}

#[test]
fn digipeater_reads_hops_written_as_text() {
    // A hop whose call holds the whole address, marker included, counts the same.
    let config = create_test_config();
    let mut state = DigipeaterState::new();
    let mut packet = test_packet();
    packet.path.push(CallSign::new("K1ABC*", 0));
    packet.path.push(CallSign::new("WIDE2-2", 0));
    let out = process_packet(&config, &packet, &mut state, 0).unwrap();
    assert_eq!(out.to_string(), "TEST>APRS,K1ABC*,N0CALL-10*,WIDE2-1:>Test");
}

#[test]
fn digipeater_ignores_hops_for_others() {
    let config = create_test_config();
    let mut state = DigipeaterState::new();
    let packet = parse_packet_at("TEST>APRS,K1ABC,WIDE2-2:>hi", 0).unwrap();
    assert!(!should_digipeat(&config, &packet));
    assert!(digipeat(&config, &packet, &mut state, 1).is_none());
    assert_eq!(state.recent_packets.len(), 0);
    // Handled without the admission check it is remembered, and still not rewritten.
    assert!(process_packet(&config, &packet, &mut state, 1).is_none());
    assert_eq!(state.recent_packets.len(), 1);

    let packet = parse_packet_at("TEST>APRS:>hi", 0).unwrap();
    assert!(digipeat(&config, &packet, &mut state, 1).is_none());
    let packet = parse_packet_at("TEST>APRS,WIDE1-1*:>hi", 0).unwrap();
    assert!(digipeat(&config, &packet, &mut state, 1).is_none());
}

#[test]
fn digipeater_hop_cap() {
    let mut config = create_test_config();
    let mut state = DigipeaterState::new();
    let packet = parse_packet_at("TEST>APRS,A*,B*,C*,WIDE2-2:>hi", 0).unwrap();
    assert!(digipeat(&config, &packet, &mut state, 1).is_none());
    assert_eq!(state.recent_packets.len(), 0);
    config.max_hops = 4;
    let out = digipeat(&config, &packet, &mut state, 1).unwrap();
    assert_eq!(out.to_string(), "TEST>APRS,A*,B*,C*,N0CALL-10*,WIDE2-1:>hi");
    config.max_hops = 0;
    let packet = parse_packet_at("TEST>APRS,WIDE2-2:>new", 0).unwrap();
    assert!(digipeat(&config, &packet, &mut state, 1).is_none());
}

#[test]
fn digipeater_viscous_delay() {
    let config = create_test_config();
    let mut state = DigipeaterState::new();
    let packet = parse_packet_at("TEST>APRS,WIDE1-1:>hi", 0).unwrap();
    // The first is repeated, the second within five seconds is not.
    assert!(digipeat(&config, &packet, &mut state, 100).is_some());
    assert!(digipeat(&config, &packet, &mut state, 100).is_none());
    assert!(digipeat(&config, &packet, &mut state, 104).is_none());
    // A copy that came by another way counts as the same packet.
    let other_way = parse_packet_at("TEST>APRS,K1ABC*,WIDE2-1:>hi", 0).unwrap();
    assert!(digipeat(&config, &other_way, &mut state, 104).is_none());
    assert_eq!(state.recent_packets.last_seen("TEST>>hi"), Some(100));
    // Five seconds later it is repeated again.
    assert!(digipeat(&config, &packet, &mut state, 105).is_some());
    assert_eq!(state.recent_packets.last_seen("TEST>>hi"), Some(105));
    assert_eq!(state.recent_packets.len(), 1);
    // Other content is another packet.
    let other = parse_packet_at("TEST>APRS,WIDE1-1:>ho", 0).unwrap();
    assert!(digipeat(&config, &other, &mut state, 105).is_some());
    assert_eq!(state.recent_packets.len(), 2);
}

#[test]
fn digipeater_cleanup() {
    let mut state = DigipeaterState::new();
    state.recent_packets.record("old_packet".to_string(), 0);
    state.recent_packets.record("edge_packet".to_string(), 100);
    state.recent_packets.record("new_packet".to_string(), 400);

    cleanup_old_packets(&mut state, 400);

    assert_eq!(state.recent_packets.len(), 1);
    assert!(state.recent_packets.contains_key("new_packet"));
    assert!(!state.recent_packets.contains_key("old_packet"));
    assert!(!state.recent_packets.contains_key("edge_packet"));

    state.recent_packets.record("a".to_string(), 101);
    cleanup_old_packets(&mut state, 400);
    assert_eq!(state.recent_packets.len(), 2);
    assert_eq!(state.recent_packets.last_seen("a"), Some(101));
}

#[test]
fn digipeater_own_call_that_is_no_callsign() {
    let mut config = create_test_config();
    config.mycall = "digi-99".to_string();
    config.aliases = vec!["RELAY".to_string()];
    let mut state = DigipeaterState::new();
    let packet = parse_packet_at("TEST>APRS,RELAY:>hi", 0).unwrap();
    let out = digipeat(&config, &packet, &mut state, 1).unwrap();
    assert_eq!(out.to_string(), "TEST>APRS,DIGI-99*:>hi");
}

#[test]
fn test_viscous_delay() {
    let config = create_test_config();
    let mut state = DigipeaterState::new();

    let mut packet = AprsPacket::new(
        CallSign::new("TEST", 0),
        CallSign::new("APRS", 0),
        ">Test".to_string(),
    );
    packet.path.push(CallSign::new("WIDE1-1", 0));

    // First packet should be processed
    assert!(process_packet(&config, &packet, &mut state, 1000).is_some());

    // Same packet within viscous delay should be dropped
    assert!(process_packet(&config, &packet, &mut state, 1000).is_none());
}

#[test]
fn test_cleanup_old_packets() {
    let mut state = DigipeaterState::new();

    // Add old packet
    state.recent_packets.record("old_packet".to_string(), 1000 - 400);
    state.recent_packets.record("new_packet".to_string(), 1000);

    cleanup_old_packets(&mut state, 1000);

    assert_eq!(state.recent_packets.len(), 1);
    assert!(state.recent_packets.contains_key("new_packet"));
}
