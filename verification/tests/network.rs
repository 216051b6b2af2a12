use aprstx::aprs::parser::{parse_packet_at, ParseError};
use aprstx::config::AprsIsConfig;
use aprstx::network::{
    calculate_passcode, keepalive_line, login_accepted, login_line, login_passcode, packet_line,
    read_server_line, AprsIsSession, ServerLine, SessionAction, SessionEvent, SessionPhase,
};
use aprstx::router::PacketSource;

fn test_config() -> AprsIsConfig {
    AprsIsConfig {
        server: "rotate.aprs2.net".to_string(),
        port: 14580,
        callsign: "N0CALL-10".to_string(),
        passcode: "13023".to_string(),
        filter: None,
        tx_enable: true,
        rx_enable: true,
    }
}

#[test]
fn passcode_of_n0call() {
    // The passcode that every APRS-IS passcode generator gives for N0CALL.
    assert_eq!(calculate_passcode("N0CALL"), 13023);
    // The SSID does not count, nor does the case.
    assert_eq!(calculate_passcode("N0CALL-10"), 13023);
    assert_eq!(calculate_passcode("n0call-5"), 13023);
}

#[test]
fn passcode_formula() {
    // No characters: the start value.
    assert_eq!(calculate_passcode(""), 0x73e2);
    assert_eq!(calculate_passcode("-1"), 0x73e2);
    // One character is shifted into the high byte, the second is not.
    assert_eq!(calculate_passcode("A"), (0x73e2 ^ 0x4100) & 0x7fff);
    assert_eq!(calculate_passcode("AB"), (0x73e2 ^ 0x4100 ^ 0x42) & 0x7fff);
    assert_eq!(calculate_passcode("ABC"), (0x73e2 ^ 0x4100 ^ 0x42 ^ 0x4300) & 0x7fff);
    // Bit 15 is masked off.
    assert_eq!(calculate_passcode("\u{80}"), 0x73e2);
    // Characters beyond ASCII count with their code.
    assert_eq!(calculate_passcode("\u{416}"), (0x73e2 ^ (0x416 << 8)) & 0x7fff);
    for call in ["K1ABC", "DL1XYZ", "JA1ZZZ-15", "W"] {
        let code = calculate_passcode(call);
        assert!((0..=0x7fff).contains(&code));
    }
}

#[test]
fn login_passcode_choice() {
    assert_eq!(login_passcode("-1", "N0CALL"), -1);
    assert_eq!(login_passcode("12345", "N0CALL"), 12345);
    assert_eq!(login_passcode("+7", "N0CALL"), 7);
    assert_eq!(login_passcode("-2147483648", "N0CALL"), i32::MIN);
    assert_eq!(login_passcode("2147483647", "N0CALL"), i32::MAX);
    // What is no 32-bit number is replaced by the computed passcode.
    assert_eq!(login_passcode("2147483648", "N0CALL"), 13023);
    assert_eq!(login_passcode("-2147483649", "N0CALL"), 13023);
    assert_eq!(login_passcode("secret", "N0CALL"), 13023);
    assert_eq!(login_passcode("", "N0CALL"), 13023);
    assert_eq!(login_passcode("12 ", "N0CALL"), 13023);
    assert_eq!(login_passcode("-", "N0CALL"), 13023);
}

#[test]
fn login_line_forms() {
    let mut config = test_config();
    assert_eq!(login_line(&config), "user N0CALL-10 pass 13023 vers aprstx 0.1.0\r\n");
    config.passcode = "-1".to_string();
    config.filter = Some("r/40.7/-74.0/50".to_string());
    assert_eq!(
        login_line(&config),
        "user N0CALL-10 pass -1 vers aprstx 0.1.0 filter r/40.7/-74.0/50\r\n"
    );
    config.passcode = "auto".to_string();
    config.filter = None;
    assert_eq!(login_line(&config), "user N0CALL-10 pass 13023 vers aprstx 0.1.0\r\n");
}

#[test]
fn login_answers() {
    assert!(login_accepted("# logresp N0CALL-10 verified, server T2TEST\r\n"));
    assert!(login_accepted("# logresp N0CALL-10 unverified, server T2TEST\r\n"));
    assert!(!login_accepted("# invalid login\r\n"));
    assert!(!login_accepted(""));
    assert!(!login_accepted("# Verified"));
}

#[test]
fn lines_to_the_server() {
    assert_eq!(keepalive_line(), "# keepalive\r\n");
    let p = parse_packet_at("N0CALL>APRS,WIDE1-1:>hi ", 0).unwrap();
    assert_eq!(packet_line(&p), "N0CALL>APRS,WIDE1-1:>hi \r\n");
}

#[test]
fn lines_from_the_server() {
    assert!(matches!(read_server_line("", 0), ServerLine::Blank));
    assert!(matches!(read_server_line(" \r\n", 0), ServerLine::Blank));
    assert!(matches!(read_server_line("# aprsc 2.1.4\r\n", 0), ServerLine::Comment));
    assert!(matches!(read_server_line("  #x", 0), ServerLine::Comment));
    match read_server_line("TEST>APRS,TCPIP*,qAC,T2TEST:>hi  \r\n", 9) {
        ServerLine::Packet(p) => {
            // White space at the end of the line is not part of the packet.
            assert_eq!(p.to_string(), "TEST>APRS,TCPIP*,QAC,T2TEST:>hi");
            assert_eq!(p.timestamp, 9);
        }
        other => panic!("{:?}", other),
    }
    assert!(matches!(
        read_server_line("garbage\r\n", 0),
        ServerLine::Garbage(ParseError::NoSeparator)
    ));
}

#[test]
fn session_logs_in_and_runs() {
    let mut session = AprsIsSession::new(test_config());
    assert_eq!(session.phase, SessionPhase::AwaitBanner);
    // Nothing is sent before the banner.
    assert!(matches!(session.on_event(SessionEvent::KeepaliveDue, 0), SessionAction::Nothing));
    match session.on_event(SessionEvent::Line("# aprsc 2.1.4\r\n".to_string()), 0) {
        SessionAction::Send(line) => {
            assert_eq!(line, "user N0CALL-10 pass 13023 vers aprstx 0.1.0\r\n")
        }
        other => panic!("{:?}", other),
    }
    assert_eq!(session.phase, SessionPhase::AwaitLogin);
    let p = parse_packet_at("N0CALL-10>APRS:>hi", 0).unwrap();
    assert!(matches!(
        session.on_event(SessionEvent::Outgoing(p.clone()), 0),
        SessionAction::Nothing
    ));
    assert!(matches!(
        session.on_event(SessionEvent::Line("# logresp N0CALL-10 verified\r\n".to_string()), 0),
        SessionAction::Nothing
    ));
    assert_eq!(session.phase, SessionPhase::Running);

    match session.on_event(SessionEvent::Line("TEST>APRS:>x\r\n".to_string()), 5) {
        SessionAction::Deliver(routed) => {
            assert_eq!(routed.source, PacketSource::AprsIs);
            assert_eq!(routed.packet.to_string(), "TEST>APRS:>x");
            assert_eq!(routed.packet.timestamp, 5);
        }
        other => panic!("{:?}", other),
    }
    assert!(matches!(
        session.on_event(SessionEvent::Line("# comment\r\n".to_string()), 5),
        SessionAction::Nothing
    ));
    assert!(matches!(
        session.on_event(SessionEvent::Line("no packet\r\n".to_string()), 5),
        SessionAction::Nothing
    ));
    match session.on_event(SessionEvent::Outgoing(p), 5) {
        SessionAction::Send(line) => assert_eq!(line, "N0CALL-10>APRS:>hi\r\n"),
        other => panic!("{:?}", other),
    }
    match session.on_event(SessionEvent::KeepaliveDue, 5) {
        SessionAction::Send(line) => assert_eq!(line, "# keepalive\r\n"),
        other => panic!("{:?}", other),
    }
    assert!(matches!(session.on_event(SessionEvent::EndOfStream, 5), SessionAction::Disconnect));
    assert_eq!(session.phase, SessionPhase::Closed);
    assert!(matches!(session.on_event(SessionEvent::KeepaliveDue, 6), SessionAction::Nothing));
    assert_eq!(session.phase, SessionPhase::Closed);
}

#[test]
fn session_refused_login_and_disabled_directions() {
    let mut session = AprsIsSession::new(test_config());
    session.on_event(SessionEvent::Line("# banner".to_string()), 0);
    assert!(matches!(
        session.on_event(SessionEvent::Line("# invalid".to_string()), 0),
        SessionAction::LoginFailed
    ));
    assert_eq!(session.phase, SessionPhase::Closed);

    let mut session = AprsIsSession::new(test_config());
    assert!(matches!(session.on_event(SessionEvent::EndOfStream, 0), SessionAction::Disconnect));
    assert_eq!(session.phase, SessionPhase::Closed);

    let mut config = test_config();
    config.rx_enable = false;
    config.tx_enable = false;
    let mut session = AprsIsSession::new(config);
    session.on_event(SessionEvent::Line("# banner".to_string()), 0);
    session.on_event(SessionEvent::Line("# logresp unverified".to_string()), 0);
    assert_eq!(session.phase, SessionPhase::Running);
    assert!(matches!(
        session.on_event(SessionEvent::Line("TEST>APRS:>x".to_string()), 0),
        SessionAction::Nothing
    ));
    let p = parse_packet_at("N0CALL-10>APRS:>hi", 0).unwrap();
    assert!(matches!(session.on_event(SessionEvent::Outgoing(p), 0), SessionAction::Nothing));
    assert!(matches!(session.on_event(SessionEvent::KeepaliveDue, 0), SessionAction::Send(_)));
}
