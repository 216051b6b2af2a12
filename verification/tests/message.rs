use aprstx::aprs::packet::AprsPacket;
use aprstx::aprs::parser::parse_packet_at;
use aprstx::message::MessageHandler;
use aprstx::router::{PacketSource, RoutedPacket};

fn from_rf(text: &str) -> RoutedPacket {
    RoutedPacket {
        packet: parse_packet_at(text, 0).unwrap(),
        source: PacketSource::SerialPort("vhf".to_string()),
    }
}

fn texts(packets: &[AprsPacket]) -> Vec<String> {
    packets.iter().map(|p| p.to_string()).collect()
}

#[test]
fn message_with_number_is_acknowledged() {
    let mut handler = MessageHandler::new("N0CALL".to_string());
    let replies = handler.handle_message(&from_rf("N1CALL-7>APRS::N0CALL   :Test message{123"), 100);
    assert_eq!(texts(&replies), vec!["N0CALL>APRS::N1CALL-7 :ack123"]);
    assert_eq!(replies[0].timestamp, 100);
    assert_eq!(handler.received_messages.last_seen("N1CALL-7:123"), Some(100));
    // The same message again is acknowledged again, and keeps its first time.
    let replies = handler.handle_message(&from_rf("N1CALL-7>APRS::N0CALL   :Test message{123"), 200);
    assert_eq!(texts(&replies), vec!["N0CALL>APRS::N1CALL-7 :ack123"]);
    assert_eq!(handler.received_messages.last_seen("N1CALL-7:123"), Some(100));
    assert_eq!(handler.received_messages.len(), 1);
}

#[test]
fn message_without_number_gets_no_ack() {
    let mut handler = MessageHandler::new("N0CALL".to_string());
    let replies = handler.handle_message(&from_rf("N1CALL>APRS::N0CALL   :hello"), 1);
    assert!(replies.is_empty());
    assert_eq!(handler.received_messages.len(), 0);
    // The number is what follows the last brace, whatever it is.
    let replies = handler.handle_message(&from_rf("N1CALL>APRS::N0CALL   :a{b{c}"), 1);
    assert_eq!(texts(&replies), vec!["N0CALL>APRS::N1CALL   :ackc}"]);
    let replies = handler.handle_message(&from_rf("N1CALL>APRS::N0CALL   :a{"), 1);
    assert_eq!(texts(&replies), vec!["N0CALL>APRS::N1CALL   :ack"]);
}

#[test]
fn status_query_is_answered() {
    let mut handler = MessageHandler::new("N0CALL-10".to_string());
    let replies = handler.handle_message(&from_rf("N1CALL>APRS::N0CALL-10:?APRST"), 1);
    assert_eq!(texts(&replies), vec!["N0CALL-10>APRS::N1CALL   :aprstx daemon running"]);
    // In any case, with white space around, and acknowledged first.
    let replies = handler.handle_message(&from_rf("N1CALL>APRS::N0CALL-10: ?aprst {9"), 1);
    assert_eq!(texts(&replies), vec![
        "N0CALL-10>APRS::N1CALL   :ack9",
        "N0CALL-10>APRS::N1CALL   :aprstx daemon running",
    ]);
    let replies = handler.handle_message(&from_rf("N1CALL>APRS::N0CALL-10:?APRSTX"), 1);
    assert!(replies.is_empty());
}

#[test]
fn messages_for_others_and_other_packets_are_ignored() {
    let mut handler = MessageHandler::new("N0CALL".to_string());
    for text in [
        "N1CALL>APRS::N9CALL   :hi{1",
        "N1CALL>APRS::N0CAL    :hi{1",
        "N1CALL>APRS:>N0CALL   :hi{1",
        "N1CALL>APRS::N0CALL  :hi{1",
        "N1CALL>APRS::N0CALL    hi{1",
        "N1CALL>APRS::N0CALL",
        "N1CALL>APRS::",
        "N1CALL>APRS:",
    ] {
        assert!(handler.handle_message(&from_rf(text), 1).is_empty());
    }
    assert_eq!(handler.received_messages.len(), 0);
    // An addressee that starts with our call is ours.
    let replies = handler.handle_message(&from_rf("N1CALL>APRS::N0CALL-5 :hi{1"), 1);
    assert_eq!(texts(&replies), vec!["N0CALL>APRS::N1CALL   :ack1"]);
    // The packet's data type counts, not only its text.
    let mut routed = from_rf("N1CALL>APRS::N0CALL   :hi{2");
    routed.packet.data_type = aprstx::aprs::packet::DataType::Status;
    assert!(handler.handle_message(&routed, 1).is_empty());
}

#[test]
fn ack_and_rej_clear_pending_messages() {
    let mut handler = MessageHandler::new("N0CALL".to_string());
    let out = |n: &str| parse_packet_at(&format!("N0CALL>APRS::N1CALL   :hi{{{}", n), 0).unwrap();
    handler.expect_ack("1".to_string(), out("1"), 0);
    handler.expect_ack("2".to_string(), out("2"), 0);
    handler.expect_ack("3".to_string(), out("3"), 0);
    assert!(handler.handle_message(&from_rf("N1CALL>APRS::N0CALL   :ack2"), 1).is_empty());
    let ids: Vec<&str> = handler.pending_acks.iter().map(|m| m.msg_id.as_str()).collect();
    assert_eq!(ids, vec!["1", "3"]);
    assert!(handler.handle_message(&from_rf("N1CALL>APRS::N0CALL   :rej1"), 1).is_empty());
    assert!(handler.handle_message(&from_rf("N1CALL>APRS::N0CALL   :ack9"), 1).is_empty());
    let ids: Vec<&str> = handler.pending_acks.iter().map(|m| m.msg_id.as_str()).collect();
    assert_eq!(ids, vec!["3"]);
    assert_eq!(handler.received_messages.len(), 0);
}

#[test]
fn pending_messages_are_retried_three_times() {
    let mut handler = MessageHandler::new("N0CALL".to_string());
    let packet = parse_packet_at("N0CALL>APRS::N1CALL   :hi{1", 0).unwrap();
    handler.expect_ack("1".to_string(), packet.clone(), 1000);
    assert!(handler.retry_pending_messages(1029).is_empty());
    assert_eq!(handler.pending_acks[0].attempts, 0);
    for attempt in 1u8..=3 {
        let now = 1000 + 30 * attempt as i64;
        let sent = handler.retry_pending_messages(now);
        assert_eq!(texts(&sent), vec![packet.to_string()]);
        assert_eq!(handler.pending_acks.len(), 1);
        assert_eq!(handler.pending_acks[0].attempts, attempt);
        assert_eq!(handler.pending_acks[0].last_attempt, now);
        assert!(handler.retry_pending_messages(now + 29).is_empty());
    }
    // After the third attempt it is given up.
    assert!(handler.retry_pending_messages(1120).is_empty());
    assert!(handler.pending_acks.is_empty());
}

#[test]
fn retries_keep_the_order_of_the_list() {
    let mut handler = MessageHandler::new("N0CALL".to_string());
    let out = |n: &str| parse_packet_at(&format!("N0CALL>APRS::N1CALL   :hi{{{}", n), 0).unwrap();
    handler.expect_ack("a".to_string(), out("a"), 0);
    handler.expect_ack("b".to_string(), out("b"), 20);
    handler.expect_ack("c".to_string(), out("c"), 0);
    handler.pending_acks[0].attempts = 3;
    let sent = handler.retry_pending_messages(30);
    assert_eq!(texts(&sent), vec!["N0CALL>APRS::N1CALL   :hi{c"]);
    let ids: Vec<&str> = handler.pending_acks.iter().map(|m| m.msg_id.as_str()).collect();
    assert_eq!(ids, vec!["b", "c"]);
    assert_eq!(handler.pending_acks[0].attempts, 0);
    assert_eq!(handler.pending_acks[1].attempts, 1);
}

#[test]
fn received_messages_are_forgotten_after_a_day() {
    let mut handler = MessageHandler::new("N0CALL".to_string());
    handler.handle_message(&from_rf("N1CALL>APRS::N0CALL   :a{1"), 0);
    handler.handle_message(&from_rf("N1CALL>APRS::N0CALL   :b{2"), 1);
    handler.cleanup_old_messages(86_399);
    assert_eq!(handler.received_messages.len(), 2);
    handler.cleanup_old_messages(86_400);
    assert_eq!(handler.received_messages.len(), 1);
    assert!(handler.received_messages.contains_key("N1CALL:2"));
    handler.cleanup_old_messages(86_401);
    assert_eq!(handler.received_messages.len(), 0);
}

#[test]
fn a_message_number_is_pending_once() {
    let mut handler = MessageHandler::new("N0CALL".to_string());
    let out = |text: &str| parse_packet_at(&format!("N0CALL>APRS::N1CALL   :{}", text), 0).unwrap();
    handler.expect_ack("1".to_string(), out("first{1"), 0);
    handler.expect_ack("2".to_string(), out("other{2"), 5);
    handler.pending_acks[0].attempts = 2;
    // Sent again under the same number, it takes the place of the first.
    handler.expect_ack("1".to_string(), out("second{1"), 10);
    let ids: Vec<&str> = handler.pending_acks.iter().map(|m| m.msg_id.as_str()).collect();
    assert_eq!(ids, vec!["2", "1"]);
    assert_eq!(handler.pending_acks[1].packet.information, ":N1CALL   :second{1");
    assert_eq!(handler.pending_acks[1].attempts, 0);
    assert_eq!(handler.pending_acks[1].last_attempt, 10);
    // One acknowledgement clears it.
    handler.handle_message(&from_rf("N1CALL>APRS::N0CALL   :ack1"), 11);
    let ids: Vec<&str> = handler.pending_acks.iter().map(|m| m.msg_id.as_str()).collect();
    assert_eq!(ids, vec!["2"]);
}
