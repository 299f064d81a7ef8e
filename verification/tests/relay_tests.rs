use chat_relay::codec::parse_message;
use chat_relay::relay::compose_frame;
use chat_relay::relay::Relay;
use chat_relay::relay::RelayStatus;
use chat_relay::registry::Registry;
use chrono::DateTime;
use chrono::Utc;

fn expected_stamp(ms: i64) -> String {
    DateTime::<Utc>::from_timestamp_millis(ms).unwrap().to_rfc3339()
}

#[test]
fn fanout_reaches_all_but_sender() {
    let mut relay = Relay::new();
    let a = relay.on_accept();
    let b = relay.on_accept();
    let c = relay.on_accept();
    let now: i64 = 1_700_000_000_000;
    let delivery = relay
        .on_frame(a, "{\"user_id\":\"a\",\"content\":\"hi\"}", now)
        .unwrap();
    assert_eq!(delivery.recipients.len(), 2);
    assert!(delivery.recipients.contains(&b));
    assert!(delivery.recipients.contains(&c));
    assert!(!delivery.recipients.contains(&a));
    let seen = parse_message(&delivery.frame).unwrap();
    assert_eq!(seen.user_id, "a");
    assert_eq!(seen.content, "hi");
    assert_eq!(seen.timestamp, expected_stamp(now));
}

#[test]
fn timestamp_is_server_assigned() {
    let mut relay = Relay::new();
    let a = relay.on_accept();
    let _b = relay.on_accept();
    let now: i64 = 1_700_000_123_456;
    let forged = "1999-12-31T23:59:59+00:00";
    let frame = format!(
        "{{\"user_id\":\"a\",\"timestamp\":\"{}\",\"content\":\"hi\"}}",
        forged
    );
    let delivery = relay.on_frame(a, &frame, now).unwrap();
    let seen = parse_message(&delivery.frame).unwrap();
    assert_ne!(seen.timestamp, forged);
    assert_eq!(seen.timestamp, expected_stamp(now));
}

#[test]
fn stamps_never_step_back() {
    let mut relay = Relay::new();
    let a = relay.on_accept();
    let _b = relay.on_accept();
    let d1 = relay
        .on_frame(a, "{\"user_id\":\"a\",\"content\":\"one\"}", 5_000)
        .unwrap();
    let d2 = relay
        .on_frame(a, "{\"user_id\":\"a\",\"content\":\"two\"}", 3_000)
        .unwrap();
    let s1 = parse_message(&d1.frame).unwrap();
    let s2 = parse_message(&d2.frame).unwrap();
    assert_eq!(s1.timestamp, expected_stamp(5_000));
    assert_eq!(s2.timestamp, expected_stamp(5_000));
}

#[test]
fn registry_matches_open_sessions() {
    let mut relay = Relay::new();
    let a = relay.on_accept();
    let b = relay.on_accept();
    let c = relay.on_accept();
    assert_eq!(relay.peers_len(), 3);
    relay.on_close(b);
    assert!(relay.is_peer(a));
    assert!(!relay.is_peer(b));
    assert!(relay.is_peer(c));
    assert_eq!(relay.peers_len(), 2);
    relay.on_close(b);
    assert_eq!(relay.peers_len(), 2);
    let d = relay.on_accept();
    assert_ne!(d, b);
    assert!(relay.is_peer(d));
    assert_eq!(relay.peers_len(), 3);
    relay.on_close(a);
    relay.on_close(c);
    relay.on_close(d);
    assert_eq!(relay.peers_len(), 0);
}

#[test]
fn registry_register_overwrites_quietly() {
    let mut registry = Registry::new();
    registry.register(7);
    registry.register(7);
    assert_eq!(registry.len(), 1);
    assert!(registry.contains(7));
    registry.deregister(7);
    assert!(!registry.contains(7));
    registry.deregister(7);
    assert_eq!(registry.len(), 0);
}

#[test]
fn malformed_frame_is_not_fatal() {
    let mut relay = Relay::new();
    let a = relay.on_accept();
    let b = relay.on_accept();
    let now: i64 = 42_000;
    assert!(relay.on_frame(a, "not json at all", now).is_none());
    assert!(relay.on_frame(a, "{\"user_id\":\"a\"}", now).is_none());
    assert!(relay.is_peer(a));
    assert!(relay.is_peer(b));
    let from_same = relay
        .on_frame(a, "{\"user_id\":\"a\",\"content\":\"still here\"}", now)
        .unwrap();
    assert_eq!(from_same.recipients, vec![b]);
    let from_other = relay
        .on_frame(b, "{\"user_id\":\"b\",\"content\":\"me too\"}", now)
        .unwrap();
    assert_eq!(from_other.recipients, vec![a]);
}

#[test]
fn disconnect_does_not_stall_remaining_peers() {
    let mut relay = Relay::new();
    let a = relay.on_accept();
    let b = relay.on_accept();
    let c = relay.on_accept();
    let now: i64 = 1_000;
    relay.on_close(b);
    let delivery = relay
        .on_frame(a, "{\"user_id\":\"a\",\"content\":\"go on\"}", now)
        .unwrap();
    assert_eq!(delivery.recipients, vec![c]);
    let seen = parse_message(&delivery.frame).unwrap();
    assert_eq!(seen.content, "go on");
}

#[test]
fn bind_failure_terminates_relay() {
    let failed = RelayStatus::after_bind(false);
    assert!(!failed.can_accept());
    let bound = RelayStatus::after_bind(true);
    assert!(bound.can_accept());
}

#[test]
fn handle_frame_uses_real_clock() {
    let mut relay = Relay::new();
    let a = relay.on_accept();
    let _b = relay.on_accept();
    let before = Utc::now().timestamp_millis();
    let delivery = relay
        .handle_frame(a, "{\"user_id\":\"a\",\"content\":\"hi\"}")
        .unwrap();
    let after = Utc::now().timestamp_millis();
    let seen = parse_message(&delivery.frame).unwrap();
    let stamped = DateTime::parse_from_rfc3339(&seen.timestamp)
        .unwrap()
        .timestamp_millis();
    assert!(before <= stamped && stamped <= after);
}

#[test]
fn composed_frame_carries_client_stamp() {
    let now: i64 = 1_700_000_000_000;
    let frame = compose_frame(&"me".to_string(), &"hello".to_string(), now);
    let m = parse_message(&frame).unwrap();
    assert_eq!(m.user_id, "me");
    assert_eq!(m.content, "hello");
    assert_eq!(m.timestamp, expected_stamp(now));
}
