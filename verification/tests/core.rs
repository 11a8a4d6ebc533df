use std::collections::VecDeque;

use mqtt_servermanager::config::{parse_port, u16_dec_string, MqttServer, DEFAULT_PORT};
use mqtt_servermanager::events::{EventQueue, MqttServerManagerEvent};
use mqtt_servermanager::reconcile::{contains_topic, reconcile};
use mqtt_servermanager::rxloop::{receive_step, LoopState, ProtocolEvent};

fn topics(ts: &[&str]) -> Vec<String> {
    ts.iter().map(|t| t.to_string()).collect()
}

fn sorted(mut ts: Vec<String>) -> Vec<String> {
    ts.sort();
    ts
}

fn event(client: u32, topic: &str, payload: &[u8]) -> MqttServerManagerEvent {
    MqttServerManagerEvent {
        client,
        topic: topic.to_string(),
        payload: payload.to_vec(),
    }
}

fn config(host: &str, port: &str) -> MqttServer {
    MqttServer {
        name: String::new(),
        host: host.to_string(),
        port: port.to_string(),
        subscriptions: Vec::new(),
        messages: VecDeque::new(),
        max_messages: 100,
    }
}

#[test]
fn reconcile_from_empty_to_two_topics() {
    let current: Vec<String> = Vec::new();
    let desired = topics(&["a/b", "c/#"]);
    let (to_sub, to_unsub) = reconcile(&current, &desired);
    assert_eq!(sorted(to_sub), topics(&["a/b", "c/#"]));
    assert!(to_unsub.is_empty());
}

#[test]
fn reconcile_drops_no_longer_desired_topic() {
    let current = topics(&["a/b", "c/#"]);
    let desired = topics(&["a/b"]);
    let (to_sub, to_unsub) = reconcile(&current, &desired);
    assert!(to_sub.is_empty());
    assert_eq!(to_unsub, topics(&["c/#"]));
}

#[test]
fn reconcile_of_equal_sets_is_empty() {
    let current = topics(&["x", "y/z"]);
    let desired = topics(&["y/z", "x"]);
    let (to_sub, to_unsub) = reconcile(&current, &desired);
    assert!(to_sub.is_empty());
    assert!(to_unsub.is_empty());
}

#[test]
fn reconcile_deduplicates_desired_topics() {
    let current: Vec<String> = Vec::new();
    let desired = topics(&["a", "a", "b"]);
    let (to_sub, to_unsub) = reconcile(&current, &desired);
    assert_eq!(sorted(to_sub), topics(&["a", "b"]));
    assert!(to_unsub.is_empty());
}

#[test]
fn contains_topic_finds_only_present_topics() {
    let ts = topics(&["a", "b/c"]);
    assert!(contains_topic(&ts, &"a".to_string()));
    assert!(contains_topic(&ts, &"b/c".to_string()));
    assert!(!contains_topic(&ts, &"b".to_string()));
}

#[test]
fn queue_drains_in_push_order() {
    let mut q = EventQueue::new();
    q.push(event(1, "t/1", b"one"));
    q.push(event(1, "t/2", b"two"));
    q.push(event(1, "t/3", b"three"));
    assert_eq!(q.len(), 3);
    let drained = q.drain();
    let tops: Vec<&str> = drained.iter().map(|e| e.topic.as_str()).collect();
    assert_eq!(tops, vec!["t/1", "t/2", "t/3"]);
}

#[test]
fn queue_is_consumed_not_peeked() {
    let mut q = EventQueue::new();
    q.push(event(7, "a", b"x"));
    let first = q.drain();
    assert_eq!(first.len(), 1);
    let second = q.drain();
    assert!(second.is_empty());
    assert_eq!(q.len(), 0);
}

#[test]
fn interleaved_producers_keep_their_own_order() {
    let mut q = EventQueue::new();
    q.push(event(1, "a/1", b""));
    q.push(event(2, "b/1", b""));
    q.push(event(1, "a/2", b""));
    q.push(event(2, "b/2", b""));
    q.push(event(1, "a/3", b""));
    let drained = q.drain();
    let of_1: Vec<&str> = drained
        .iter()
        .filter(|e| e.client == 1)
        .map(|e| e.topic.as_str())
        .collect();
    let of_2: Vec<&str> = drained
        .iter()
        .filter(|e| e.client == 2)
        .map(|e| e.topic.as_str())
        .collect();
    assert_eq!(of_1, vec!["a/1", "a/2", "a/3"]);
    assert_eq!(of_2, vec!["b/1", "b/2"]);
}

#[test]
fn receive_step_terminates_only_on_outgoing_disconnect() {
    let (s, fwd) = receive_step(LoopState::Running, 5, ProtocolEvent::OutgoingDisconnect);
    assert_eq!(s, LoopState::Terminated);
    assert!(fwd.is_none());

    let (s, fwd) = receive_step(LoopState::Running, 5, ProtocolEvent::TransportError);
    assert_eq!(s, LoopState::Running);
    assert!(fwd.is_none());

    let (s, fwd) = receive_step(LoopState::Running, 5, ProtocolEvent::OtherPacket);
    assert_eq!(s, LoopState::Running);
    assert!(fwd.is_none());

    let (s, fwd) = receive_step(LoopState::Running, 5, ProtocolEvent::StreamEnd);
    assert_eq!(s, LoopState::Running);
    assert!(fwd.is_none());
}

#[test]
fn receive_step_forwards_publishes_with_the_session_key() {
    let ev = ProtocolEvent::IncomingPublish {
        topic: "sensors/one".to_string(),
        payload: b"21.5".to_vec(),
    };
    let (s, fwd) = receive_step(LoopState::Running, 9, ev);
    assert_eq!(s, LoopState::Running);
    let e = fwd.expect("publish must be forwarded");
    assert_eq!(e.client, 9);
    assert_eq!(e.topic, "sensors/one");
    assert_eq!(e.payload, b"21.5".to_vec());
}

#[test]
fn receive_step_is_inert_once_terminated() {
    let ev = ProtocolEvent::IncomingPublish {
        topic: "t".to_string(),
        payload: Vec::new(),
    };
    let (s, fwd) = receive_step(LoopState::Terminated, 1, ev);
    assert_eq!(s, LoopState::Terminated);
    assert!(fwd.is_none());
}

#[test]
fn parse_port_accepts_plain_and_signed_decimals() {
    assert_eq!(parse_port("1883"), Some(1883));
    assert_eq!(parse_port("+99"), Some(99));
    assert_eq!(parse_port("0"), Some(0));
    assert_eq!(parse_port("007"), Some(7));
    assert_eq!(parse_port("65535"), Some(65535));
}

#[test]
fn parse_port_rejects_non_ports() {
    assert_eq!(parse_port(""), None);
    assert_eq!(parse_port("+"), None);
    assert_eq!(parse_port("65536"), None);
    assert_eq!(parse_port("12a"), None);
    assert_eq!(parse_port("-1"), None);
    assert_eq!(parse_port("1 2"), None);
}

#[test]
fn u16_dec_string_prints_decimals() {
    assert_eq!(u16_dec_string(0), "0");
    assert_eq!(u16_dec_string(7), "7");
    assert_eq!(u16_dec_string(1883), "1883");
    assert_eq!(u16_dec_string(65535), "65535");
}

#[test]
fn config_port_falls_back_to_default() {
    assert_eq!(config("h", "8080").port(), 8080);
    assert_eq!(config("h", "").port(), DEFAULT_PORT);
    assert_eq!(config("h", "not a port").port(), DEFAULT_PORT);
    assert_eq!(config("h", "70000").port(), DEFAULT_PORT);
}

#[test]
fn config_host_falls_back_to_loopback() {
    assert_eq!(config("10.0.0.5", "1883").host(), "10.0.0.5");
    assert_eq!(config("", "1883").host(), "127.0.0.1");
}

#[test]
fn config_name_is_alias_or_host_and_port() {
    let mut c = config("10.0.0.5", "1883");
    assert_eq!(c.name(), "10.0.0.5:1883");
    c.name = "bench".to_string();
    assert_eq!(c.name(), "bench");
    let d = config("", "");
    assert_eq!(d.name(), "127.0.0.1:1883");
}

#[test]
fn config_new_is_empty() {
    let c = MqttServer::new();
    assert_eq!(c.name, "");
    assert_eq!(c.host, "");
    assert_eq!(c.port, "");
    assert!(c.subscriptions.is_empty());
    assert!(c.messages.is_empty());
    assert_eq!(c.max_messages, 0);
}

#[test]
fn subscriptions_can_be_added_and_removed() {
    let mut c = config("h", "1883");
    c.add_subscription("a/b".to_string());
    c.add_subscription("c/#".to_string());
    c.add_subscription("a/b".to_string());
    assert_eq!(c.subscriptions, topics(&["a/b", "c/#", "a/b"]));
    c.remove_subscriptions(&topics(&["a/b"]));
    assert_eq!(c.subscriptions, topics(&["c/#"]));
    c.remove_subscriptions(&topics(&["missing"]));
    assert_eq!(c.subscriptions, topics(&["c/#"]));
}
