use std::collections::VecDeque;

use mqtt_servermanager::config::MqttServer;
use mqtt_servermanager::events::MqttServerManagerEvent;
use mqtt_servermanager::manager::MqttServerManager;
use mqtt_servermanager::session::Server;
use mqtt_servermanager::store::MqttServers;

fn topics(ts: &[&str]) -> Vec<String> {
    ts.iter().map(|t| t.to_string()).collect()
}

fn sorted(ts: &Vec<String>) -> Vec<String> {
    let mut s = ts.clone();
    s.sort();
    s
}

fn event(client: u32, topic: &str, payload: &[u8]) -> MqttServerManagerEvent {
    MqttServerManagerEvent {
        client,
        topic: topic.to_string(),
        payload: payload.to_vec(),
    }
}

fn config(host: &str, port: &str) -> MqttServer {
    MqttServer {
        name: String::new(),
        host: host.to_string(),
        port: port.to_string(),
        subscriptions: Vec::new(),
        messages: VecDeque::new(),
        max_messages: 100,
    }
}

#[test]
fn connect_registers_and_disconnect_unregisters() {
    let mut mgr = MqttServerManager::new();
    let cfg = config("10.0.0.5", "1883");
    assert!(!mgr.is_connected(42));
    let _stream = mgr.connect(42, &cfg);
    assert!(mgr.is_connected(42));
    assert!(mgr.is_connected_any());
    mgr.disconnect(42);
    assert!(!mgr.is_connected(42));
    assert!(!mgr.is_connected_any());
}

#[test]
fn connect_under_same_key_keeps_one_session() {
    let mut mgr = MqttServerManager::new();
    let cfg = config("10.0.0.5", "1883");
    let _s1 = mgr.connect(7, &cfg);
    let _s2 = mgr.connect(7, &cfg);
    assert!(mgr.is_connected(7));
    assert_eq!(mgr.servers().len(), 1);
    mgr.disconnect(7);
    assert!(!mgr.is_connected(7));
    assert_eq!(mgr.servers().len(), 0);
}

#[test]
fn disconnect_of_unknown_key_is_a_no_op() {
    let mut mgr = MqttServerManager::new();
    let cfg = config("10.0.0.5", "1883");
    let _stream = mgr.connect(1, &cfg);
    mgr.disconnect(999);
    assert!(mgr.is_connected(1));
    assert_eq!(mgr.servers().len(), 1);
    assert!(mgr.pull_events().is_empty());
}

#[test]
fn disconnect_all_tears_everything_down() {
    let mut mgr = MqttServerManager::new();
    let cfg = config("10.0.0.5", "1883");
    let _s1 = mgr.connect(1, &cfg);
    let _s2 = mgr.connect(2, &cfg);
    let _s3 = mgr.connect(3, &cfg);
    assert!(mgr.is_connected_any());
    mgr.disconnect_all();
    assert!(!mgr.is_connected_any());
    assert_eq!(mgr.servers().len(), 0);
}

#[test]
fn pull_events_returns_pushed_events_once() {
    let mut mgr = MqttServerManager::new();
    mgr.push_event(event(1, "a/1", b"x"));
    mgr.push_event(event(2, "b/1", b"y"));
    mgr.push_event(event(1, "a/2", b"z"));
    let drained = mgr.pull_events();
    let tops: Vec<&str> = drained.iter().map(|e| e.topic.as_str()).collect();
    assert_eq!(tops, vec!["a/1", "b/1", "a/2"]);
    assert!(mgr.pull_events().is_empty());
}

#[test]
fn two_sessions_interleave_but_keep_their_order() {
    let mut mgr = MqttServerManager::new();
    mgr.push_event(event(1, "a/1", b""));
    mgr.push_event(event(2, "b/1", b""));
    mgr.push_event(event(2, "b/2", b""));
    mgr.push_event(event(1, "a/2", b""));
    let drained = mgr.pull_events();
    assert_eq!(drained.len(), 4);
    let of_1: Vec<&str> = drained
        .iter()
        .filter(|e| e.client == 1)
        .map(|e| e.topic.as_str())
        .collect();
    let of_2: Vec<&str> = drained
        .iter()
        .filter(|e| e.client == 2)
        .map(|e| e.topic.as_str())
        .collect();
    assert_eq!(of_1, vec!["a/1", "a/2"]);
    assert_eq!(of_2, vec!["b/1", "b/2"]);
}

#[test]
fn dispatch_publish_reports_whether_a_session_was_found() {
    let mut mgr = MqttServerManager::new();
    let cfg = config("10.0.0.5", "1883");
    let _stream = mgr.connect(5, &cfg);
    assert!(mgr.dispatch_publish(5, "t".to_string(), b"p".to_vec()));
    assert!(!mgr.dispatch_publish(6, "t".to_string(), b"p".to_vec()));
}

#[test]
fn dispatch_subscription_sync_updates_the_tracked_set() {
    let mut mgr = MqttServerManager::new();
    let cfg = config("10.0.0.5", "1883");
    let _stream = mgr.connect(5, &cfg);
    let desired = topics(&["a/b", "c/#"]);
    let outcome = mgr.dispatch_subscription_sync(5, &desired);
    assert!(matches!(outcome, Some(Ok(()))));
    let session = mgr.servers().get(&5).expect("session registered");
    assert_eq!(sorted(session.current_subscriptions()), topics(&["a/b", "c/#"]));
    assert!(mgr.dispatch_subscription_sync(999, &desired).is_none());
}

#[test]
fn second_sync_with_same_set_changes_nothing() {
    let mut mgr = MqttServerManager::new();
    let cfg = config("10.0.0.5", "1883");
    let _stream = mgr.connect(5, &cfg);
    let desired = topics(&["a/b", "c/#"]);
    assert!(matches!(mgr.dispatch_subscription_sync(5, &desired), Some(Ok(()))));
    let before = mgr.servers().get(&5).unwrap().current_subscriptions().clone();
    assert!(matches!(mgr.dispatch_subscription_sync(5, &desired), Some(Ok(()))));
    let after = mgr.servers().get(&5).unwrap().current_subscriptions().clone();
    assert_eq!(before, after);
}

#[test]
fn sync_subs_applies_the_difference_both_ways() {
    let (mut session, _stream) = Server::connect("10.0.0.5".to_string(), 1883, 3);
    assert!(session.sync_subs(&topics(&["a/b", "c/#"])).is_ok());
    assert_eq!(sorted(session.current_subscriptions()), topics(&["a/b", "c/#"]));
    assert!(session.sync_subs(&topics(&["a/b"])).is_ok());
    assert_eq!(sorted(session.current_subscriptions()), topics(&["a/b"]));
}

#[test]
fn failed_subscribe_leaves_the_topic_untracked() {
    let (mut session, _stream) = Server::connect("10.0.0.5".to_string(), 1883, 3);
    // An empty topic filter is invalid: the broker client rejects it, so it
    // must stay untracked while the valid topic goes through.
    let outcome = session.sync_subs(&topics(&["", "ok/topic"]));
    assert!(outcome.is_err());
    assert_eq!(sorted(session.current_subscriptions()), topics(&["ok/topic"]));
    // The next synchronisation retries exactly the topic that failed.
    let outcome = session.sync_subs(&topics(&["", "ok/topic"]));
    assert!(outcome.is_err());
    assert_eq!(sorted(session.current_subscriptions()), topics(&["ok/topic"]));
}

#[test]
fn sync_against_closed_connection_keeps_state_consistent() {
    let (mut session, stream) = Server::connect("10.0.0.5".to_string(), 1883, 3);
    drop(stream);
    // With the connection side gone every request fails, so nothing is
    // tracked and the outcome reports the failure.
    let outcome = session.sync_subs(&topics(&["a/b"]));
    assert!(outcome.is_err());
    assert!(session.current_subscriptions().is_empty());
}

#[test]
fn invalid_filters_are_rejected_and_valid_ones_accepted() {
    // Invalid filters: the broker client refuses them, so they stay
    // untracked and the sync reports a failure.
    for bad in ["", "a/b#", "sport+", "a/#/b", "tennis#"] {
        let (mut session, _stream) = Server::connect("10.0.0.5".to_string(), 1883, 4);
        let outcome = session.sync_subs(&topics(&[bad]));
        assert!(outcome.is_err(), "filter {bad:?} must be rejected");
        assert!(session.current_subscriptions().is_empty());
    }
    // Valid filters: the requests are queued, so they become tracked.
    let (mut session, _stream) = Server::connect("10.0.0.5".to_string(), 1883, 4);
    let valid = topics(&["#", "+", "a/+/b", "a/#", "+/tennis/#", "a/", "/", "a//b"]);
    let outcome = session.sync_subs(&valid);
    assert!(outcome.is_ok());
    assert_eq!(sorted(session.current_subscriptions()), sorted(&valid));
}

#[test]
fn publish_rejects_wildcard_topics() {
    let (session, _stream) = Server::connect("10.0.0.5".to_string(), 1883, 3);
    assert!(session.publish("a/+".to_string(), b"p".to_vec()).is_err());
    assert!(session.publish("a/#".to_string(), b"p".to_vec()).is_err());
    assert!(session.publish("a/b".to_string(), b"p".to_vec()).is_ok());
}

#[test]
fn store_allocates_fresh_keys() {
    let mut store = MqttServers::new();
    let a = store.add_server(config("h1", "1"));
    let b = store.add_server(config("h2", "2"));
    assert_ne!(a, b);
    assert_eq!(store.servers().len(), 2);
    assert_eq!(store.get(&a).unwrap().host, "h1");
    assert_eq!(store.get(&b).unwrap().host, "h2");
}

#[test]
fn store_routes_events_into_bounded_buffers() {
    let mut store = MqttServers::new();
    let mut cfg = config("h", "1883");
    cfg.max_messages = 2;
    let id = store.add_server(cfg);
    store.push(event(id, "t/1", b"1"));
    store.push(event(id, "t/2", b"2"));
    store.push(event(id, "t/3", b"3"));
    let kept: Vec<&str> = store
        .get(&id)
        .unwrap()
        .messages
        .iter()
        .map(|e| e.topic.as_str())
        .collect();
    assert_eq!(kept, vec!["t/2", "t/3"]);
    // An event for an unknown key is dropped without effect.
    store.push(event(id.wrapping_add(1), "t/4", b"4"));
    assert_eq!(store.get(&id).unwrap().messages.len(), 2);
}

#[test]
fn store_remove_drops_the_configuration() {
    let mut store = MqttServers::new();
    let id = store.add_server(config("h", "1883"));
    assert!(store.get(&id).is_some());
    store.remove(id);
    assert!(store.get(&id).is_none());
    store.remove(id);
    assert!(store.get(&id).is_none());
}
