//! The trusted boundary to the broker connection capability.
//!
//! The wire protocol itself is the `rumqttc` client: opening a connection
//! yields a request handle and a blocking event stream, and every
//! publish/subscribe/unsubscribe/disconnect request goes through the handle.
//! Each function here wraps exactly one `rumqttc` call; its contract states
//! what that crate's source shows. A request call can wait while the
//! connection's request queue is full, as the underlying client does.

use vstd::prelude::*;

verus! {

#[verifier::external_type_specification]
#[verifier::external_body]
pub struct ExMqttOptions(rumqttc::MqttOptions);

#[verifier::external_type_specification]
#[verifier::external_body]
pub struct ExClient(rumqttc::Client);

#[verifier::external_type_specification]
#[verifier::external_body]
pub struct ExConnection(rumqttc::Connection);

#[verifier::external_type_specification]
#[verifier::external_body]
pub struct ExClientError(rumqttc::ClientError);

/// The protocol's delivery-guarantee level, forwarded opaquely to the
/// broker connection.
pub enum Qos {
    AtMostOnce,
    AtLeastOnce,
    ExactlyOnce,
}

/// A topic (for publishing) is valid when it holds no wildcard character.
/// This is the check the broker client applies before sending a publish.
pub open spec fn spec_valid_topic(t: Seq<char>) -> bool {
    forall|i: int| 0 <= i < t.len() ==> #[trigger] t[i] != '+' && t[i] != '#'
}

/// A topic filter (for subscribing) is valid when it is not empty, any `#`
/// is the final character and occupies a whole level, and any `+` occupies a
/// whole level. This is the check the broker client applies before sending
/// a subscribe.
pub open spec fn spec_valid_filter(f: Seq<char>) -> bool {
    &&& f.len() > 0
    &&& forall|i: int|
        0 <= i < f.len() && #[trigger] f[i] == '#' ==> i == f.len() - 1 && (i == 0 || f[i - 1]
            == '/')
    &&& forall|i: int|
        0 <= i < f.len() && #[trigger] f[i] == '+' ==> (i == 0 || f[i - 1] == '/') && (i == f.len()
            - 1 || f[i + 1] == '/')
}

/// Relies on `rumqttc::MqttOptions::new`: builds the connection options for
/// the given host and port under the client identity `oldqtt_<id>`; it only
/// records its arguments.
#[verifier::external_body]
pub(crate) fn mqtt_options(id: u32, host: &String, port: u16) -> rumqttc::MqttOptions {
    rumqttc::MqttOptions::new(format!("oldqtt_{}", id), host.clone(), port)
}

/// Relies on `rumqttc::Client::new`: yields the request handle and the
/// blocking event stream of a broker connection that the options describe,
/// with a request queue of the given capacity. No traffic happens until the
/// stream is iterated.
#[verifier::external_body]
pub(crate) fn client_new(options: rumqttc::MqttOptions, cap: usize) -> (rumqttc::Client, rumqttc::Connection) {
    rumqttc::Client::new(options, cap)
}

/// Relies on `rumqttc::Client::subscribe`: an invalid topic filter is
/// rejected without being sent; otherwise the request is queued for the
/// event loop, which fails only when the connection side is gone.
#[verifier::external_body]
pub(crate) fn client_subscribe(client: &rumqttc::Client, topic: String, qos: Qos) -> (r: Result<
    (),
    rumqttc::ClientError,
>)
    ensures
        !spec_valid_filter(topic@) ==> r is Err,
{
    let q = match qos {
        Qos::AtMostOnce => rumqttc::QoS::AtMostOnce,
        Qos::AtLeastOnce => rumqttc::QoS::AtLeastOnce,
        Qos::ExactlyOnce => rumqttc::QoS::ExactlyOnce,
    };
    client.subscribe(topic, q)
}

/// Relies on `rumqttc::Client::unsubscribe`: the request is queued for the
/// event loop, which fails only when the connection side is gone.
#[verifier::external_body]
pub(crate) fn client_unsubscribe(client: &rumqttc::Client, topic: String) -> (r: Result<
    (),
    rumqttc::ClientError,
>) {
    client.unsubscribe(topic)
}

/// Relies on `rumqttc::Client::publish`: a topic with a wildcard is rejected
/// without being sent; otherwise the request is queued for the event loop,
/// which fails only when the connection side is gone.
#[verifier::external_body]
pub(crate) fn client_publish(
    client: &rumqttc::Client,
    topic: String,
    qos: Qos,
    retain: bool,
    payload: Vec<u8>,
) -> (r: Result<(), rumqttc::ClientError>)
    ensures
        !spec_valid_topic(topic@) ==> r is Err,
{
    let q = match qos {
        Qos::AtMostOnce => rumqttc::QoS::AtMostOnce,
        Qos::AtLeastOnce => rumqttc::QoS::AtLeastOnce,
        Qos::ExactlyOnce => rumqttc::QoS::ExactlyOnce,
    };
    client.publish(topic, q, retain, payload)
}

/// Relies on `rumqttc::Client::disconnect`: queues the graceful disconnect
/// request for the event loop, which fails only when the connection side is
/// already gone.
#[verifier::external_body]
pub(crate) fn client_disconnect(client: &rumqttc::Client) -> (r: Result<(), rumqttc::ClientError>) {
    client.disconnect()
}

} // verus!
