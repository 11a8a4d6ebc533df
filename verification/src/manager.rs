//! The connection manager: a registry of live sessions keyed by connection
//! key, together with the event intake queue the consumer drains.
//!
//! The registry maps each key to at most one session; connecting under a key
//! replaces any session already there, and disconnecting an unknown key is a
//! no-op. Commands against a key (publish, subscription sync) are dispatched
//! to the matching session and silently ignored when the key is absent, so a
//! race between a consumer command and an asynchronous disconnect never
//! fails the manager.

use vstd::prelude::*;
use std::collections::HashMap;
use crate::config::MqttServer;
use crate::config;
use crate::events::{EventQueue, MqttServerManagerEvent};
use crate::reconcile::topic_set;
use crate::session::{Server, SubscriptionOperationError};

verus! {

broadcast use vstd::std_specs::hash::group_hash_axioms;

/// The connection manager: live sessions and the event intake queue.
pub struct MqttServerManager {
    servers: HashMap<u32, Server>,
    queue: EventQueue,
}

impl MqttServerManager {
    /// The registered sessions, as a map from connection key to session.
    pub closed spec fn spec_sessions(&self) -> Map<u32, Server> {
        self.servers@
    }

    /// The set of keys with a registered session.
    pub open spec fn spec_keys(&self) -> Set<u32> {
        self.spec_sessions().dom()
    }

    /// The buffered events, in arrival order.
    pub closed spec fn spec_queue(&self) -> Seq<MqttServerManagerEvent> {
        self.queue@
    }

    /// Every registered session tracks a duplicate-free subscription list.
    pub closed spec fn wf(&self) -> bool {
        forall|k: u32|
            self.servers@.dom().contains(k) ==> (#[trigger] self.servers@[k]).wf()
    }

    /// An empty manager: no sessions, no buffered events.
    pub fn new() -> (r: MqttServerManager)
        ensures
            r.wf(),
            r.spec_sessions() == Map::<u32, Server>::empty(),
            r.spec_queue() == Seq::<MqttServerManagerEvent>::empty(),
    {
        MqttServerManager { servers: HashMap::new(), queue: EventQueue::new() }
    }

    /// The registered sessions, for observation.
    pub fn servers(&self) -> (r: &HashMap<u32, Server>)
        ensures
            r@ == self.spec_sessions(),
    {
        &self.servers
    }

    /// The registered sessions, for direct mutation. A caller that keeps
    /// every session well formed keeps the manager well formed.
    pub fn servers_mut(&mut self) -> (r: &mut HashMap<u32, Server>)
        ensures
            r@ == old(self).spec_sessions(),
            final(self).spec_sessions() == final(r)@,
            final(self).spec_queue() == old(self).spec_queue(),
            (forall|k: u32|
                final(r)@.dom().contains(k) ==> (#[trigger] final(r)@[k]).wf())
                ==> final(self).wf(),
    {
        &mut self.servers
    }

    /// Whether a session is registered under `id`.
    pub fn is_connected(&self, id: u32) -> (r: bool)
        ensures
            r == self.spec_keys().contains(id),
    {
        self.servers.contains_key(&id)
    }

    /// Whether any session is registered.
    pub fn is_connected_any(&self) -> (r: bool)
        ensures
            r == (self.spec_sessions().dom().len() != 0),
    {
        !self.servers.is_empty()
    }

    /// Accept one inbound event from a session's receive loop into the
    /// intake queue. This is the single intake point every producer feeds.
    pub fn push_event(&mut self, e: MqttServerManagerEvent)
        ensures
            final(self).spec_queue() == old(self).spec_queue().push(e),
            final(self).spec_sessions() == old(self).spec_sessions(),
            old(self).wf() ==> final(self).wf(),
    {
        self.queue.push(e);
    }

    /// Drain the intake queue: everything buffered since the last call, in
    /// arrival order; the queue is consumed, not peeked, so a second call
    /// with no new arrivals returns nothing.
    pub fn pull_events(&mut self) -> (r: Vec<MqttServerManagerEvent>)
        ensures
            r@ == old(self).spec_queue(),
            final(self).spec_queue() == Seq::<MqttServerManagerEvent>::empty(),
            final(self).spec_sessions() == old(self).spec_sessions(),
            old(self).wf() ==> final(self).wf(),
    {
        self.queue.drain()
    }

    /// Connect a session under `id` to the host and port `server` denotes,
    /// register it, and hand back the blocking event stream on which the
    /// caller runs the session's receive loop. A session already registered
    /// under `id` is replaced.
    pub fn connect(&mut self, id: u32, server: &MqttServer) -> (r: rumqttc::Connection)
        requires
            old(self).wf(),
        ensures
            final(self).wf(),
            final(self).spec_queue() == old(self).spec_queue(),
            final(self).spec_keys() == old(self).spec_keys().insert(id),
            final(self).spec_sessions().contains_key(id),
            forall|k: u32|
                k != id && old(self).spec_sessions().contains_key(k)
                    ==> final(self).spec_sessions().contains_key(k)
                    && final(self).spec_sessions()[k] == old(self).spec_sessions()[k],
            final(self).spec_sessions()[id].wf(),
            final(self).spec_sessions()[id].spec_id() == id,
            final(self).spec_sessions()[id].spec_host() == config::spec_host(*server),
            final(self).spec_sessions()[id].spec_port() as int == config::spec_port(*server),
            final(self).spec_sessions()[id].subs_set() == Set::<Seq<char>>::empty(),
    {
        let port: u16 = server.port();
        let host: String = server.host();
        let (session, connection) = Server::connect(host, port, id);
        self.servers.insert(id, session);
        proof {
            assert(final(self).spec_keys() =~= old(self).spec_keys().insert(id));
        }
        connection
    }

    /// Remove the session under `id` from the registry and request a
    /// graceful disconnect from its broker. Disconnecting a key that is not
    /// registered is a no-op, not an error.
    pub fn disconnect(&mut self, id: u32)
        ensures
            final(self).spec_sessions() == old(self).spec_sessions().remove(id),
            !final(self).spec_keys().contains(id),
            !old(self).spec_keys().contains(id)
                ==> final(self).spec_sessions() == old(self).spec_sessions(),
            final(self).spec_queue() == old(self).spec_queue(),
            old(self).wf() ==> final(self).wf(),
    {
        match self.servers.remove(&id) {
            Some(session) => {
                let _ = session.disconnect();
            },
            None => {
                proof {
                    assert(old(self).spec_sessions().remove(id) =~= old(self).spec_sessions());
                }
            },
        }
    }

    /// Remove and disconnect every session: full teardown.
    pub fn disconnect_all(&mut self)
        ensures
            final(self).spec_sessions() == Map::<u32, Server>::empty(),
            final(self).spec_queue() == old(self).spec_queue(),
            final(self).wf(),
    {
        for session in it: self.servers.values() {
            let _ = session.disconnect();
        }
        self.servers.clear();
    }

    /// Look up the session under `id` and forward one publish to its
    /// broker; silently ignored when no session is registered under `id`.
    /// Returns whether a session was found to dispatch to.
    pub fn dispatch_publish(&self, id: u32, topic: String, payload: Vec<u8>) -> (r: bool)
        ensures
            r == self.spec_keys().contains(id),
    {
        match self.servers.get(&id) {
            Some(session) => {
                let _ = session.publish(topic, payload);
                true
            },
            None => false,
        }
    }

    /// Look up the session under `id` and reconcile its tracked
    /// subscription set against `desired`, issuing the minimal subscribe
    /// and unsubscribe requests; silently ignored when no session is
    /// registered under `id`.
    ///
    /// Returns `None` when the key is absent, and otherwise the outcome of
    /// the synchronisation, which succeeds exactly when the session's
    /// tracked set ends up equal to the desired one. When the two already
    /// agree no request at all is issued.
    pub fn dispatch_subscription_sync(&mut self, id: u32, desired: &Vec<String>) -> (r: Option<
        Result<(), SubscriptionOperationError>,
    >)
        requires
            old(self).wf(),
        ensures
            final(self).wf(),
            final(self).spec_queue() == old(self).spec_queue(),
            r is None <==> !old(self).spec_keys().contains(id),
            r is None ==> final(self).spec_sessions() == old(self).spec_sessions(),
            r is Some ==> {
                let s_old = old(self).spec_sessions()[id];
                let s_new = final(self).spec_sessions()[id];
                &&& final(self).spec_keys() == old(self).spec_keys()
                &&& forall|k: u32|
                    k != id && old(self).spec_sessions().contains_key(k)
                        ==> final(self).spec_sessions()[k] == old(self).spec_sessions()[k]
                &&& final(self).spec_sessions().contains_key(id)
                &&& s_new.spec_id() == s_old.spec_id()
                &&& s_new.spec_host() == s_old.spec_host()
                &&& s_new.spec_port() == s_old.spec_port()
                &&& forall|t: Seq<char>|
                    s_old.subs_set().contains(t) && topic_set(desired@).contains(t)
                        ==> s_new.subs_set().contains(t)
                &&& forall|t: Seq<char>|
                    s_new.subs_set().contains(t) ==> s_old.subs_set().contains(t) || topic_set(
                        desired@,
                    ).contains(t)
                &&& (r == Some(Ok::<(), SubscriptionOperationError>(())) <==> s_new.subs_set()
                    == topic_set(desired@))
                &&& s_old.subs_set() == topic_set(desired@) ==> s_new.subs_list()
                    == s_old.subs_list()
            },
    {
        match self.servers.remove(&id) {
            Some(mut session) => {
                let outcome = session.sync_subs(desired);
                self.servers.insert(id, session);
                proof {
                    assert(final(self).spec_keys() =~= old(self).spec_keys());
                    match outcome {
                        Ok(u) => {
                            assert(outcome == Ok::<(), SubscriptionOperationError>(u));
                        },
                        Err(_) => {
                            assert(outcome != Ok::<(), SubscriptionOperationError>(()));
                        },
                    }
                }
                Some(outcome)
            },
            None => {
                proof {
                    assert(old(self).spec_sessions().remove(id) =~= old(self).spec_sessions());
                }
                None
            },
        }
    }
}

/// One registry lifecycle operation, for stating how the set of connected
/// keys evolves.
pub enum RegistryOp {
    /// `connect` under the key.
    Connect(u32),
    /// `disconnect` of the key.
    Disconnect(u32),
}

/// The set of connected keys after applying `ops` in order to a registry
/// whose keys are `start`: exactly how [`MqttServerManager::connect`] and
/// [`MqttServerManager::disconnect`] evolve [`MqttServerManager::spec_keys`].
pub open spec fn keys_after(start: Set<u32>, ops: Seq<RegistryOp>) -> Set<u32>
    decreases ops.len(),
{
    if ops.len() == 0 {
        start
    } else {
        let prev = keys_after(start, ops.drop_last());
        match ops.last() {
            RegistryOp::Connect(k) => prev.insert(k),
            RegistryOp::Disconnect(k) => prev.remove(k),
        }
    }
}

/// Law: under any sequence of connect/disconnect operations the registry
/// holds at most one session per key — a second connect under the same key
/// replaces the first rather than adding one — and right after a disconnect
/// of `k` the key `k` is not connected.
pub proof fn lemma_registry_keys(start: Set<u32>, ops: Seq<RegistryOp>, k: u32)
    ensures
        keys_after(start, ops.push(RegistryOp::Connect(k)).push(RegistryOp::Connect(k)))
            == keys_after(start, ops.push(RegistryOp::Connect(k))),
        !keys_after(start, ops.push(RegistryOp::Disconnect(k))).contains(k),
        keys_after(start, ops.push(RegistryOp::Connect(k))).contains(k),
{
    let once = ops.push(RegistryOp::Connect(k));
    let twice = once.push(RegistryOp::Connect(k));
    assert(twice.drop_last() =~= once);
    assert(ops.push(RegistryOp::Disconnect(k)).drop_last() =~= ops);
    assert(once.drop_last() =~= ops);
    assert(keys_after(start, twice) =~= keys_after(start, once));
}

} // verus!
