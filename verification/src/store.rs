//! The store of configured connections, keyed like the live registry.
//!
//! A configuration gets its key when it is added: a random key that is
//! guaranteed not to be in use, so a key never addresses two
//! configurations. Inbound events are routed to the configuration of the
//! session they came from and kept in its bounded message buffer.

use vstd::prelude::*;
use std::collections::HashMap;
use crate::config::MqttServer;
use crate::events::MqttServerManagerEvent;

verus! {

broadcast use vstd::std_specs::hash::group_hash_axioms;

/// How many random draws are tried before keys are probed in order.
const KEY_DRAW_ATTEMPTS: u32 = 64;

/// Relies on `fastrand::u32`: a pseudo-random key below `u32::MAX`; nothing
/// more is promised of it.
#[verifier::external_body]
fn random_u32() -> (r: u32)
    ensures
        r < u32::MAX,
{
    fastrand::u32(0..u32::MAX)
}

/// A finite set that holds every key below `c` has at least `c` elements.
proof fn lemma_key_range_len(dom: Set<u32>, c: int)
    requires
        dom.finite(),
        0 <= c <= u32::MAX + 1,
        forall|x: u32| x < c ==> dom.contains(x),
    ensures
        dom.len() >= c,
    decreases c,
{
    if c > 0 {
        let prev: u32 = (c - 1) as u32;
        assert(dom.contains(prev));
        lemma_key_range_len(dom.remove(prev), c - 1);
    }
}

/// The message buffer after accepting `e` with at most `max` messages kept:
/// the event goes to the back, and when the buffer has overrun the bound the
/// oldest message is dropped.
pub open spec fn spec_buffered(
    msgs: Seq<MqttServerManagerEvent>,
    e: MqttServerManagerEvent,
    max: int,
) -> Seq<MqttServerManagerEvent> {
    let grown = msgs.push(e);
    if grown.len() > max {
        grown.subrange(1, grown.len() as int)
    } else {
        grown
    }
}

/// The configured connections, keyed by connection key.
pub struct MqttServers {
    servers: HashMap<u32, MqttServer>,
}

impl MqttServers {
    /// The configurations, as a map from connection key to configuration.
    pub closed spec fn spec_servers(&self) -> Map<u32, MqttServer> {
        self.servers@
    }

    /// An empty store.
    pub fn new() -> (r: MqttServers)
        ensures
            r.spec_servers() == Map::<u32, MqttServer>::empty(),
    {
        MqttServers { servers: HashMap::new() }
    }

    /// The configurations, for observation.
    pub fn servers(&self) -> (r: &HashMap<u32, MqttServer>)
        ensures
            r@ == self.spec_servers(),
    {
        &self.servers
    }

    /// Add a configuration under a fresh random key and return the key.
    /// The key is guaranteed not to be in use, so no configuration is ever
    /// displaced; random draws that collide are retried, and if every draw
    /// collides the free key with the smallest value is taken.
    pub fn add_server(&mut self, server: MqttServer) -> (id: u32)
        requires
            old(self).spec_servers().dom().len() < u32::MAX,
        ensures
            !old(self).spec_servers().contains_key(id),
            final(self).spec_servers() == old(self).spec_servers().insert(id, server),
    {
        let mut attempt: u32 = 0;
        while attempt < KEY_DRAW_ATTEMPTS
            invariant
                self == old(self),
            decreases KEY_DRAW_ATTEMPTS - attempt,
        {
            let id = random_u32();
            if !self.servers.contains_key(&id) {
                self.servers.insert(id, server);
                return id;
            }
            attempt = attempt + 1;
        }
        let mut id: u32 = 0;
        while self.servers.contains_key(&id)
            invariant
                self == old(self),
                self.spec_servers().dom().len() < u32::MAX,
                forall|x: u32| x < id ==> self.spec_servers().dom().contains(x),
            decreases u32::MAX - id,
        {
            proof {
                assert(self.spec_servers().dom().contains(id));
                lemma_key_range_len(self.spec_servers().dom(), id as int + 1);
            }
            id = id + 1;
        }
        self.servers.insert(id, server);
        id
    }

    /// The configuration under `id`, when there is one.
    pub fn get(&self, id: &u32) -> (r: Option<&MqttServer>)
        ensures
            r is Some <==> self.spec_servers().contains_key(*id),
            r matches Some(s) ==> *s == self.spec_servers()[*id],
    {
        self.servers.get(id)
    }

    /// Route one drained event to the configuration of the session it came
    /// from and keep it in that configuration's bounded message buffer; an
    /// event whose key has no configuration is dropped.
    pub fn push(&mut self, event: MqttServerManagerEvent)
        ensures
            !old(self).spec_servers().contains_key(event.client) ==> final(self).spec_servers()
                == old(self).spec_servers(),
            old(self).spec_servers().contains_key(event.client) ==> {
                let s_old = old(self).spec_servers()[event.client];
                let s_new = final(self).spec_servers()[event.client];
                &&& final(self).spec_servers().dom() == old(self).spec_servers().dom()
                &&& forall|k: u32|
                    k != event.client && old(self).spec_servers().contains_key(k)
                        ==> final(self).spec_servers()[k] == old(self).spec_servers()[k]
                &&& s_new.messages@ == spec_buffered(
                    s_old.messages@,
                    event,
                    s_old.max_messages as int,
                )
                &&& s_new.name == s_old.name
                &&& s_new.host == s_old.host
                &&& s_new.port == s_old.port
                &&& s_new.subscriptions == s_old.subscriptions
                &&& s_new.max_messages == s_old.max_messages
            },
    {
        let client = event.client;
        match self.servers.remove(&client) {
            Some(mut server) => {
                server.messages.push_back(event);
                if server.messages.len() > server.max_messages {
                    let _ = server.messages.pop_front();
                }
                self.servers.insert(client, server);
                proof {
                    assert(final(self).spec_servers().dom() =~= old(self).spec_servers().dom());
                }
            },
            None => {
                proof {
                    assert(old(self).spec_servers().remove(client) =~= old(self).spec_servers());
                }
            },
        }
    }

    /// Drop the configuration under `id`, if any.
    pub fn remove(&mut self, id: u32)
        ensures
            final(self).spec_servers() == old(self).spec_servers().remove(id),
            !old(self).spec_servers().contains_key(id) ==> final(self).spec_servers() == old(
                self,
            ).spec_servers(),
    {
        match self.servers.remove(&id) {
            Some(_) => {
            },
            None => {
                proof {
                    assert(old(self).spec_servers().remove(id) =~= old(self).spec_servers());
                }
            },
        }
    }
}

} // verus!
