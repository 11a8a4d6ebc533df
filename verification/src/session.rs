//! A connection session: one broker connection handle together with the
//! subscription set it currently tracks.
//!
//! `connect` opens the broker connection and hands the blocking event stream
//! back to the caller, who runs the receive loop on it; the session itself
//! keeps only the request handle. `sync_subs` reconciles the tracked
//! subscription set against a desired one and issues the minimal subscribe
//! and unsubscribe requests; a topic whose request the client did not accept
//! is left untracked (or kept tracked), so the next synchronisation retries
//! exactly the topics that failed.

use vstd::prelude::*;
use crate::broker;
use crate::broker::Qos;
use crate::reconcile::{distinct_topics, has_topic, reconcile, topic_set};

verus! {

/// An individual subscribe or unsubscribe request that the broker client
/// did not accept; the affected topics stay unapplied and are retried on the
/// next synchronisation.
pub struct SubscriptionOperationError;

/// A publish request that the broker client did not accept.
pub struct ClientRequestError;

/// One live broker connection with the subscription set it tracks.
pub struct Server {
    id: u32,
    host: String,
    port: u16,
    client: rumqttc::Client,
    current_subs: Vec<String>,
}

impl Server {
    /// The key under which the session is registered.
    pub closed spec fn spec_id(&self) -> u32 {
        self.id
    }

    /// The host the session was connected to.
    pub closed spec fn spec_host(&self) -> Seq<char> {
        self.host@
    }

    /// The port the session was connected to.
    pub closed spec fn spec_port(&self) -> u16 {
        self.port
    }

    /// The tracked subscription list, in the order the topics were applied.
    pub closed spec fn subs_list(&self) -> Seq<String> {
        self.current_subs@
    }

    /// The tracked subscription set.
    pub open spec fn subs_set(&self) -> Set<Seq<char>> {
        topic_set(self.subs_list())
    }

    /// The tracked subscription list never holds a topic twice.
    pub open spec fn wf(&self) -> bool {
        distinct_topics(self.subs_list())
    }

    /// Open a broker connection to `host:port` for the session keyed `id`.
    ///
    /// Returns the session, which keeps the request handle, and the blocking
    /// event stream, on which the caller runs the receive loop. The session
    /// starts with nothing subscribed.
    pub fn connect(host: String, port: u16, id: u32) -> (r: (Server, rumqttc::Connection))
        ensures
            r.0.wf(),
            r.0.spec_id() == id,
            r.0.spec_host() == host@,
            r.0.spec_port() == port,
            r.0.subs_set() == Set::<Seq<char>>::empty(),
            r.0.subs_list() == Seq::<String>::empty(),
    {
        let options = broker::mqtt_options(id, &host, port);
        let (client, connection) = broker::client_new(options, 20);
        let server = Server { id, host, port, client, current_subs: Vec::new() };
        proof {
            assert(server.subs_set() =~= Set::<Seq<char>>::empty());
        }
        (server, connection)
    }

    /// The underlying broker request handle.
    pub fn client(&self) -> &rumqttc::Client {
        &self.client
    }

    /// The tracked subscription list, for observation.
    pub fn current_subscriptions(&self) -> (r: &Vec<String>)
        ensures
            r@ == self.subs_list(),
    {
        &self.current_subs
    }

    /// Reconcile the tracked subscription set against `subs` and issue the
    /// minimal subscribe and unsubscribe requests.
    ///
    /// A topic is subscribed only if it is not yet tracked and unsubscribed
    /// only if it is tracked; a topic whose request the client accepted
    /// moves into (or out of) the tracked set, a topic whose request failed
    /// does not. The call succeeds exactly when the tracked set ends up
    /// equal to the desired one; when the two already agree, no request at
    /// all is issued and the call succeeds with the set unchanged.
    pub fn sync_subs(&mut self, subs: &Vec<String>) -> (r: Result<(), SubscriptionOperationError>)
        requires
            old(self).wf(),
        ensures
            final(self).wf(),
            final(self).spec_id() == old(self).spec_id(),
            final(self).spec_host() == old(self).spec_host(),
            final(self).spec_port() == old(self).spec_port(),
            forall|t: Seq<char>|
                old(self).subs_set().contains(t) && topic_set(subs@).contains(t)
                    ==> final(self).subs_set().contains(t),
            forall|t: Seq<char>|
                final(self).subs_set().contains(t) ==> old(self).subs_set().contains(t)
                    || topic_set(subs@).contains(t),
            r is Ok <==> final(self).subs_set() == topic_set(subs@),
            old(self).subs_set() == topic_set(subs@) ==> r is Ok && final(self).subs_list() == old(
                self,
            ).subs_list(),
    {
        let ghost old_set = self.subs_set();
        let ghost desired_set = topic_set(subs@);
        let (to_sub, to_unsub) = reconcile(&self.current_subs, subs);
        let ghost s_set = topic_set(to_sub@);
        let ghost u_set = topic_set(to_unsub@);
        let ghost mut added: Set<Seq<char>> = Set::empty();
        let ghost mut failed_sub: Set<Seq<char>> = Set::empty();
        let mut ok: bool = true;
        let mut i: usize = 0;
        while i < to_sub.len()
            invariant
                0 <= i <= to_sub@.len(),
                distinct_topics(to_sub@),
                forall|k: int|
                    0 <= k < to_sub@.len() ==> has_topic(subs@, #[trigger] to_sub@[k]@)
                        && !old_set.contains(to_sub@[k]@),
                self.wf(),
                self.spec_id() == old(self).spec_id(),
                self.spec_host() == old(self).spec_host(),
                self.spec_port() == old(self).spec_port(),
                self.client == old(self).client,
                old_set == topic_set(old(self).subs_list()),
                self.subs_set() == old_set.union(added),
                added.union(failed_sub) =~= topic_set(to_sub@.take(i as int)),
                added.disjoint(failed_sub),
                forall|k: int|
                    i <= k < to_sub@.len() ==> !added.contains(#[trigger] to_sub@[k]@)
                        && !failed_sub.contains(to_sub@[k]@),
                ok <==> failed_sub.is_empty(),
                i == 0 ==> self.subs_list() == old(self).subs_list(),
            decreases to_sub@.len() - i,
        {
            let t = &to_sub[i];
            let ghost prev_list = self.subs_list();
            match broker::client_subscribe(&self.client, t.clone(), Qos::ExactlyOnce) {
                Ok(_) => {
                    proof {
                        assert(!self.subs_set().contains(t@));
                    }
                    self.current_subs.push(t.clone());
                    proof {
                        added = added.insert(t@);
                        assert forall|a: int, b: int|
                            0 <= a < b < self.subs_list().len() implies self.subs_list()[a]@
                            != self.subs_list()[b]@ by {
                            if b < prev_list.len() {
                            } else {
                                assert(self.subs_list()[b]@ == t@);
                                assert(has_topic(prev_list, self.subs_list()[a]@));
                                assert(topic_set(prev_list).contains(self.subs_list()[a]@));
                            }
                        }
                        assert(self.subs_set() =~= old_set.union(added)) by {
                            assert forall|x: Seq<char>| self.subs_set().contains(x) implies old_set
                                .union(added).contains(x) by {
                                let k = choose|k: int|
                                    0 <= k < self.subs_list().len() && self.subs_list()[k]@ == x;
                                if k < prev_list.len() {
                                    assert(topic_set(prev_list).contains(x));
                                }
                            }
                            assert forall|x: Seq<char>|
                                old_set.union(added).contains(x) implies self.subs_set().contains(
                                x,
                            ) by {
                                if x == t@ {
                                    assert(self.subs_list()[prev_list.len() as int]@ == x);
                                } else {
                                    assert(topic_set(prev_list).contains(x));
                                    let k = choose|k: int|
                                        0 <= k < prev_list.len() && prev_list[k]@ == x;
                                    assert(self.subs_list()[k]@ == x);
                                }
                            }
                        }
                    }
                },
                Err(_) => {
                    ok = false;
                    proof {
                        failed_sub = failed_sub.insert(t@);
                    }
                },
            }
            proof {
                crate::reconcile::lemma_topic_set_take_extend(to_sub@, i as int);
            }
            i = i + 1;
        }
        proof {
            assert(to_sub@.take(to_sub@.len() as int) =~= to_sub@);
            assert(added.union(failed_sub) =~= s_set);
        }
        let ghost set_after_subs = self.subs_set();
        let ghost mut removed: Set<Seq<char>> = Set::empty();
        let ghost mut failed_unsub: Set<Seq<char>> = Set::empty();
        let mut j: usize = 0;
        while j < to_unsub.len()
            invariant
                0 <= j <= to_unsub@.len(),
                distinct_topics(to_unsub@),
                forall|k: int|
                    0 <= k < to_unsub@.len() ==> old_set.contains(#[trigger] to_unsub@[k]@)
                        && !topic_set(subs@).contains(to_unsub@[k]@),
                self.wf(),
                self.spec_id() == old(self).spec_id(),
                self.spec_host() == old(self).spec_host(),
                self.spec_port() == old(self).spec_port(),
                self.client == old(self).client,
                set_after_subs == old_set.union(added),
                self.subs_set() == set_after_subs.difference(removed),
                removed.union(failed_unsub) =~= topic_set(to_unsub@.take(j as int)),
                removed.disjoint(failed_unsub),
                forall|k: int|
                    j <= k < to_unsub@.len() ==> !removed.contains(#[trigger] to_unsub@[k]@)
                        && !failed_unsub.contains(to_unsub@[k]@),
                ok <==> failed_sub.is_empty() && failed_unsub.is_empty(),
                j == 0 && to_sub@.len() == 0 ==> self.subs_list() == old(self).subs_list(),
            decreases to_unsub@.len() - j,
        {
            let t = &to_unsub[j];
            match broker::client_unsubscribe(&self.client, t.clone()) {
                Ok(_) => {
                    proof {
                        assert(old_set.contains(t@));
                        assert(set_after_subs.contains(t@));
                        assert(!removed.contains(t@));
                        assert(self.subs_set().contains(t@));
                    }
                    remove_topic(&mut self.current_subs, t);
                    proof {
                        removed = removed.insert(t@);
                        assert(self.subs_set() =~= set_after_subs.difference(removed));
                    }
                },
                Err(_) => {
                    ok = false;
                    proof {
                        failed_unsub = failed_unsub.insert(t@);
                    }
                },
            }
            proof {
                crate::reconcile::lemma_topic_set_take_extend(to_unsub@, j as int);
            }
            j = j + 1;
        }
        proof {
            assert(to_unsub@.take(to_unsub@.len() as int) =~= to_unsub@);
            assert(removed.union(failed_unsub) =~= u_set);
            assert forall|t: Seq<char>|
                old_set.contains(t) && desired_set.contains(t) implies final(self).subs_set()
                .contains(t) by {
                assert(set_after_subs.contains(t));
                if removed.contains(t) {
                    assert(u_set.contains(t));
                }
            }
            assert forall|t: Seq<char>| final(self).subs_set().contains(t) implies old_set.contains(
                t,
            ) || desired_set.contains(t) by {
                assert(set_after_subs.contains(t));
                if added.contains(t) {
                    assert(s_set.contains(t));
                }
            }
            if ok {
                assert(added =~= s_set);
                assert(removed =~= u_set);
                assert(final(self).subs_set() =~= desired_set) by {
                    assert(s_set == desired_set.difference(old_set));
                    assert(u_set == old_set.difference(desired_set));
                }
            } else {
                if !failed_sub.is_empty() {
                    let t = failed_sub.choose();
                    assert(failed_sub.contains(t));
                    assert(s_set.contains(t));
                    assert(!added.contains(t));
                    assert(!final(self).subs_set().contains(t));
                    assert(desired_set.contains(t)) by {
                        let k = choose|k: int| 0 <= k < to_sub@.len() && to_sub@[k]@ == t;
                        assert(has_topic(subs@, to_sub@[k]@));
                    }
                    assert(final(self).subs_set() != desired_set);
                } else {
                    let t = failed_unsub.choose();
                    assert(failed_unsub.contains(t));
                    assert(u_set.contains(t));
                    assert(old_set.contains(t));
                    assert(!desired_set.contains(t));
                    assert(!s_set.contains(t));
                    assert(!removed.contains(t));
                    assert(final(self).subs_set().contains(t));
                    assert(final(self).subs_set() != desired_set);
                }
            }
            if old_set == desired_set {
                assert(s_set =~= Set::<Seq<char>>::empty()) by {
                    crate::reconcile::lemma_reconcile_idempotent(desired_set);
                }
                assert(u_set =~= Set::<Seq<char>>::empty()) by {
                    crate::reconcile::lemma_reconcile_idempotent(desired_set);
                }
                assert(to_sub@.len() == 0) by {
                    if to_sub@.len() > 0 {
                        assert(has_topic(to_sub@, to_sub@[0]@));
                        assert(s_set.contains(to_sub@[0]@));
                    }
                }
                assert(to_unsub@.len() == 0) by {
                    if to_unsub@.len() > 0 {
                        assert(has_topic(to_unsub@, to_unsub@[0]@));
                        assert(u_set.contains(to_unsub@[0]@));
                    }
                }
                assert(final(self).subs_set() =~= desired_set);
            }
        }
        if ok {
            Ok(())
        } else {
            Err(SubscriptionOperationError)
        }
    }

    /// Forward one publish request with the session's delivery settings; a
    /// topic holding a wildcard is rejected by the broker client.
    pub fn publish(&self, topic: String, payload: Vec<u8>) -> (r: Result<(), ClientRequestError>)
        ensures
            !broker::spec_valid_topic(topic@) ==> r is Err,
    {
        match broker::client_publish(&self.client, topic, Qos::ExactlyOnce, false, payload) {
            Ok(_) => Ok(()),
            Err(_) => Err(ClientRequestError),
        }
    }

    /// Request a graceful disconnect from the broker; the receive loop
    /// terminates when it observes the acknowledgement.
    pub fn disconnect(&self) -> (r: Result<(), ClientRequestError>) {
        match broker::client_disconnect(&self.client) {
            Ok(_) => Ok(()),
            Err(_) => Err(ClientRequestError),
        }
    }
}

/// Remove the single occurrence of `t` from `v`, keeping the order of the
/// rest.
fn remove_topic(v: &mut Vec<String>, t: &String)
    requires
        distinct_topics(old(v)@),
        has_topic(old(v)@, t@),
    ensures
        distinct_topics(final(v)@),
        forall|x: Seq<char>|
            topic_set(final(v)@).contains(x) <==> (topic_set(old(v)@).contains(x) && x != t@),
        topic_set(final(v)@) == topic_set(old(v)@).remove(t@),
{
    let mut i: usize = 0;
    while i < v.len()
        invariant
            0 <= i <= v@.len(),
            v@ == old(v)@,
            distinct_topics(v@),
            has_topic(v@, t@),
            forall|k: int| 0 <= k < i ==> v@[k]@ != t@,
        decreases v@.len() - i,
    {
        if v[i] == *t {
            let ghost prev = v@;
            v.remove(i);
            proof {
                assert forall|a: int, b: int| 0 <= a < b < v@.len() implies v@[a]@ != v@[b]@ by {
                    let pa: int = if a < i { a } else { a + 1 };
                    let pb: int = if b < i { b } else { b + 1 };
                    assert(v@[a] == prev[pa]);
                    assert(v@[b] == prev[pb]);
                }
                assert forall|x: Seq<char>|
                    topic_set(v@).contains(x) implies (topic_set(prev).contains(x) && x
                    != t@) by {
                    let k = choose|k: int| 0 <= k < v@.len() && v@[k]@ == x;
                    let pk: int = if k < i { k } else { k + 1 };
                    assert(v@[k] == prev[pk]);
                    assert(prev[pk]@ == x);
                    assert(pk != i);
                }
                assert forall|x: Seq<char>|
                    topic_set(prev).contains(x) && x != t@ implies topic_set(v@).contains(x) by {
                    let k = choose|k: int| 0 <= k < prev.len() && prev[k]@ == x;
                    assert(k != i);
                    let nk: int = if k < i { k } else { k - 1 };
                    assert(v@[nk] == prev[k]);
                }
                assert(topic_set(v@) =~= topic_set(prev).remove(t@));
            }
            return;
        }
        i = i + 1;
    }
    proof {
        let k = choose|k: int| 0 <= k < v@.len() && v@[k]@ == t@;
        assert(false);
    }
}

} // verus!
