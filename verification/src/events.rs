//! Inbound events and the event intake queue.
//!
//! Every connection session forwards the publish events it receives into one
//! ordered queue; the consumer drains the queue with a non-blocking poll.
//! Draining hands back everything buffered, in arrival order, and leaves the
//! queue empty, so events from one session always come out in the order that
//! session pushed them.

use vstd::prelude::*;

verus! {

/// An inbound publish event: which connection it came from, on which topic,
/// and with what payload.
#[derive(Clone)]
pub struct MqttServerManagerEvent {
    /// The key of the connection session that received the event.
    pub client: u32,
    /// The topic the message was published on.
    pub topic: String,
    /// The raw payload bytes.
    pub payload: Vec<u8>,
}

/// The events of `s` that the session under `client` forwarded, in order.
pub open spec fn events_of(s: Seq<MqttServerManagerEvent>, client: u32) -> Seq<
    MqttServerManagerEvent,
> {
    s.filter(|e: MqttServerManagerEvent| e.client == client)
}

/// Law: pushing one event extends that producer's subsequence by exactly that
/// event and leaves every other producer's subsequence unchanged, so each
/// session's events keep their emission order in the queue.
pub proof fn lemma_push_preserves_session_order(
    s: Seq<MqttServerManagerEvent>,
    e: MqttServerManagerEvent,
    client: u32,
)
    ensures
        e.client == client ==> events_of(s.push(e), client) == events_of(s, client).push(e),
        e.client != client ==> events_of(s.push(e), client) == events_of(s, client),
{
    reveal_with_fuel(Seq::filter, 2);
    assert(s.push(e).drop_last() =~= s);
    assert(s.push(e).last() == e);
}

/// Law: when the arrivals of two producers are interleaved, each producer's
/// subsequence of the whole is its own emission sequence: concatenation
/// distributes over the per-session filter.
pub proof fn lemma_interleaving_keeps_session_order(
    a: Seq<MqttServerManagerEvent>,
    b: Seq<MqttServerManagerEvent>,
    client: u32,
)
    ensures
        events_of(a + b, client) == events_of(a, client) + events_of(b, client),
{
    Seq::filter_distributes_over_add(a, b, |e: MqttServerManagerEvent| e.client == client);
}

/// The event intake queue: an ordered buffer of inbound events, filled by the
/// sessions' receive loops and drained by the consumer.
pub struct EventQueue {
    buf: Vec<MqttServerManagerEvent>,
}

impl View for EventQueue {
    type V = Seq<MqttServerManagerEvent>;

    closed spec fn view(&self) -> Seq<MqttServerManagerEvent> {
        self.buf@
    }
}

impl EventQueue {
    /// An empty queue.
    pub fn new() -> (r: EventQueue)
        ensures
            r@ == Seq::<MqttServerManagerEvent>::empty(),
    {
        EventQueue { buf: Vec::new() }
    }

    /// Append one event at the back of the queue.
    pub fn push(&mut self, e: MqttServerManagerEvent)
        ensures
            final(self)@ == old(self)@.push(e),
    {
        self.buf.push(e);
    }

    /// How many events are buffered.
    pub fn len(&self) -> (r: usize)
        ensures
            r == self@.len(),
    {
        self.buf.len()
    }

    /// Drain the queue: return everything buffered since the last drain, in
    /// arrival order, and leave the queue empty. A second drain with no new
    /// arrivals therefore returns an empty sequence.
    pub fn drain(&mut self) -> (r: Vec<MqttServerManagerEvent>)
        ensures
            r@ == old(self)@,
            final(self)@ == Seq::<MqttServerManagerEvent>::empty(),
    {
        let mut out: Vec<MqttServerManagerEvent> = Vec::new();
        core::mem::swap(&mut out, &mut self.buf);
        out
    }
}

} // verus!
