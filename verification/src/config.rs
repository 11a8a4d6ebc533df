//! Connection configuration: the name, host and port under which a broker
//! connection is made, together with the desired subscription list and the
//! per-connection message buffer.
//!
//! The port is kept as the text the consumer typed; reading it parses a
//! decimal port number and falls back to the default MQTT port when the text
//! is not a port. The display name falls back to `host:port` when no alias
//! is set, and an unset host falls back to the loopback address.

use vstd::prelude::*;
use vstd::string::StrSliceExecFns;
use vstd::string::StringExecFns;
use std::collections::VecDeque;
use crate::events::MqttServerManagerEvent;
use crate::reconcile::{contains_topic, has_topic};

verus! {

/// The port used when the configured text does not parse as one.
pub const DEFAULT_PORT: u16 = 1883;

pub open spec fn is_dec_digit(c: char) -> bool {
    '0' <= c && c <= '9'
}

pub open spec fn digit_val(c: char) -> int {
    c as int - '0' as int
}

pub open spec fn all_dec_digits(s: Seq<char>) -> bool {
    forall|i: int| 0 <= i < s.len() ==> is_dec_digit(#[trigger] s[i])
}

/// The value of a string of decimal digits, most significant first.
pub open spec fn dec_value(s: Seq<char>) -> int
    decreases s.len(),
{
    if s.len() == 0 {
        0
    } else {
        dec_value(s.drop_last()) * 10 + digit_val(s.last())
    }
}

/// The digits of a port text: an optional leading `+` sign is skipped, as
/// the standard integer parser does.
pub open spec fn port_digits(s: Seq<char>) -> Seq<char> {
    if s.len() > 0 && s[0] == '+' {
        s.subrange(1, s.len() as int)
    } else {
        s
    }
}

/// Whether `s` is a port: at most one leading sign, then only digits, at
/// least one of them, with a value that fits a sixteen-bit port number.
pub open spec fn is_port_string(s: Seq<char>) -> bool {
    &&& port_digits(s).len() > 0
    &&& all_dec_digits(port_digits(s))
    &&& dec_value(port_digits(s)) <= u16::MAX
}

/// The character for the decimal digit `d`.
pub open spec fn digit_char(d: int) -> char {
    ((48 + d) as u8) as char
}

/// The decimal representation of `n`, without sign or leading zeros.
pub open spec fn dec_digits(n: int) -> Seq<char>
    decreases n,
{
    if n < 10 {
        seq![digit_char(n)]
    } else {
        dec_digits(n / 10).push(digit_char(n % 10))
    }
}

proof fn lemma_dec_value_nonneg(s: Seq<char>)
    requires
        all_dec_digits(s),
    ensures
        dec_value(s) >= 0,
    decreases s.len(),
{
    if s.len() > 0 {
        assert(all_dec_digits(s.drop_last()));
        lemma_dec_value_nonneg(s.drop_last());
    }
}

/// A digit string is worth at least any of its prefixes.
proof fn lemma_dec_value_prefix_le(s: Seq<char>, n: int)
    requires
        0 <= n <= s.len(),
        all_dec_digits(s),
    ensures
        dec_value(s.take(n)) <= dec_value(s),
    decreases s.len() - n,
{
    if n == s.len() {
        assert(s.take(n) =~= s);
    } else {
        assert(s.take(n + 1).drop_last() =~= s.take(n));
        assert(all_dec_digits(s.take(n)));
        lemma_dec_value_nonneg(s.take(n));
        assert(dec_value(s.take(n + 1)) == dec_value(s.take(n)) * 10 + digit_val(s.take(n + 1).last()));
        lemma_dec_value_prefix_le(s, n + 1);
    }
}

/// Parse a decimal port number as the standard parser would: an optional
/// leading `+`, then one or more digits whose value fits in sixteen bits;
/// anything else is rejected.
pub fn parse_port(s: &str) -> (r: Option<u16>)
    ensures
        is_port_string(s@) ==> r == Some(dec_value(port_digits(s@)) as u16),
        !is_port_string(s@) ==> r is None,
{
    let n: usize = s.unicode_len();
    let start: usize = if n > 0 && s.get_char(0) == '+' {
        1
    } else {
        0
    };
    let ghost digits = port_digits(s@);
    proof {
        assert(digits.len() == n - start);
        assert(forall|k: int| 0 <= k < digits.len() ==> digits[k] == s@[k + start]);
    }
    if start >= n {
        return None;
    }
    let mut acc: u32 = 0;
    let mut i: usize = start;
    while i < n
        invariant
            start <= i <= n,
            n == s@.len(),
            start == (if s@.len() > 0 && s@[0] == '+' {
                1int
            } else {
                0int
            }),
            digits == port_digits(s@),
            digits.len() == n - start,
            forall|k: int| 0 <= k < digits.len() ==> digits[k] == s@[k + start],
            forall|k: int| 0 <= k < i - start ==> is_dec_digit(#[trigger] digits[k]),
            acc <= u16::MAX,
            acc as int == dec_value(digits.take(i - start)),
        decreases n - i,
    {
        let c = s.get_char(i);
        if !(c >= '0' && c <= '9') {
            proof {
                assert(digits[i - start] == c);
                assert(!all_dec_digits(digits));
            }
            return None;
        }
        let d: u32 = (c as u32) - 48;
        proof {
            assert(digits.take(i + 1 - start).drop_last() =~= digits.take(i - start));
            assert(digits.take(i + 1 - start).last() == c);
        }
        let next: u32 = acc * 10 + d;
        if next > u16::MAX as u32 {
            proof {
                if is_port_string(s@) {
                    lemma_dec_value_prefix_le(digits, i + 1 - start);
                    assert(dec_value(digits) >= dec_value(digits.take(i + 1 - start)));
                    assert(false);
                }
            }
            return None;
        }
        acc = next;
        i = i + 1;
    }
    proof {
        assert(digits.take(n - start) =~= digits);
        assert(all_dec_digits(digits));
        assert(is_port_string(s@));
    }
    Some(acc as u16)
}

fn digit_str(d: u8) -> (r: &'static str)
    requires
        d < 10,
    ensures
        r@ =~= seq![digit_char(d as int)],
{
    proof {
        reveal_strlit("0");
        reveal_strlit("1");
        reveal_strlit("2");
        reveal_strlit("3");
        reveal_strlit("4");
        reveal_strlit("5");
        reveal_strlit("6");
        reveal_strlit("7");
        reveal_strlit("8");
        reveal_strlit("9");
    }
    match d {
        0 => "0",
        1 => "1",
        2 => "2",
        3 => "3",
        4 => "4",
        5 => "5",
        6 => "6",
        7 => "7",
        8 => "8",
        _ => "9",
    }
}

/// The decimal text of `n`, as [`dec_digits`] describes it.
pub fn u16_dec_string(n: u16) -> (r: String)
    ensures
        r@ == dec_digits(n as int),
    decreases n,
{
    if n < 10 {
        let mut r = String::new();
        r.append(digit_str(n as u8));
        proof {
            assert(r@ =~= dec_digits(n as int));
        }
        r
    } else {
        let mut r = u16_dec_string(n / 10);
        r.append(digit_str((n % 10) as u8));
        proof {
            assert(r@ =~= dec_digits(n as int));
        }
        r
    }
}

/// One configured broker connection, as the consumer edits it.
#[derive(Clone)]
pub struct MqttServer {
    /// An optional display alias; when empty the name is `host:port`.
    pub name: String,
    /// The broker host; when empty the loopback address is used.
    pub host: String,
    /// The broker port as typed; when it does not parse, the default MQTT
    /// port is used.
    pub port: String,
    /// The desired subscription list for this connection.
    pub subscriptions: Vec<String>,
    /// The received messages kept for display, oldest first.
    pub messages: VecDeque<MqttServerManagerEvent>,
    /// How many received messages are kept; older ones are discarded.
    pub max_messages: usize,
}

/// The port this configuration denotes.
pub open spec fn spec_port(s: MqttServer) -> int {
    if is_port_string(s.port@) {
        dec_value(port_digits(s.port@))
    } else {
        DEFAULT_PORT as int
    }
}

/// The host this configuration denotes.
pub open spec fn spec_host(s: MqttServer) -> Seq<char> {
    if s.host@.len() == 0 {
        "127.0.0.1"@
    } else {
        s.host@
    }
}

/// The display name this configuration denotes.
pub open spec fn spec_name(s: MqttServer) -> Seq<char> {
    if s.name@.len() != 0 {
        s.name@
    } else {
        spec_host(s) + seq![':'] + dec_digits(spec_port(s))
    }
}

impl Default for MqttServer {
    /// An empty configuration: no alias, no host, no port text, no
    /// subscriptions, no messages kept yet.
    fn default() -> (r: MqttServer)
        ensures
            r.name@.len() == 0,
            r.host@.len() == 0,
            r.port@.len() == 0,
            r.subscriptions@.len() == 0,
            r.messages@.len() == 0,
            r.max_messages == 0,
    {
        MqttServer {
            name: String::new(),
            host: String::new(),
            port: String::new(),
            subscriptions: Vec::new(),
            messages: VecDeque::new(),
            max_messages: 0,
        }
    }
}

impl MqttServer {
    /// A fresh configuration with nothing set.
    pub fn new() -> (r: MqttServer)
        ensures
            r.name@.len() == 0,
            r.host@.len() == 0,
            r.port@.len() == 0,
            r.subscriptions@.len() == 0,
            r.messages@.len() == 0,
            r.max_messages == 0,
    {
        MqttServer::default()
    }

    /// The configured port, or the default MQTT port when the text does not
    /// parse as one.
    pub fn port(&self) -> (r: u16)
        ensures
            r as int == spec_port(*self),
    {
        proof {
            if is_port_string(self.port@) {
                lemma_dec_value_nonneg(port_digits(self.port@));
            }
        }
        match parse_port(self.port.as_str()) {
            Some(p) => p,
            None => DEFAULT_PORT,
        }
    }

    /// The configured host, or the loopback address when none is set.
    pub fn host(&self) -> (r: String)
        ensures
            r@ == spec_host(*self),
    {
        if self.host.as_str().is_empty() {
            "127.0.0.1".to_owned()
        } else {
            self.host.clone()
        }
    }

    /// The display name: the alias when one is set, else `host:port`.
    pub fn name(&self) -> (r: String)
        ensures
            r@ == spec_name(*self),
    {
        if !self.name.as_str().is_empty() {
            return self.name.clone();
        }
        let mut r = self.host();
        r.append(":");
        let port = u16_dec_string(self.port());
        r.append(port.as_str());
        proof {
            reveal_strlit(":");
            assert(":"@ =~= seq![':']);
            assert(r@ =~= spec_name(*self));
        }
        r
    }

    /// Append one topic to the desired subscription list, as typed.
    pub fn add_subscription(&mut self, topic: String)
        ensures
            final(self).subscriptions@ == old(self).subscriptions@.push(topic),
            final(self).name == old(self).name,
            final(self).host == old(self).host,
            final(self).port == old(self).port,
            final(self).messages == old(self).messages,
            final(self).max_messages == old(self).max_messages,
    {
        self.subscriptions.push(topic);
    }

    /// Drop every topic that occurs in `remove` from the desired
    /// subscription list, keeping the order of the rest.
    pub fn remove_subscriptions(&mut self, remove: &Vec<String>)
        ensures
            final(self).subscriptions@ == old(self).subscriptions@.filter(
                (|s: String| !has_topic(remove@, s@)),
            ),
            final(self).name == old(self).name,
            final(self).host == old(self).host,
            final(self).port == old(self).port,
            final(self).messages == old(self).messages,
            final(self).max_messages == old(self).max_messages,
    {
        let ghost pred = (|s: String| !has_topic(remove@, s@));
        let mut kept: Vec<String> = Vec::new();
        let mut i: usize = 0;
        while i < self.subscriptions.len()
            invariant
                0 <= i <= self.subscriptions@.len(),
                self == old(self),
                kept@ == old(self).subscriptions@.take(i as int).filter(pred),
                pred == (|s: String| !has_topic(remove@, s@)),
            decreases self.subscriptions@.len() - i,
        {
            let t = &self.subscriptions[i];
            proof {
                let prefix = self.subscriptions@.take(i as int);
                let one = seq![self.subscriptions@[i as int]];
                assert(self.subscriptions@.take(i + 1) =~= prefix + one);
                Seq::filter_distributes_over_add(prefix, one, pred);
                reveal_with_fuel(Seq::filter, 2);
                assert(one.drop_last() =~= Seq::<String>::empty());
            }
            if !contains_topic(remove, t) {
                kept.push(t.clone());
            }
            i = i + 1;
        }
        proof {
            assert(old(self).subscriptions@.take(old(self).subscriptions@.len() as int)
                =~= old(self).subscriptions@);
        }
        self.subscriptions = kept;
    }
}

} // verus!
