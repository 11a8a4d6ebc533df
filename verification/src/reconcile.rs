//! Subscription reconciliation: diff a desired subscription set against the
//! current one and compute the minimal lists of topics to subscribe and to
//! unsubscribe.

use vstd::prelude::*;

verus! {

/// Whether the list of topic strings `ts` holds the topic `t`.
pub open spec fn has_topic(ts: Seq<String>, t: Seq<char>) -> bool {
    exists|i: int| 0 <= i < ts.len() && ts[i]@ == t
}

/// The set of topic filters that a list of strings denotes.
pub open spec fn topic_set(ts: Seq<String>) -> Set<Seq<char>> {
    Set::new(|t: Seq<char>| has_topic(ts, t))
}

/// The list `ts` holds no topic twice.
pub open spec fn distinct_topics(ts: Seq<String>) -> bool {
    forall|i: int, j: int| 0 <= i < j < ts.len() ==> ts[i]@ != ts[j]@
}

proof fn lemma_has_topic_take_extend(ts: Seq<String>, n: int, t: Seq<char>)
    requires
        0 <= n < ts.len(),
    ensures
        has_topic(ts.take(n), t) ==> has_topic(ts.take(n + 1), t),
        ts[n]@ == t ==> has_topic(ts.take(n + 1), t),
{
    if has_topic(ts.take(n), t) {
        let i = choose|i: int| 0 <= i < ts.take(n).len() && ts.take(n)[i]@ == t;
        assert(ts.take(n + 1)[i]@ == t);
    }
    if ts[n]@ == t {
        assert(ts.take(n + 1)[n]@ == t);
    }
}

proof fn lemma_has_topic_push(ts: Seq<String>, s: String, t: Seq<char>)
    ensures
        has_topic(ts, t) ==> has_topic(ts.push(s), t),
        s@ == t ==> has_topic(ts.push(s), t),
{
    if has_topic(ts, t) {
        let i = choose|i: int| 0 <= i < ts.len() && ts[i]@ == t;
        assert(ts.push(s)[i]@ == t);
    }
    if s@ == t {
        assert(ts.push(s)[ts.len() as int]@ == t);
    }
}

/// Taking one more element of `ts` extends the denoted set by exactly that
/// element's topic.
pub(crate) proof fn lemma_topic_set_take_extend(ts: Seq<String>, n: int)
    requires
        0 <= n < ts.len(),
    ensures
        topic_set(ts.take(n + 1)) == topic_set(ts.take(n)).insert(ts[n]@),
{
    assert forall|x: Seq<char>|
        topic_set(ts.take(n + 1)).contains(x) implies topic_set(ts.take(n)).insert(
        ts[n]@,
    ).contains(x) by {
        let k = choose|k: int|
            0 <= k < ts.take(n + 1).len() && (#[trigger] ts.take(n + 1)[k])@ == x;
        if k < n {
            assert(ts.take(n)[k]@ == x);
        }
    }
    assert forall|x: Seq<char>|
        topic_set(ts.take(n)).insert(ts[n]@).contains(x) implies topic_set(
        ts.take(n + 1),
    ).contains(x) by {
        if x == ts[n]@ {
            assert(ts.take(n + 1)[n]@ == x);
        } else {
            let k = choose|k: int| 0 <= k < ts.take(n).len() && (#[trigger] ts.take(n)[k])@ == x;
            assert(ts.take(n + 1)[k]@ == x);
        }
    }
    assert(topic_set(ts.take(n + 1)) =~= topic_set(ts.take(n)).insert(ts[n]@));
}

/// Whether the vector `ts` holds the topic `t`, by linear search.
pub fn contains_topic(ts: &Vec<String>, t: &String) -> (b: bool)
    ensures
        b == has_topic(ts@, t@),
{
    let mut i: usize = 0;
    while i < ts.len()
        invariant
            0 <= i <= ts@.len(),
            forall|j: int| 0 <= j < i ==> ts@[j]@ != t@,
        decreases ts@.len() - i,
    {
        if ts[i] == *t {
            return true;
        }
        i = i + 1;
    }
    false
}

/// Diff the current subscription set against the desired one.
///
/// Returns `(to_subscribe, to_unsubscribe)`: the topics of `desired` that are
/// not yet current, and the topics of `current` that are no longer desired.
/// Both lists are free of duplicates, and when the two sets already agree both
/// lists are empty.
pub fn reconcile(current: &Vec<String>, desired: &Vec<String>) -> (r: (Vec<String>, Vec<String>))
    ensures
        topic_set(r.0@) == topic_set(desired@).difference(topic_set(current@)),
        topic_set(r.1@) == topic_set(current@).difference(topic_set(desired@)),
        forall|i: int|
            0 <= i < r.0@.len() ==> has_topic(desired@, #[trigger] r.0@[i]@) && !has_topic(
                current@,
                r.0@[i]@,
            ),
        forall|i: int|
            0 <= i < r.1@.len() ==> has_topic(current@, #[trigger] r.1@[i]@) && !has_topic(
                desired@,
                r.1@[i]@,
            ),
        distinct_topics(r.0@),
        distinct_topics(r.1@),
        topic_set(current@) == topic_set(desired@) ==> r.0@.len() == 0 && r.1@.len() == 0,
{
    let mut to_subscribe: Vec<String> = Vec::new();
    let mut i: usize = 0;
    while i < desired.len()
        invariant
            0 <= i <= desired@.len(),
            forall|k: int|
                0 <= k < to_subscribe@.len() ==> has_topic(
                    desired@.take(i as int),
                    #[trigger] to_subscribe@[k]@,
                ) && !has_topic(current@, to_subscribe@[k]@),
            forall|k: int|
                0 <= k < i ==> !has_topic(current@, #[trigger] desired@[k]@) ==> has_topic(
                    to_subscribe@,
                    desired@[k]@,
                ),
            distinct_topics(to_subscribe@),
        decreases desired@.len() - i,
    {
        let t = &desired[i];
        let ghost prev = to_subscribe@;
        if !contains_topic(current, t) && !contains_topic(&to_subscribe, t) {
            to_subscribe.push(t.clone());
        }
        proof {
            assert forall|k: int| 0 <= k < to_subscribe@.len() implies has_topic(
                desired@.take(i + 1),
                #[trigger] to_subscribe@[k]@,
            ) by {
                if k < prev.len() {
                    lemma_has_topic_take_extend(desired@, i as int, to_subscribe@[k]@);
                } else {
                    lemma_has_topic_take_extend(desired@, i as int, desired@[i as int]@);
                }
            }
            assert forall|k: int|
                0 <= k < i + 1 && !has_topic(current@, #[trigger] desired@[k]@) implies has_topic(
                to_subscribe@,
                desired@[k]@,
            ) by {
                if to_subscribe@ != prev {
                    lemma_has_topic_push(prev, to_subscribe@[prev.len() as int], desired@[k]@);
                }
            }
        }
        i = i + 1;
    }
    let mut to_unsubscribe: Vec<String> = Vec::new();
    let mut j: usize = 0;
    while j < current.len()
        invariant
            0 <= j <= current@.len(),
            forall|k: int|
                0 <= k < to_unsubscribe@.len() ==> has_topic(
                    current@.take(j as int),
                    #[trigger] to_unsubscribe@[k]@,
                ) && !has_topic(desired@, to_unsubscribe@[k]@),
            forall|k: int|
                0 <= k < j ==> !has_topic(desired@, #[trigger] current@[k]@) ==> has_topic(
                    to_unsubscribe@,
                    current@[k]@,
                ),
            distinct_topics(to_unsubscribe@),
        decreases current@.len() - j,
    {
        let t = &current[j];
        let ghost prev = to_unsubscribe@;
        if !contains_topic(desired, t) && !contains_topic(&to_unsubscribe, t) {
            to_unsubscribe.push(t.clone());
        }
        proof {
            assert forall|k: int| 0 <= k < to_unsubscribe@.len() implies has_topic(
                current@.take(j + 1),
                #[trigger] to_unsubscribe@[k]@,
            ) by {
                if k < prev.len() {
                    lemma_has_topic_take_extend(current@, j as int, to_unsubscribe@[k]@);
                } else {
                    lemma_has_topic_take_extend(current@, j as int, current@[j as int]@);
                }
            }
            assert forall|k: int|
                0 <= k < j + 1 && !has_topic(desired@, #[trigger] current@[k]@) implies has_topic(
                to_unsubscribe@,
                current@[k]@,
            ) by {
                if to_unsubscribe@ != prev {
                    lemma_has_topic_push(prev, to_unsubscribe@[prev.len() as int], current@[k]@);
                }
            }
        }
        j = j + 1;
    }
    proof {
        assert(desired@.take(desired@.len() as int) =~= desired@);
        assert(current@.take(current@.len() as int) =~= current@);
        assert(topic_set(to_subscribe@) =~= topic_set(desired@).difference(topic_set(current@)));
        assert(topic_set(to_unsubscribe@) =~= topic_set(current@).difference(topic_set(desired@)));
        if topic_set(current@) == topic_set(desired@) {
            assert(to_subscribe@.len() == 0) by {
                if to_subscribe@.len() > 0 {
                    assert(has_topic(desired@, to_subscribe@[0]@));
                    assert(topic_set(desired@).contains(to_subscribe@[0]@));
                    assert(topic_set(current@).contains(to_subscribe@[0]@));
                }
            }
            assert(to_unsubscribe@.len() == 0) by {
                if to_unsubscribe@.len() > 0 {
                    assert(has_topic(current@, to_unsubscribe@[0]@));
                    assert(topic_set(current@).contains(to_unsubscribe@[0]@));
                    assert(topic_set(desired@).contains(to_unsubscribe@[0]@));
                }
            }
        }
    }
    (to_subscribe, to_unsubscribe)
}

/// Law: reconciliation reaches the desired set, subscribes only to new
/// topics, and unsubscribes only from current ones. Applying `to_subscribe`
/// and then `to_unsubscribe` to `current` yields exactly `desired`;
/// `to_subscribe` is disjoint from `current`; `to_unsubscribe` is contained
/// in `current`.
pub proof fn lemma_reconcile_reaches_desired(current: Set<Seq<char>>, desired: Set<Seq<char>>)
    ensures
        current.union(desired.difference(current)).difference(current.difference(desired))
            == desired,
        desired.difference(current).disjoint(current),
        current.difference(desired).subset_of(current),
{
    assert(current.union(desired.difference(current)).difference(current.difference(desired))
        =~= desired);
}

/// Law: reconciling a set against itself yields nothing to do, so a second
/// synchronisation against an unchanged desired set issues no operations.
pub proof fn lemma_reconcile_idempotent(s: Set<Seq<char>>)
    ensures
        s.difference(s) == Set::<Seq<char>>::empty(),
{
    assert(s.difference(s) =~= Set::<Seq<char>>::empty());
}

} // verus!
