//! The mathematical model of the bus: topics and contents as character
//! sequences, mailboxes as sequences of messages, and the registry as a map
//! from a topic to the ordered list of mailbox indices subscribed to it.

use vstd::prelude::*;

verus! {

/// A message as the routing layer models it: the topic it was published
/// under, paired with its content, both as character sequences.
pub type Msg = (Seq<char>, Seq<char>);

/// How many times `x` occurs in `s`.
pub open spec fn occurrences<A>(s: Seq<A>, x: A) -> nat
    decreases s.len(),
{
    if s.len() == 0 {
        0
    } else {
        occurrences(s.drop_last(), x) + (if s.last() == x {
            1nat
        } else {
            0nat
        })
    }
}

/// How many copies one publish puts into mailbox `m`: the number of times
/// index `m` occurs in the topic's subscriber list.
pub open spec fn deliveries(subs: Seq<usize>, m: int) -> nat
    decreases subs.len(),
{
    if subs.len() == 0 {
        0
    } else {
        deliveries(subs.drop_last(), m) + (if subs.last() as int == m {
            1nat
        } else {
            0nat
        })
    }
}

/// `n` copies of `x`, in a row.
pub open spec fn repeated<A>(n: nat, x: A) -> Seq<A> {
    Seq::new(n, |i: int| x)
}

/// The mailbox states after one publish of `(t, c)` against a frozen
/// registry: every mailbox receives one copy of the message per occurrence
/// of its index in the topic's subscriber list, in registration order, and
/// an unknown topic leaves every mailbox exactly as it was.
pub open spec fn route(
    topics: Map<Seq<char>, Seq<usize>>,
    boxes: Seq<Seq<Msg>>,
    t: Seq<char>,
    c: Seq<char>,
) -> Seq<Seq<Msg>> {
    if topics.contains_key(t) {
        Seq::new(boxes.len(), |m: int| boxes[m] + repeated(deliveries(topics[t], m), (t, c)))
    } else {
        boxes
    }
}

/// The mailbox states after mailbox `m` has been drained.
pub open spec fn drained(boxes: Seq<Seq<Msg>>, m: int) -> Seq<Seq<Msg>> {
    boxes.update(m, Seq::empty())
}

/// The model of one stored message.
pub open spec fn msg_view(m: (String, String)) -> Msg {
    (m.0@, m.1@)
}

/// The model of one stored mailbox: its messages, in arrival order.
pub open spec fn msg_views(s: Seq<(String, String)>) -> Seq<Msg> {
    s.map(|i: int, m: (String, String)| msg_view(m))
}

/// Storing one more message appends its model.
pub proof fn lemma_msg_views_push(s: Seq<(String, String)>, p: (String, String))
    ensures
        msg_views(s.push(p)) == msg_views(s).push(msg_view(p)),
{
    assert(msg_views(s.push(p)) =~= msg_views(s).push(msg_view(p)));
}

/// One stored registry entry: a topic and the mailbox indices subscribed to
/// it, in registration order.
pub type RegEntry = (String, Vec<usize>);

/// Each topic occurs at most once among the registry's entries.
pub open spec fn reg_unique(reg: Seq<RegEntry>) -> bool {
    forall|i: int, j: int| 0 <= i < j < reg.len() ==> reg[i].0@ != reg[j].0@
}

/// Some registry entry carries topic `t`.
pub open spec fn reg_has(reg: Seq<RegEntry>, t: Seq<char>) -> bool {
    exists|i: int| 0 <= i < reg.len() && (#[trigger] reg[i]).0@ == t
}

/// The position of topic `t`'s entry (meaningful only when `reg_has` holds
/// and the topics are unique).
pub open spec fn reg_index(reg: Seq<RegEntry>, t: Seq<char>) -> int {
    choose|i: int| 0 <= i < reg.len() && (#[trigger] reg[i]).0@ == t
}

/// Every mailbox index stored in the registry is below `n`.
pub open spec fn reg_ids_below(reg: Seq<RegEntry>, n: int) -> bool {
    forall|i: int, j: int|
        0 <= i < reg.len() && 0 <= j < reg[i].1@.len() ==> (#[trigger] reg[i].1@[j]) < n
}

/// The registry read as a map from a topic to its subscriber list.
pub open spec fn reg_map(reg: Seq<RegEntry>) -> Map<Seq<char>, Seq<usize>> {
    Map::new(|t: Seq<char>| reg_has(reg, t), |t: Seq<char>| reg[reg_index(reg, t)].1@)
}

/// With unique topics, entry `i` is exactly what the map view shows under
/// its topic.
pub proof fn lemma_reg_map_entry(reg: Seq<RegEntry>, i: int)
    requires
        reg_unique(reg),
        0 <= i < reg.len(),
    ensures
        reg_has(reg, reg[i].0@),
        reg_index(reg, reg[i].0@) == i,
        reg_map(reg).contains_key(reg[i].0@),
        reg_map(reg)[reg[i].0@] == reg[i].1@,
{
    assert(reg_has(reg, reg[i].0@));
    let j = reg_index(reg, reg[i].0@);
    assert(0 <= j < reg.len() && reg[j].0@ == reg[i].0@);
    if i < j {
        assert(reg[i].0@ != reg[j].0@);
    }
    if j < i {
        assert(reg[j].0@ != reg[i].0@);
    }
}

/// The views of a list of topics.
pub open spec fn topic_views(ts: Seq<String>) -> Seq<Seq<char>> {
    ts.map(|i: int, s: String| s@)
}

/// A topic's subscriber list, empty when the topic was never registered.
pub open spec fn list_of(topics: Map<Seq<char>, Seq<usize>>, t: Seq<char>) -> Seq<usize> {
    if topics.contains_key(t) {
        topics[t]
    } else {
        Seq::empty()
    }
}

/// Replacing entry `i`'s list, while keeping its topic, changes the map view
/// at that one topic and nowhere else.
pub proof fn lemma_reg_update_entry(reg: Seq<RegEntry>, i: int, e: RegEntry)
    requires
        reg_unique(reg),
        0 <= i < reg.len(),
        e.0@ == reg[i].0@,
    ensures
        reg_unique(reg.update(i, e)),
        forall|t: Seq<char>| reg_has(reg.update(i, e), t) <==> reg_has(reg, t),
        reg_map(reg.update(i, e))[e.0@] == e.1@,
        forall|t: Seq<char>|
            reg_has(reg, t) && t != e.0@ ==> reg_map(reg.update(i, e))[t] == reg_map(reg)[t],
{
    let reg2 = reg.update(i, e);
    assert(forall|l: int| 0 <= l < reg.len() ==> (#[trigger] reg2[l]).0@ == reg[l].0@);
    assert forall|t: Seq<char>| reg_has(reg2, t) <==> reg_has(reg, t) by {
        if reg_has(reg2, t) {
            let j = choose|j: int| 0 <= j < reg2.len() && (#[trigger] reg2[j]).0@ == t;
            assert(0 <= j < reg.len() && reg[j].0@ == t);
        }
        if reg_has(reg, t) {
            let j = choose|j: int| 0 <= j < reg.len() && (#[trigger] reg[j]).0@ == t;
            assert(0 <= j < reg2.len() && reg2[j].0@ == t);
        }
    }
    lemma_reg_map_entry(reg2, i);
    assert forall|t: Seq<char>|
        reg_has(reg, t) && t != e.0@ implies reg_map(reg2)[t] == reg_map(reg)[t] by {
        let j = choose|j: int| 0 <= j < reg.len() && (#[trigger] reg[j]).0@ == t;
        assert(j != i);
        lemma_reg_map_entry(reg, j);
        lemma_reg_map_entry(reg2, j);
        assert(reg2[j] == reg[j]);
    }
}

/// Appending an entry for a fresh topic adds that one topic to the map view
/// and leaves every other topic's list unchanged.
pub proof fn lemma_reg_push_entry(reg: Seq<RegEntry>, e: RegEntry)
    requires
        reg_unique(reg),
        !reg_has(reg, e.0@),
    ensures
        reg_unique(reg.push(e)),
        forall|t: Seq<char>| reg_has(reg.push(e), t) <==> (reg_has(reg, t) || t == e.0@),
        reg_map(reg.push(e))[e.0@] == e.1@,
        forall|t: Seq<char>| reg_has(reg, t) ==> reg_map(reg.push(e))[t] == reg_map(reg)[t],
{
    let reg2 = reg.push(e);
    assert(forall|l: int| 0 <= l < reg.len() ==> reg2[l] == (#[trigger] reg[l]));
    assert(reg2[reg.len() as int] == e);
    assert forall|i: int, j: int| 0 <= i < j < reg2.len() implies reg2[i].0@ != reg2[j].0@ by {
        if j < reg.len() {
            assert(reg[i].0@ != reg[j].0@);
        } else {
            assert(reg2[j].0@ == e.0@);
            assert(!(0 <= i < reg.len() && reg[i].0@ == e.0@));
        }
    }
    assert forall|t: Seq<char>| reg_has(reg2, t) <==> (reg_has(reg, t) || t == e.0@) by {
        if reg_has(reg2, t) {
            let j = choose|j: int| 0 <= j < reg2.len() && (#[trigger] reg2[j]).0@ == t;
            if j < reg.len() {
                assert(reg[j].0@ == t);
            }
        }
        if reg_has(reg, t) {
            let j = choose|j: int| 0 <= j < reg.len() && (#[trigger] reg[j]).0@ == t;
            assert(reg2[j].0@ == t);
        }
        if t == e.0@ {
            assert(reg2[reg.len() as int].0@ == t);
        }
    }
    lemma_reg_map_entry(reg2, reg.len() as int);
    assert forall|t: Seq<char>| reg_has(reg, t) implies reg_map(reg2)[t] == reg_map(reg)[t] by {
        let j = choose|j: int| 0 <= j < reg.len() && (#[trigger] reg[j]).0@ == t;
        lemma_reg_map_entry(reg, j);
        lemma_reg_map_entry(reg2, j);
    }
}

/// `n` copies of `x` and then one more are `n + 1` copies of `x`.
pub proof fn lemma_repeated_push<A>(n: nat, x: A)
    ensures
        repeated(n, x).push(x) == repeated(n + 1, x),
{
    assert(repeated(n, x).push(x) =~= repeated(n + 1, x));
}

/// No copies of anything is the empty sequence.
pub proof fn lemma_repeated_zero<A>(x: A)
    ensures
        repeated(0, x) == Seq::<A>::empty(),
{
    assert(repeated(0, x) =~= Seq::<A>::empty());
}

/// Appending the empty sequence changes nothing.
pub proof fn lemma_add_empty_right<A>(a: Seq<A>)
    ensures
        a + Seq::<A>::empty() == a,
{
    assert(a + Seq::<A>::empty() =~= a);
}

/// Taking one more topic appends that topic's view.
pub proof fn lemma_topic_views_take_push(ts: Seq<String>, k: int)
    requires
        0 <= k < ts.len(),
    ensures
        topic_views(ts.take(k + 1)) == topic_views(ts.take(k)).push(ts[k]@),
{
    assert(topic_views(ts.take(k + 1)) =~= topic_views(ts.take(k)).push(ts[k]@));
}

proof fn lemma_drop_last_of_push<A>(s: Seq<A>, x: A)
    ensures
        s.push(x).drop_last() == s,
        s.push(x).last() == x,
{
    assert(s.push(x).drop_last() =~= s);
}

/// Appending one element changes a count by one exactly when the element is
/// the counted one.
pub proof fn lemma_occurrences_push<A>(s: Seq<A>, x: A, y: A)
    ensures
        occurrences(s.push(x), y) == occurrences(s, y) + (if x == y {
            1nat
        } else {
            0nat
        }),
{
    lemma_drop_last_of_push(s, x);
}

/// The delivery count behaves the same way under one more registration.
pub proof fn lemma_deliveries_push(subs: Seq<usize>, x: usize, m: int)
    ensures
        deliveries(subs.push(x), m) == deliveries(subs, m) + (if x as int == m {
            1nat
        } else {
            0nat
        }),
{
    lemma_drop_last_of_push(subs, x);
}

} // verus!
