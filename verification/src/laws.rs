//! The bus's delivery guarantees, stated over the model that the contracts
//! of `publish` and `fetch` use, and proved once for every network.

use vstd::prelude::*;

use crate::model::Msg;
use crate::model::deliveries;
use crate::model::drained;
use crate::model::lemma_add_empty_right;
use crate::model::lemma_repeated_zero;
use crate::model::repeated;
use crate::model::route;

verus! {

/// Mailbox `m` is registered for no topic other than `t`: publishing under
/// any other topic delivers nothing to it.
pub open spec fn registered_only_for(
    topics: Map<Seq<char>, Seq<usize>>,
    m: int,
    t: Seq<char>,
) -> bool {
    forall|u: Seq<char>|
        #[trigger] topics.contains_key(u) && u != t ==> deliveries(topics[u], m) == 0
}

/// Topic isolation: a subscriber registered only for `t1` never receives a
/// message published under a different topic `t2`; its mailbox stays
/// exactly as it was, so no fetch ever yields it.
pub proof fn lemma_topic_isolation(
    topics: Map<Seq<char>, Seq<usize>>,
    boxes: Seq<Seq<Msg>>,
    t1: Seq<char>,
    t2: Seq<char>,
    c: Seq<char>,
    m: int,
)
    requires
        t1 != t2,
        registered_only_for(topics, m, t1),
        0 <= m < boxes.len(),
    ensures
        route(topics, boxes, t2, c)[m] == boxes[m],
{
    if topics.contains_key(t2) {
        assert(deliveries(topics[t2], m) == 0);
        lemma_repeated_zero::<Msg>((t2, c));
        lemma_add_empty_right(boxes[m]);
    }
}

/// Fan-out completeness: publishing `(t, c)` once appends exactly one copy
/// of the message to the mailbox of every subscriber registered exactly
/// once for `t`, so that subscriber's next fetch includes it exactly once.
pub proof fn lemma_fan_out_completeness(
    topics: Map<Seq<char>, Seq<usize>>,
    boxes: Seq<Seq<Msg>>,
    t: Seq<char>,
    c: Seq<char>,
    m: int,
)
    requires
        topics.contains_key(t),
        deliveries(topics[t], m) == 1,
        0 <= m < boxes.len(),
    ensures
        route(topics, boxes, t, c)[m] == boxes[m].push((t, c)),
{
    assert(boxes[m] + repeated(1, (t, c)) =~= boxes[m].push((t, c)));
}

/// Order preservation: publishing `(t, a)` and then `(t, b)` leaves a
/// subscriber registered once for `t` with `a` before `b` in its mailbox,
/// so a fetch yields them in publish order.
pub proof fn lemma_order_preservation(
    topics: Map<Seq<char>, Seq<usize>>,
    boxes: Seq<Seq<Msg>>,
    t: Seq<char>,
    a: Seq<char>,
    b: Seq<char>,
    m: int,
)
    requires
        topics.contains_key(t),
        deliveries(topics[t], m) == 1,
        0 <= m < boxes.len(),
    ensures
        route(topics, route(topics, boxes, t, a), t, b)[m] == boxes[m] + seq![(t, a), (t, b)],
{
    let mid = route(topics, boxes, t, a);
    lemma_fan_out_completeness(topics, boxes, t, a, m);
    lemma_fan_out_completeness(topics, mid, t, b, m);
    assert(boxes[m].push((t, a)).push((t, b)) =~= boxes[m] + seq![(t, a), (t, b)]);
}

/// No-op on unknown topic: publishing a topic with zero registered
/// subscribers leaves every mailbox untouched, and `publish`'s contract
/// makes it error-free on every input.
pub proof fn lemma_unknown_topic_no_op(
    topics: Map<Seq<char>, Seq<usize>>,
    boxes: Seq<Seq<Msg>>,
    t: Seq<char>,
    c: Seq<char>,
)
    requires
        !topics.contains_key(t),
    ensures
        route(topics, boxes, t, c) == boxes,
{
}

/// Drain semantics: a fetch returns the whole mailbox and empties it, so a
/// second fetch with no publish in between yields the empty sequence and
/// changes nothing.
pub proof fn lemma_drain_semantics(boxes: Seq<Seq<Msg>>, m: int)
    requires
        0 <= m < boxes.len(),
    ensures
        drained(boxes, m)[m] == Seq::<Msg>::empty(),
        drained(drained(boxes, m), m) == drained(boxes, m),
{
    assert(drained(drained(boxes, m), m) =~= drained(boxes, m));
}

} // verus!
