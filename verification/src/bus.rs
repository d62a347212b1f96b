//! The bus itself: the setup-phase [`Builder`], the open-phase [`Publisher`]
//! that owns the frozen registry together with every mailbox, and the
//! [`Subscriber`] handle that drains one mailbox.

use vstd::prelude::*;

use crate::model::Msg;
use crate::model::RegEntry;
use crate::model::deliveries;
use crate::model::drained;
use crate::model::lemma_add_empty_right;
use crate::model::lemma_deliveries_push;
use crate::model::lemma_msg_views_push;
use crate::model::lemma_occurrences_push;
use crate::model::lemma_reg_map_entry;
use crate::model::lemma_reg_push_entry;
use crate::model::lemma_reg_update_entry;
use crate::model::lemma_repeated_push;
use crate::model::lemma_repeated_zero;
use crate::model::lemma_topic_views_take_push;
use crate::model::list_of;
use crate::model::msg_view;
use crate::model::msg_views;
use crate::model::occurrences;
use crate::model::reg_has;
use crate::model::reg_ids_below;
use crate::model::reg_map;
use crate::model::reg_unique;
use crate::model::repeated;
use crate::model::route;
use crate::model::topic_views;

verus! {

/// Interface for receiving messages from the network. Created by calling
/// `Builder::add_subscriber()` during network setup; it drains exactly one
/// mailbox of that network.
pub struct Subscriber {
    id: usize,
}

impl Subscriber {
    /// The index of the mailbox this handle drains.
    pub closed spec fn mailbox_id(self) -> int {
        self.id as int
    }
}

/// Helper for building networks: it accumulates subscriber registrations.
/// Call `build()` to complete initialization; the builder is consumed, so no
/// subscriber can be added once the network is open.
pub struct Builder {
    registry: Vec<RegEntry>,
    n_mailboxes: usize,
}

impl Builder {
    /// The registry assembled so far: each topic mapped to the mailbox
    /// indices registered for it, in registration order.
    pub closed spec fn topics(self) -> Map<Seq<char>, Seq<usize>> {
        reg_map(self.registry@)
    }

    /// How many mailboxes have been handed out so far.
    pub closed spec fn mailbox_count(self) -> int {
        self.n_mailboxes as int
    }

    /// Topics occur at most once in the registry, and every registered
    /// mailbox index belongs to a handed-out subscriber.
    pub closed spec fn wf(self) -> bool {
        reg_unique(self.registry@) && reg_ids_below(self.registry@, self.n_mailboxes as int)
    }
}

/// Interface for sending messages to the network. It owns the frozen
/// registry and every subscriber's mailbox; subscribers drain their mailbox
/// through it.
pub struct Publisher {
    registry: Vec<RegEntry>,
    mailboxes: Vec<Vec<(String, String)>>,
}

impl Publisher {
    /// The frozen registry: each topic mapped to the mailbox indices
    /// registered for it, in registration order.
    pub closed spec fn topics(self) -> Map<Seq<char>, Seq<usize>> {
        reg_map(self.registry@)
    }

    /// How many mailboxes the network has.
    pub closed spec fn mailbox_count(self) -> int {
        self.mailboxes@.len() as int
    }

    /// The pending messages of every mailbox, in arrival order.
    pub closed spec fn mailboxes(self) -> Seq<Seq<Msg>> {
        self.mailboxes@.map(|i: int, mb: Vec<(String, String)>| msg_views(mb@))
    }

    /// Topics occur at most once in the registry, and every registered
    /// mailbox index names an existing mailbox.
    pub closed spec fn wf(self) -> bool {
        reg_unique(self.registry@) && reg_ids_below(self.registry@, self.mailboxes@.len() as int)
    }

    /// The mailbox model has exactly one entry per mailbox of the network,
    /// so a handle whose index is below `mailbox_count()` indexes it.
    pub proof fn lemma_mailbox_model_len(self)
        ensures
            self.mailboxes().len() == self.mailbox_count(),
    {
    }

    /// Called to initialize a network.
    pub fn new() -> (b: Builder)
        ensures
            b.wf(),
            b.topics() == Map::<Seq<char>, Seq<usize>>::empty(),
            b.mailbox_count() == 0,
    {
        let b = Builder { registry: Vec::new(), n_mailboxes: 0 };
        proof {
            assert(b.topics() =~= Map::<Seq<char>, Seq<usize>>::empty());
        }
        b
    }
}

/// The position of `topic`'s registry entry, if one exists.
fn find_topic(reg: &Vec<RegEntry>, topic: &String) -> (r: Option<usize>)
    ensures
        match r {
            Some(i) => 0 <= i < reg@.len() && reg@[i as int].0@ == topic@,
            None => !reg_has(reg@, topic@),
        },
{
    let mut i: usize = 0;
    while i < reg.len()
        invariant
            i <= reg@.len(),
            forall|j: int| 0 <= j < i ==> (#[trigger] reg@[j]).0@ != topic@,
        decreases reg@.len() - i,
    {
        if reg[i].0 == *topic {
            return Some(i);
        }
        i += 1;
    }
    None
}

impl Builder {
    /// Adds a subscriber to the network, with a complete list of the topics
    /// it expects to receive. This list cannot be modified later. A new
    /// mailbox is created and its index is appended to each listed topic's
    /// subscriber list, so registration order decides delivery order within
    /// a topic. Listing the same topic twice registers the mailbox twice
    /// under that topic, and a matching publish is then delivered twice:
    /// duplicates are deliberately kept, not collapsed.
    pub fn add_subscriber(&mut self, topics: &[String]) -> (sub: Subscriber)
        requires
            old(self).wf(),
            old(self).mailbox_count() < usize::MAX,
        ensures
            final(self).wf(),
            sub.mailbox_id() == old(self).mailbox_count(),
            final(self).mailbox_count() == old(self).mailbox_count() + 1,
            forall|t: Seq<char>|
                final(self).topics().contains_key(t) <==> (old(self).topics().contains_key(t)
                    || occurrences(topic_views(topics@), t) > 0),
            forall|t: Seq<char>|
                #[trigger] final(self).topics().contains_key(t) ==> final(self).topics()[t]
                    == list_of(old(self).topics(), t) + repeated(
                    occurrences(topic_views(topics@), t),
                    (old(self).mailbox_count() as usize),
                ),
    {
        let id = self.n_mailboxes;
        let ghost orig = self.registry@;
        proof {
            assert(topics@.take(0) =~= Seq::<String>::empty());
            assert forall|t: Seq<char>|
                reg_has(self.registry@, t) implies reg_map(self.registry@)[t] == list_of(
                reg_map(orig),
                t,
            ) + repeated(occurrences(topic_views(topics@.take(0)), t), id) by {
                lemma_repeated_zero::<usize>(id);
                lemma_add_empty_right(reg_map(orig)[t]);
            }
        }
        let mut k: usize = 0;
        while k < topics.len()
            invariant
                self.n_mailboxes == id,
                id < usize::MAX,
                k <= topics@.len(),
                reg_unique(self.registry@),
                reg_ids_below(self.registry@, id as int + 1),
                forall|t: Seq<char>|
                    #[trigger] reg_has(self.registry@, t) <==> (reg_has(orig, t) || occurrences(
                        topic_views(topics@.take(k as int)),
                        t,
                    ) > 0),
                forall|t: Seq<char>|
                    #[trigger] reg_has(self.registry@, t) ==> reg_map(self.registry@)[t]
                        == list_of(reg_map(orig), t) + repeated(
                        occurrences(topic_views(topics@.take(k as int)), t),
                        id,
                    ),
            decreases topics@.len() - k,
        {
            let ghost pre = self.registry@;
            let ghost tk = topics@[k as int]@;
            let topic = &topics[k];
            match find_topic(&self.registry, topic) {
                Some(i) => {
                    let ghost entry = pre[i as int];
                    self.registry[i].1.push(id);
                    proof {
                        let post = self.registry@;
                        let e2 = post[i as int];
                        assert(e2.0@ == tk && e2.1@ == entry.1@.push(id));
                        assert(post == pre.update(i as int, e2));
                        lemma_reg_update_entry(pre, i as int, e2);
                        lemma_reg_map_entry(pre, i as int);
                    }
                }
                None => {
                    let mut ids: Vec<usize> = Vec::new();
                    ids.push(id);
                    self.registry.push((topic.clone(), ids));
                    proof {
                        let post = self.registry@;
                        let e2 = post.last();
                        assert(e2.0@ == tk && e2.1@ == Seq::<usize>::empty().push(id));
                        assert(post == pre.push(e2));
                        lemma_reg_push_entry(pre, e2);
                    }
                }
            }
            proof {
                let post = self.registry@;
                lemma_topic_views_take_push(topics@, k as int);
                assert forall|t: Seq<char>|
                    reg_has(post, t) <==> (reg_has(orig, t) || occurrences(
                        topic_views(topics@.take(k as int + 1)),
                        t,
                    ) > 0) by {
                    lemma_occurrences_push(topic_views(topics@.take(k as int)), tk, t);
                    assert(reg_has(pre, t) <==> (reg_has(orig, t) || occurrences(
                        topic_views(topics@.take(k as int)),
                        t,
                    ) > 0));
                    if reg_has(pre, tk) {
                        assert(reg_has(post, t) <==> reg_has(pre, t));
                    } else {
                        assert(reg_has(post, t) <==> (reg_has(pre, t) || t == tk));
                    }
                }
                assert forall|t: Seq<char>| #[trigger] reg_has(post, t) implies reg_map(post)[t]
                    == list_of(reg_map(orig), t) + repeated(
                    occurrences(topic_views(topics@.take(k as int + 1)), t),
                    id,
                ) by {
                    lemma_occurrences_push(topic_views(topics@.take(k as int)), tk, t);
                    let c = occurrences(topic_views(topics@.take(k as int)), t);
                    if t == tk {
                        if reg_has(pre, t) {
                            assert(reg_map(post)[t] == reg_map(pre)[t].push(id));
                            Seq::push_distributes_over_add(
                                list_of(reg_map(orig), t),
                                repeated(c, id),
                                id,
                            );
                            lemma_repeated_push(c, id);
                        } else {
                            assert(reg_map(post)[t] == Seq::<usize>::empty().push(id));
                            assert(!reg_has(pre, t));
                            assert(c == 0);
                            lemma_repeated_zero::<usize>(id);
                            lemma_repeated_push(0, id);
                            assert(list_of(reg_map(orig), t) == Seq::<usize>::empty());
                            assert(list_of(reg_map(orig), t) + repeated(1, id) =~= Seq::<
                                usize,
                            >::empty().push(id));
                        }
                    } else {
                        assert(reg_has(pre, t));
                        assert(reg_map(post)[t] == reg_map(pre)[t]);
                    }
                }
                assert forall|i2: int, j2: int|
                    0 <= i2 < post.len() && 0 <= j2 < post[i2].1@.len() implies (
                #[trigger] post[i2].1@[j2]) < id as int + 1 by {
                    if i2 < pre.len() && post[i2] == pre[i2] {
                    }
                }
            }
            k += 1;
        }
        proof {
            assert(topics@.take(topics@.len() as int) =~= topics@);
        }
        self.n_mailboxes = id + 1;
        Subscriber { id }
    }

    /// Finishes network setup. The builder is consumed: no more subscribers
    /// can be added after this. Every registered topic and subscriber list
    /// carries over unchanged, and every mailbox starts out empty.
    pub fn build(self) -> (p: Publisher)
        requires
            self.wf(),
        ensures
            p.wf(),
            p.topics() == self.topics(),
            p.mailbox_count() == self.mailbox_count(),
            p.mailboxes().len() == p.mailbox_count(),
            forall|m: int| 0 <= m < p.mailbox_count() ==> p.mailboxes()[m] == Seq::<Msg>::empty(),
    {
        let Builder { registry, n_mailboxes } = self;
        let mut mailboxes: Vec<Vec<(String, String)>> = Vec::new();
        while mailboxes.len() < n_mailboxes
            invariant
                mailboxes@.len() <= n_mailboxes,
                forall|m: int| 0 <= m < mailboxes@.len() ==> (#[trigger] mailboxes@[m])@.len() == 0,
            decreases n_mailboxes - mailboxes@.len(),
        {
            mailboxes.push(Vec::new());
        }
        let p = Publisher { registry, mailboxes };
        proof {
            assert forall|m: int| 0 <= m < p.mailbox_count() implies p.mailboxes()[m]
                == Seq::<Msg>::empty() by {
                assert(p.mailboxes()[m] =~= Seq::<Msg>::empty());
            }
        }
        p
    }
}

impl Publisher {
    /// Sends a message to the network. All topic filtering is done on the
    /// publishing side, inside this call: the message is appended to the
    /// mailbox of every subscriber registered for its topic, in registration
    /// order and once per registration, as [`route`] states. Publishing a
    /// topic nobody registered for is a no-op, not an error.
    pub fn publish(&mut self, topic: String, content: String)
        requires
            old(self).wf(),
        ensures
            final(self).wf(),
            final(self).topics() == old(self).topics(),
            final(self).mailbox_count() == old(self).mailbox_count(),
            final(self).mailboxes() == route(
                old(self).topics(),
                old(self).mailboxes(),
                topic@,
                content@,
            ),
    {
        let ghost reg0 = self.registry@;
        let ghost boxes0 = self.mailboxes();
        let ghost t = topic@;
        let ghost c = content@;
        let idx = match find_topic(&self.registry, &topic) {
            Some(i) => i,
            None => {
                proof {
                    assert(!old(self).topics().contains_key(t));
                }
                return;
            },
        };
        proof {
            lemma_reg_map_entry(reg0, idx as int);
        }
        let ghost subs = reg0[idx as int].1@;
        let n = self.registry[idx].1.len();
        let mut j: usize = 0;
        while j < n
            invariant
                j <= n,
                n == subs.len(),
                self.registry@ == reg0,
                0 <= idx < reg0.len(),
                reg0[idx as int].1@ == subs,
                reg_unique(reg0),
                reg_ids_below(reg0, boxes0.len() as int),
                self.mailboxes@.len() == boxes0.len(),
                t == topic@,
                c == content@,
                forall|m: int|
                    0 <= m < boxes0.len() ==> #[trigger] msg_views(self.mailboxes@[m]@)
                        == boxes0[m] + repeated(deliveries(subs.take(j as int), m), (t, c)),
            decreases n - j,
        {
            let ghost prev = self.mailboxes@;
            let id = self.registry[idx].1[j];
            proof {
                assert(reg0[idx as int].1@[j as int] < boxes0.len() as int);
            }
            let msg = (topic.clone(), content.clone());
            self.mailboxes[id].push(msg);
            proof {
                assert(self.mailboxes@.len() == prev.len());
                assert(self.mailboxes@[id as int]@ == prev[id as int]@.push(msg));
                assert(forall|m: int|
                    0 <= m < prev.len() && m != id as int ==> self.mailboxes@[m] == #[trigger] prev[m]);
                lemma_msg_views_push(prev[id as int]@, msg);
                assert(subs.take(j as int + 1) =~= subs.take(j as int).push(subs[j as int]));
                assert forall|m: int|
                    0 <= m < boxes0.len() implies #[trigger] msg_views(self.mailboxes@[m]@)
                    == boxes0[m] + repeated(deliveries(subs.take(j as int + 1), m), (t, c)) by {
                    lemma_deliveries_push(subs.take(j as int), id, m);
                    assert(msg_views(prev[m]@) == boxes0[m] + repeated(
                        deliveries(subs.take(j as int), m),
                        (t, c),
                    ));
                    if m == id as int {
                        assert(msg_view(msg) == (t, c));
                        assert(msg_views(self.mailboxes@[m]@) == msg_views(prev[m]@).push(
                            (t, c),
                        ));
                        Seq::push_distributes_over_add(
                            boxes0[m],
                            repeated(deliveries(subs.take(j as int), m), (t, c)),
                            (t, c),
                        );
                        lemma_repeated_push(deliveries(subs.take(j as int), m), (t, c));
                    } else {
                        assert(self.mailboxes@[m] == prev[m]);
                    }
                }
            }
            j += 1;
        }
        proof {
            assert(subs.take(subs.len() as int) =~= subs);
            assert(old(self).topics().contains_key(t));
            assert(old(self).topics()[t] == subs);
            assert(self.mailboxes() =~= route(old(self).topics(), boxes0, t, c));
        }
    }
}

impl Subscriber {
    /// Consumes all pending messages in the subscriber's inbox: every queued
    /// message is returned, in arrival order, and the mailbox is left empty,
    /// so a second fetch with no publish in between returns nothing. The
    /// call never waits for more messages. The publisher owns the mailboxes,
    /// so it is handed in; a handle that does not name one of its mailboxes
    /// fetches nothing and changes nothing.
    pub fn fetch(&self, bus: &mut Publisher) -> (msgs: Vec<(String, String)>)
        requires
            old(bus).wf(),
        ensures
            final(bus).wf(),
            final(bus).topics() == old(bus).topics(),
            final(bus).mailbox_count() == old(bus).mailbox_count(),
            self.mailbox_id() < old(bus).mailbox_count() ==> (msg_views(msgs@) == old(bus).mailboxes()[self.mailbox_id()]
                && final(bus).mailboxes() == drained(old(bus).mailboxes(), self.mailbox_id())),
            self.mailbox_id() >= old(bus).mailbox_count() ==> (msgs@.len() == 0
                && final(bus).mailboxes() == old(bus).mailboxes()),
    {
        let id = self.id;
        if id >= bus.mailboxes.len() {
            return Vec::new();
        }
        let ghost prev = bus.mailboxes@;
        let mut msgs: Vec<(String, String)> = Vec::new();
        core::mem::swap(&mut msgs, &mut bus.mailboxes[id]);
        proof {
            assert(bus.mailboxes@.len() == prev.len());
            assert(bus.mailboxes@[id as int]@ == Seq::<(String, String)>::empty());
            assert(forall|m: int|
                0 <= m < prev.len() && m != id as int ==> bus.mailboxes@[m] == #[trigger] prev[m]);
            assert(msg_views(msgs@) == old(bus).mailboxes()[id as int]);
            assert(msg_views(Seq::<(String, String)>::empty()) =~= Seq::<Msg>::empty());
            assert(bus.mailboxes() =~= drained(old(bus).mailboxes(), id as int));
        }
        msgs
    }
}

} // verus!
