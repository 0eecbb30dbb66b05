//! The event router: a set of subscribers, each with the event kinds it
//! wants and a bounded queue. Delivery never waits: an event for a full
//! queue is dropped for that subscriber alone, so a slow strategy cannot
//! stall the router or starve its peers. Closed subscribers are swept
//! lazily after a strategy stops.

use vstd::prelude::*;

use crate::models::{EventType, MarketEvent};

verus! {

/// Capacity of each per-strategy queue; the backpressure bound.
pub const QUEUE_CAPACITY: usize = 100;

/// One subscriber: a strategy's inbound queue and delivery accounting.
#[derive(Debug)]
pub struct Subscriber {
    pub strategy_id: String,
    pub kinds: Vec<EventType>,
    /// Oldest event first.
    pub queue: Vec<MarketEvent>,
    /// Set when the owning strategy stops; swept on `unsubscribe_dead`.
    pub closed: bool,
    pub delivered: u64,
    pub dropped: u64,
}

/// Does the kind list contain `k`?
pub open spec fn subscribes(kinds: Seq<EventType>, k: EventType) -> bool {
    exists|i: int| 0 <= i < kinds.len() && kinds[i] == k
}

/// An open subscriber that wants this event's kind.
pub open spec fn wants(s: Subscriber, e: MarketEvent) -> bool {
    !s.closed && subscribes(s.kinds@, e.spec_get_type())
}

/// Room left in the bounded queue.
pub open spec fn has_space(s: Subscriber) -> bool {
    s.queue@.len() < QUEUE_CAPACITY
}

/// Add one, saturating at the top of u64.
pub open spec fn sat_inc(x: int) -> int {
    if x + 1 > u64::MAX as int {
        u64::MAX as int
    } else {
        x + 1
    }
}

/// What one dispatch does to one subscriber, as a function of that
/// subscriber's own state and the event alone: an unconcerned or closed
/// subscriber is untouched; a full queue costs that subscriber one drop;
/// otherwise the event is appended and counted as delivered.
pub open spec fn deliver_rel(pre: Subscriber, e: MarketEvent, post: Subscriber) -> bool {
    &&& post.strategy_id@ == pre.strategy_id@
    &&& post.kinds@ == pre.kinds@
    &&& post.closed == pre.closed
    &&& if wants(pre, e) && has_space(pre) {
        &&& post.queue@ == pre.queue@.push(e)
        &&& post.delivered == sat_inc(pre.delivered as int)
        &&& post.dropped == pre.dropped
    } else if wants(pre, e) {
        &&& post.queue@ == pre.queue@
        &&& post.delivered == pre.delivered
        &&& post.dropped == sat_inc(pre.dropped as int)
    } else {
        &&& post.queue@ == pre.queue@
        &&& post.delivered == pre.delivered
        &&& post.dropped == pre.dropped
    }
}

/// The open subscribers, in order.
pub open spec fn keep_open(s: Seq<Subscriber>) -> Seq<Subscriber>
    decreases s.len(),
{
    if s.len() == 0 {
        Seq::empty()
    } else if s[0].closed {
        keep_open(s.drop_first())
    } else {
        seq![s[0]] + keep_open(s.drop_first())
    }
}

/// Appending an element filters like the element demands.
proof fn lemma_keep_open_snoc(s: Seq<Subscriber>, x: Subscriber)
    ensures
        keep_open(s.push(x)) == if x.closed {
            keep_open(s)
        } else {
            keep_open(s).push(x)
        },
    decreases s.len(),
{
    if s.len() == 0 {
        assert(s.push(x)[0] == x);
        assert(s.push(x).drop_first() =~= Seq::<Subscriber>::empty());
        assert(keep_open(Seq::<Subscriber>::empty()) == Seq::<Subscriber>::empty());
        if x.closed {
            assert(keep_open(s.push(x)) =~= keep_open(s));
        } else {
            assert(keep_open(s.push(x)) == seq![x] + Seq::<Subscriber>::empty());
            assert(seq![x] + Seq::<Subscriber>::empty() =~= keep_open(s).push(x));
        }
    } else {
        assert(s.push(x)[0] == s[0]);
        assert(s.push(x).drop_first() =~= s.drop_first().push(x));
        lemma_keep_open_snoc(s.drop_first(), x);
        if s[0].closed {
            assert(keep_open(s.push(x)) == keep_open(s.drop_first().push(x)));
            assert(keep_open(s) == keep_open(s.drop_first()));
        } else {
            assert(keep_open(s.push(x)) == seq![s[0]] + keep_open(s.drop_first().push(x)));
            assert(keep_open(s) == seq![s[0]] + keep_open(s.drop_first()));
            if !x.closed {
                assert(seq![s[0]] + keep_open(s.drop_first()).push(x) =~= (seq![s[0]] + keep_open(
                    s.drop_first(),
                )).push(x));
            }
        }
    }
}

/// A swept subscriber list holds open subscribers only.
pub proof fn lemma_keep_open_open(s: Seq<Subscriber>)
    ensures
        forall|k: int| 0 <= k < keep_open(s).len() ==> !(#[trigger] keep_open(s)[k]).closed,
    decreases s.len(),
{
    if s.len() > 0 {
        lemma_keep_open_open(s.drop_first());
        if !s[0].closed {
            assert(keep_open(s) == seq![s[0]] + keep_open(s.drop_first()));
            assert forall|k: int| 0 <= k < keep_open(s).len() implies !(#[trigger] keep_open(
                s,
            )[k]).closed by {
                if k == 0 {
                    assert(keep_open(s)[0] == s[0]);
                } else {
                    assert(keep_open(s)[k] == keep_open(s.drop_first())[k - 1]);
                }
            }
        } else {
            assert(keep_open(s) == keep_open(s.drop_first()));
        }
    }
}

/// Every survivor of a sweep comes from the swept list.
pub proof fn lemma_keep_open_elems(s: Seq<Subscriber>)
    ensures
        forall|k: int|
            #![trigger keep_open(s)[k]]
            0 <= k < keep_open(s).len() ==> exists|j: int|
                0 <= j < s.len() && (#[trigger] s[j]) == keep_open(s)[k],
    decreases s.len(),
{
    if s.len() > 0 {
        lemma_keep_open_elems(s.drop_first());
        assert forall|k: int| #![trigger keep_open(s)[k]] 0 <= k < keep_open(s).len() implies exists|
            j: int,
        | 0 <= j < s.len() && (#[trigger] s[j]) == keep_open(s)[k] by {
            if s[0].closed {
                assert(keep_open(s) == keep_open(s.drop_first()));
                let j = choose|j: int|
                    0 <= j < s.drop_first().len() && (#[trigger] s.drop_first()[j]) == keep_open(
                        s.drop_first(),
                    )[k];
                assert(s[j + 1] == keep_open(s)[k]);
            } else {
                assert(keep_open(s) == seq![s[0]] + keep_open(s.drop_first()));
                if k == 0 {
                    assert(s[0] == keep_open(s)[0]);
                } else {
                    assert(keep_open(s)[k] == keep_open(s.drop_first())[k - 1]);
                    let j = choose|j: int|
                        0 <= j < s.drop_first().len() && (#[trigger] s.drop_first()[j])
                            == keep_open(s.drop_first())[k - 1];
                    assert(s[j + 1] == keep_open(s)[k]);
                }
            }
        }
    }
}

/// The router itself: just its subscribers.
#[derive(Debug)]
pub struct Router {
    pub subs: Vec<Subscriber>,
}

/// Does this kind list carry `k`?
fn contains_kind(kinds: &Vec<EventType>, k: EventType) -> (r: bool)
    ensures
        r == subscribes(kinds@, k),
{
    let n = kinds.len();
    let mut i: usize = 0;
    while i < n
        invariant
            n == kinds@.len(),
            i <= n,
            forall|j: int| 0 <= j < i ==> kinds@[j] != k,
        decreases n - i,
    {
        if kinds[i] == k {
            return true;
        }
        i += 1;
    }
    false
}

impl Router {
    /// A router with no subscribers.
    pub fn new() -> (r: Router)
        ensures
            r.subs@.len() == 0,
    {
        Router { subs: Vec::new() }
    }

    /// Register a strategy's queue under the kinds it wants.
    pub fn subscribe(&mut self, strategy_id: &str, kinds: &Vec<EventType>)
        ensures
            final(self).subs@.len() == old(self).subs@.len() + 1,
            forall|i: int|
                0 <= i < old(self).subs@.len() ==> final(self).subs@[i] == old(self).subs@[i],
            ({
                let s = final(self).subs@.last();
                &&& s.strategy_id@ == strategy_id@
                &&& s.kinds@ == kinds@
                &&& s.queue@.len() == 0
                &&& !s.closed
                &&& s.delivered == 0
                &&& s.dropped == 0
            }),
    {
        let mut own_kinds: Vec<EventType> = Vec::new();
        let n = kinds.len();
        let mut i: usize = 0;
        while i < n
            invariant
                n == kinds@.len(),
                i <= n,
                own_kinds@ =~= kinds@.take(i as int),
            decreases n - i,
        {
            own_kinds.push(kinds[i]);
            proof {
                assert(kinds@.take(i + 1 as int) =~= kinds@.take(i as int).push(kinds@[i as int]));
            }
            i += 1;
        }
        proof {
            assert(kinds@.take(n as int) =~= kinds@);
        }
        self.subs.push(
            Subscriber {
                strategy_id: strategy_id.to_owned(),
                kinds: own_kinds,
                queue: Vec::new(),
                closed: false,
                delivered: 0,
                dropped: 0,
            },
        );
    }

    /// Deliver an event to every open subscriber of its kind; a full queue
    /// drops the event for that subscriber only.
    pub fn dispatch(&mut self, event: &MarketEvent)
        ensures
            final(self).subs@.len() == old(self).subs@.len(),
            forall|i: int|
                0 <= i < old(self).subs@.len() ==> deliver_rel(
                    old(self).subs@[i],
                    *event,
                    #[trigger] final(self).subs@[i],
                ),
    {
        let n = self.subs.len();
        let mut i: usize = 0;
        while i < n
            invariant
                n == self.subs@.len(),
                i <= n,
                forall|k: int|
                    0 <= k < i ==> deliver_rel(
                        old(self).subs@[k],
                        *event,
                        #[trigger] self.subs@[k],
                    ),
                forall|k: int| i <= k < n ==> self.subs@[k] == old(self).subs@[k],
            decreases n - i,
        {
            let kind = event.get_type();
            if !self.subs[i].closed && contains_kind(&self.subs[i].kinds, kind) {
                if self.subs[i].queue.len() < QUEUE_CAPACITY {
                    let copy = event.duplicate();
                    self.subs[i].queue.push(copy);
                    let d = self.subs[i].delivered;
                    self.subs[i].delivered = if d == u64::MAX {
                        d
                    } else {
                        d + 1
                    };
                } else {
                    let d = self.subs[i].dropped;
                    self.subs[i].dropped = if d == u64::MAX {
                        d
                    } else {
                        d + 1
                    };
                }
            }
            i += 1;
        }
    }

    /// Take the oldest queued event of subscriber `i`, if any.
    pub fn pop_event(&mut self, i: usize) -> (r: Option<MarketEvent>)
        requires
            i < old(self).subs@.len(),
        ensures
            final(self).subs@.len() == old(self).subs@.len(),
            forall|k: int|
                0 <= k < old(self).subs@.len() && k != i ==> final(self).subs@[k] == old(
                    self,
                ).subs@[k],
            ({
                let pre = old(self).subs@[i as int];
                let post = final(self).subs@[i as int];
                &&& post.strategy_id@ == pre.strategy_id@
                &&& post.kinds@ == pre.kinds@
                &&& post.closed == pre.closed
                &&& post.delivered == pre.delivered
                &&& post.dropped == pre.dropped
                &&& if pre.queue@.len() == 0 {
                    r is None && post.queue@ == pre.queue@
                } else {
                    r == Some(pre.queue@[0]) && post.queue@ == pre.queue@.drop_first()
                }
            }),
    {
        if self.subs[i].queue.len() == 0 {
            None
        } else {
            let e = self.subs[i].queue.remove(0);
            proof {
                assert(old(self).subs@[i as int].queue@.remove(0) =~= old(
                    self,
                ).subs@[i as int].queue@.drop_first());
            }
            Some(e)
        }
    }

    /// Mark every subscriber of this strategy closed; it stops receiving
    /// and the next sweep removes it.
    pub fn mark_closed(&mut self, strategy_id: &String)
        ensures
            final(self).subs@.len() == old(self).subs@.len(),
            forall|i: int|
                0 <= i < old(self).subs@.len() ==> {
                    let pre = old(self).subs@[i];
                    let post = #[trigger] final(self).subs@[i];
                    if pre.strategy_id@ == strategy_id@ {
                        &&& post.strategy_id@ == pre.strategy_id@
                        &&& post.kinds@ == pre.kinds@
                        &&& post.queue@ == pre.queue@
                        &&& post.closed
                        &&& post.delivered == pre.delivered
                        &&& post.dropped == pre.dropped
                    } else {
                        post == pre
                    }
                },
    {
        let n = self.subs.len();
        let mut i: usize = 0;
        while i < n
            invariant
                n == self.subs@.len(),
                i <= n,
                forall|k: int|
                    0 <= k < i ==> {
                        let pre = old(self).subs@[k];
                        let post = #[trigger] self.subs@[k];
                        if pre.strategy_id@ == strategy_id@ {
                            &&& post.strategy_id@ == pre.strategy_id@
                            &&& post.kinds@ == pre.kinds@
                            &&& post.queue@ == pre.queue@
                            &&& post.closed
                            &&& post.delivered == pre.delivered
                            &&& post.dropped == pre.dropped
                        } else {
                            post == pre
                        }
                    },
                forall|k: int| i <= k < n ==> self.subs@[k] == old(self).subs@[k],
            decreases n - i,
        {
            if self.subs[i].strategy_id == *strategy_id {
                self.subs[i].closed = true;
            }
            i += 1;
        }
    }

    /// Sweep: drop closed subscribers, keeping the order of the rest.
    pub fn unsubscribe_dead(&mut self)
        ensures
            final(self).subs@ == keep_open(old(self).subs@),
    {
        let ghost orig = self.subs@;
        let mut kept: Vec<Subscriber> = Vec::new();
        let mut i: usize = 0;
        let n = self.subs.len();
        while self.subs.len() > 0
            invariant
                self.subs@ =~= orig.skip(i as int),
                i + self.subs@.len() == n,
                n == orig.len(),
                kept@ == keep_open(orig.take(i as int)),
            decreases self.subs@.len(),
        {
            let s = self.subs.remove(0);
            proof {
                assert(s == orig[i as int]);
                assert(orig.skip(i as int).remove(0) =~= orig.skip(i + 1 as int));
                lemma_keep_open_snoc(orig.take(i as int), orig[i as int]);
                assert(orig.take(i + 1 as int) =~= orig.take(i as int).push(orig[i as int]));
            }
            if !s.closed {
                kept.push(s);
            }
            i += 1;
        }
        proof {
            assert(orig.take(i as int) =~= orig);
        }
        self.subs = kept;
    }
}

/// Router isolation: dispatch treats each subscriber as a function of that
/// subscriber's own state and the event alone. Two subscribers with the
/// same own state — whatever the rest of their routers hold, however slow
/// or full their peers are — see the same delivery, the same drop and the
/// same queue growth; a drop for a full queue is charged only to the
/// subscriber that is full.
pub proof fn lemma_router_isolation(
    a1: Subscriber,
    b1: Subscriber,
    a2: Subscriber,
    b2: Subscriber,
    e: MarketEvent,
)
    requires
        deliver_rel(a1, e, b1),
        deliver_rel(a2, e, b2),
        a1.closed == a2.closed,
        a1.kinds@ == a2.kinds@,
        a1.queue@.len() == a2.queue@.len(),
        a1.delivered == a2.delivered,
        a1.dropped == a2.dropped,
    ensures
        b1.delivered == b2.delivered,
        b1.dropped == b2.dropped,
        b1.queue@.len() == b2.queue@.len(),
        b1.delivered >= a1.delivered,
{
}

} // verus!
