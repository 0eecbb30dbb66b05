//! The strategy orchestrator: the map of running strategies, reconciled
//! against each published allocation set. Strategies that lost their
//! allocation stop and their router subscriptions are swept; newly
//! allocated ones are built from the registry, configured from their spec,
//! and subscribed. A strategy present in both sets keeps running untouched.

use vstd::prelude::*;

use crate::models::{MarketEvent, StrategyAction, StrategyAllocation, StrategySpec};
use crate::router::Router;
use crate::strategies::{
    any_fires, build_strategy, buildable, fired_order, same_kind, spec_param, AnyStrategy,
};

verus! {

/// One running strategy: its id and its decision state. The concurrent
/// runtime's task handle and channel live with the process; the
/// orchestrator owns what the strategy decides with.
#[derive(Debug)]
pub struct ActiveStrategy {
    pub id: String,
    pub strategy: AnyStrategy,
}

/// Is `id` one of the allocated ids?
pub open spec fn allocated(allocs: Seq<StrategyAllocation>, id: Seq<char>) -> bool {
    exists|i: int| 0 <= i < allocs.len() && (#[trigger] allocs[i]).id@ == id
}

/// Is `id` among the running strategies?
pub open spec fn active_has(active: Seq<ActiveStrategy>, id: Seq<char>) -> bool {
    exists|i: int| 0 <= i < active.len() && (#[trigger] active[i]).id@ == id
}

/// The registry's configuration text for `id`: its first spec's params, or
/// empty text when the registry does not know the id.
pub open spec fn spec_params_of(specs: Seq<StrategySpec>, id: Seq<char>) -> Seq<char>
    decreases specs.len(),
{
    if specs.len() == 0 {
        Seq::empty()
    } else if specs[0].id@ == id {
        specs[0].params@
    } else {
        spec_params_of(specs.drop_first(), id)
    }
}

/// The running strategies whose ids are still allocated, in order.
pub open spec fn keep_allocated(
    s: Seq<ActiveStrategy>,
    allocs: Seq<StrategyAllocation>,
) -> Seq<ActiveStrategy>
    decreases s.len(),
{
    if s.len() == 0 {
        Seq::empty()
    } else if allocated(allocs, s[0].id@) {
        seq![s[0]] + keep_allocated(s.drop_first(), allocs)
    } else {
        keep_allocated(s.drop_first(), allocs)
    }
}

/// Can this allocation cycle start `id` afresh: allocated, not running,
/// constructible, and its registry configuration parses.
pub open spec fn can_start(
    pre: Seq<ActiveStrategy>,
    specs: Seq<StrategySpec>,
    allocs: Seq<StrategyAllocation>,
    id: Seq<char>,
) -> bool {
    &&& allocated(allocs, id)
    &&& !active_has(pre, id)
    &&& buildable(id)
    &&& spec_param(spec_params_of(specs, id)) is Some
}

/// Every router subscriber belongs to a running strategy: a stopped
/// strategy's queues are gone, so events can no longer reach it.
pub open spec fn subs_of_active(
    subs: Seq<crate::router::Subscriber>,
    active: Seq<ActiveStrategy>,
) -> bool {
    forall|k: int|
        0 <= k < subs.len() ==> active_has(active, (#[trigger] subs[k]).strategy_id@)
}

/// A strategy value as `init` leaves a fresh one: the variant of its id,
/// threshold configured to `v`, state empty.
pub open spec fn configured_strategy(id: Seq<char>, v: int, s: AnyStrategy) -> bool {
    match s {
        AnyStrategy::Bridge(b) => id == "bridge_inflow"@ && b.min_bridge_volume_usd == v
            && b.tokens_with_recent_inflow@.len() == 0,
        AnyStrategy::Migration(m) => id == "liquidity_migration"@ && m.min_volume_migrate_usd == v
            && m.migrated_tokens@.len() == 0,
        AnyStrategy::Basis(p) => id == "perp_basis_arb"@ && p.basis_threshold_pct == v
            && p.spot_prices@.len() == 0 && p.perp_funding_rates@.len() == 0,
    }
}

/// The orchestrator state: running strategies, the router, and the
/// registry snapshot it configures new strategies from.
#[derive(Debug)]
pub struct Orchestrator {
    pub active: Vec<ActiveStrategy>,
    pub router: Router,
    pub specs: Vec<StrategySpec>,
}

/// What one reconcile run does, as a relation between the state before and
/// the state after: the registry is untouched; the still-allocated
/// strategies survive in front, in order and untouched — no restart; every
/// entry appended after them is a freshly configured strategy this cycle
/// could start; an id runs afterwards if and only if it is allocated and
/// either already ran or could be started; no id runs twice; every router
/// subscriber is open; and a run that stops and starts nothing leaves the
/// router alone.
pub open spec fn reconcile_rel(
    pre: Orchestrator,
    allocs: Seq<StrategyAllocation>,
    post: Orchestrator,
) -> bool {
    let kept = keep_allocated(pre.active@, allocs);
    &&& post.specs@ == pre.specs@
    &&& kept.len() <= post.active@.len()
    &&& post.active@.subrange(0, kept.len() as int) == kept
    &&& forall|k: int|
        kept.len() <= k < post.active@.len() ==> {
            let e = #[trigger] post.active@[k];
            &&& can_start(pre.active@, pre.specs@, allocs, e.id@)
            &&& configured_strategy(
                e.id@,
                spec_param(spec_params_of(pre.specs@, e.id@))->0,
                e.strategy,
            )
        }
    &&& forall|id: Seq<char>|
        #[trigger] active_has(post.active@, id) <==> ((active_has(pre.active@, id) && allocated(
            allocs,
            id,
        )) || can_start(pre.active@, pre.specs@, allocs, id))
    &&& forall|i: int, j: int|
        0 <= i < j < post.active@.len() ==> (#[trigger] post.active@[i]).id@ != (
        #[trigger] post.active@[j]).id@
    &&& forall|k: int|
        0 <= k < post.router.subs@.len() ==> !(#[trigger] post.router.subs@[k]).closed
    &&& subs_of_active(post.router.subs@, post.active@)
    &&& ((kept == pre.active@ && post.active@.len() == kept.len()) ==> post.router
        == pre.router)
}

/// Elements of `keep_allocated` are allocated and come from the source.
proof fn lemma_keep_allocated_elems(s: Seq<ActiveStrategy>, allocs: Seq<StrategyAllocation>)
    ensures
        forall|k: int|
            0 <= k < keep_allocated(s, allocs).len() ==> allocated(
                allocs,
                (#[trigger] keep_allocated(s, allocs)[k]).id@,
            ) && active_has(s, keep_allocated(s, allocs)[k].id@),
    decreases s.len(),
{
    if s.len() > 0 {
        lemma_keep_allocated_elems(s.drop_first(), allocs);
        assert forall|id: Seq<char>| active_has(s.drop_first(), id) implies active_has(
            s,
            id,
        ) by {
            let i = choose|i: int|
                0 <= i < s.drop_first().len() && (#[trigger] s.drop_first()[i]).id@ == id;
            assert(s[i + 1].id@ == id);
        }
    }
}

/// When every running id stays allocated, the filter keeps everything.
proof fn lemma_keep_allocated_identity(s: Seq<ActiveStrategy>, allocs: Seq<StrategyAllocation>)
    requires
        forall|k: int| 0 <= k < s.len() ==> allocated(allocs, (#[trigger] s[k]).id@),
    ensures
        keep_allocated(s, allocs) == s,
    decreases s.len(),
{
    if s.len() > 0 {
        assert(forall|k: int|
            0 <= k < s.drop_first().len() ==> allocated(
                allocs,
                (#[trigger] s.drop_first()[k]).id@,
            ));
        lemma_keep_allocated_identity(s.drop_first(), allocs);
        assert(seq![s[0]] + s.drop_first() =~= s);
    }
}

/// A still-allocated running id survives the filter.
proof fn lemma_keep_allocated_complete(
    s: Seq<ActiveStrategy>,
    allocs: Seq<StrategyAllocation>,
    id: Seq<char>,
)
    requires
        active_has(s, id),
        allocated(allocs, id),
    ensures
        active_has(keep_allocated(s, allocs), id),
    decreases s.len(),
{
    let i = choose|i: int| 0 <= i < s.len() && (#[trigger] s[i]).id@ == id;
    if i == 0 {
        assert(keep_allocated(s, allocs)[0].id@ == id);
    } else {
        assert(s.drop_first()[i - 1].id@ == id);
        assert(active_has(s.drop_first(), id));
        lemma_keep_allocated_complete(s.drop_first(), allocs, id);
        let k = choose|k: int|
            0 <= k < keep_allocated(s.drop_first(), allocs).len() && (#[trigger] keep_allocated(
                s.drop_first(),
                allocs,
            )[k]).id@ == id;
        if allocated(allocs, s[0].id@) {
            assert(keep_allocated(s, allocs)[k + 1].id@ == id);
        }
    }
}

/// Filtering keeps ids pairwise distinct.
proof fn lemma_keep_allocated_unique(s: Seq<ActiveStrategy>, allocs: Seq<StrategyAllocation>)
    requires
        forall|i: int, j: int|
            0 <= i < j < s.len() ==> (#[trigger] s[i]).id@ != (#[trigger] s[j]).id@,
    ensures
        forall|i: int, j: int|
            0 <= i < j < keep_allocated(s, allocs).len() ==> (#[trigger] keep_allocated(
                s,
                allocs,
            )[i]).id@ != (#[trigger] keep_allocated(s, allocs)[j]).id@,
    decreases s.len(),
{
    if s.len() > 0 {
        let tail = s.drop_first();
        assert forall|i: int, j: int|
            0 <= i < j < tail.len() implies (#[trigger] tail[i]).id@ != (
        #[trigger] tail[j]).id@ by {
            assert(s[i + 1].id@ != s[j + 1].id@);
        }
        lemma_keep_allocated_unique(tail, allocs);
        lemma_keep_allocated_elems(tail, allocs);
        if allocated(allocs, s[0].id@) {
            let kt = keep_allocated(tail, allocs);
            assert forall|k: int| 0 <= k < kt.len() implies (#[trigger] kt[k]).id@ != s[0].id@ by {
                assert(active_has(tail, kt[k].id@));
                let t = choose|t: int| 0 <= t < tail.len() && (#[trigger] tail[t]).id@ == kt[k].id@;
                assert(s[t + 1].id@ == kt[k].id@);
                assert(s[0].id@ != s[t + 1].id@);
            }
            assert(forall|k: int|
                1 <= k < keep_allocated(s, allocs).len() ==> #[trigger] keep_allocated(
                    s,
                    allocs,
                )[k] == kt[k - 1]);
        }
    }
}

/// Filtering by allocation distributes over appending one entry.
proof fn lemma_keep_allocated_snoc(
    s: Seq<ActiveStrategy>,
    x: ActiveStrategy,
    allocs: Seq<StrategyAllocation>,
)
    ensures
        keep_allocated(s.push(x), allocs) == if allocated(allocs, x.id@) {
            keep_allocated(s, allocs).push(x)
        } else {
            keep_allocated(s, allocs)
        },
    decreases s.len(),
{
    if s.len() == 0 {
        assert(s.push(x)[0] == x);
        assert(s.push(x).drop_first() =~= Seq::<ActiveStrategy>::empty());
        assert(keep_allocated(Seq::<ActiveStrategy>::empty(), allocs) == Seq::<
            ActiveStrategy,
        >::empty());
        if allocated(allocs, x.id@) {
            assert(keep_allocated(s.push(x), allocs) == seq![x] + Seq::<ActiveStrategy>::empty());
            assert(seq![x] + Seq::<ActiveStrategy>::empty() =~= keep_allocated(s, allocs).push(x));
        } else {
            assert(keep_allocated(s.push(x), allocs) =~= keep_allocated(s, allocs));
        }
    } else {
        assert(s.push(x)[0] == s[0]);
        assert(s.push(x).drop_first() =~= s.drop_first().push(x));
        lemma_keep_allocated_snoc(s.drop_first(), x, allocs);
        if allocated(allocs, s[0].id@) {
            assert(keep_allocated(s.push(x), allocs) == seq![s[0]] + keep_allocated(
                s.drop_first().push(x),
                allocs,
            ));
            assert(keep_allocated(s, allocs) == seq![s[0]] + keep_allocated(
                s.drop_first(),
                allocs,
            ));
            if allocated(allocs, x.id@) {
                assert(seq![s[0]] + keep_allocated(s.drop_first(), allocs).push(x) =~= (seq![s[0]]
                    + keep_allocated(s.drop_first(), allocs)).push(x));
            }
        } else {
            assert(keep_allocated(s.push(x), allocs) == keep_allocated(
                s.drop_first().push(x),
                allocs,
            ));
            assert(keep_allocated(s, allocs) == keep_allocated(s.drop_first(), allocs));
        }
    }
}

/// Pushing one entry extends membership by exactly its id.
proof fn lemma_active_has_push(s: Seq<ActiveStrategy>, e: ActiveStrategy, id: Seq<char>)
    ensures
        active_has(s.push(e), id) <==> (active_has(s, id) || e.id@ == id),
{
    if active_has(s, id) {
        let i = choose|i: int| 0 <= i < s.len() && (#[trigger] s[i]).id@ == id;
        assert(s.push(e)[i].id@ == id);
    }
    if e.id@ == id {
        assert(s.push(e)[s.len() as int].id@ == id);
    }
    if active_has(s.push(e), id) {
        let i = choose|i: int| 0 <= i < s.push(e).len() && (#[trigger] s.push(e)[i]).id@ == id;
        if i < s.len() {
            assert(s[i].id@ == id);
        }
    }
}

/// One more allocation entry extends the allocated ids by exactly its id.
proof fn lemma_allocated_take_succ(allocs: Seq<StrategyAllocation>, j: int, id: Seq<char>)
    requires
        0 <= j < allocs.len(),
    ensures
        allocated(allocs.take(j + 1), id) <==> (allocated(allocs.take(j), id) || allocs[j].id@
            == id),
{
    if allocated(allocs.take(j), id) {
        let i = choose|i: int|
            0 <= i < allocs.take(j).len() && (#[trigger] allocs.take(j)[i]).id@ == id;
        assert(allocs.take(j + 1)[i].id@ == id);
    }
    if allocs[j].id@ == id {
        assert(allocs.take(j + 1)[j].id@ == id);
    }
    if allocated(allocs.take(j + 1), id) {
        let i = choose|i: int|
            0 <= i < allocs.take(j + 1).len() && (#[trigger] allocs.take(j + 1)[i]).id@ == id;
        if i < j {
            assert(allocs.take(j)[i].id@ == id);
        }
    }
}

/// Reconcile idempotence: applying the same allocation set twice yields the
/// same running strategies — the same values, so nothing is rebuilt or
/// restarted — and the same router subscriptions; the second run stops and
/// starts nothing.
pub proof fn lemma_reconcile_idempotent(
    s0: Orchestrator,
    allocs: Seq<StrategyAllocation>,
    s1: Orchestrator,
    s2: Orchestrator,
)
    requires
        reconcile_rel(s0, allocs, s1),
        reconcile_rel(s1, allocs, s2),
    ensures
        s2.active@ == s1.active@,
        s2.router.subs@ == s1.router.subs@,
{
    let kept0 = keep_allocated(s0.active@, allocs);
    assert forall|k: int| 0 <= k < s1.active@.len() implies allocated(
        allocs,
        (#[trigger] s1.active@[k]).id@,
    ) by {
        if k < kept0.len() {
            lemma_keep_allocated_elems(s0.active@, allocs);
            assert(s1.active@.subrange(0, kept0.len() as int)[k] == s1.active@[k]);
            assert(kept0[k] == s1.active@[k]);
        }
    }
    lemma_keep_allocated_identity(s1.active@, allocs);
    let kept1 = keep_allocated(s1.active@, allocs);
    assert(kept1 == s1.active@);
    if s2.active@.len() > kept1.len() {
        // anything the second run could append, the first run either kept
        // or started already, with the same registry
        let e = s2.active@[kept1.len() as int];
        assert(can_start(s1.active@, s1.specs@, allocs, e.id@));
        assert(active_has(s1.active@, e.id@) <==> ((active_has(s0.active@, e.id@) && allocated(
            allocs,
            e.id@,
        )) || can_start(s0.active@, s0.specs@, allocs, e.id@)));
        assert(!active_has(s1.active@, e.id@));
        assert(s1.specs@ == s0.specs@);
        assert(false);
    }
    assert(s2.active@.len() == kept1.len());
    assert(s2.active@.subrange(0, kept1.len() as int) =~= s2.active@);
    assert(s2.active@ == s1.active@);
}

/// Membership of an id in the allocation set.
fn alloc_contains(allocs: &Vec<StrategyAllocation>, id: &String) -> (r: bool)
    ensures
        r == allocated(allocs@, id@),
{
    let n = allocs.len();
    let mut i: usize = 0;
    while i < n
        invariant
            n == allocs@.len(),
            i <= n,
            forall|j: int| 0 <= j < i ==> (#[trigger] allocs@[j]).id@ != id@,
        decreases n - i,
    {
        if allocs[i].id == *id {
            return true;
        }
        i += 1;
    }
    false
}

/// Membership of an id among the running strategies.
fn active_contains(active: &Vec<ActiveStrategy>, id: &String) -> (r: bool)
    ensures
        r == active_has(active@, id@),
{
    let n = active.len();
    let mut i: usize = 0;
    while i < n
        invariant
            n == active@.len(),
            i <= n,
            forall|j: int| 0 <= j < i ==> (#[trigger] active@[j]).id@ != id@,
        decreases n - i,
    {
        if active[i].id == *id {
            return true;
        }
        i += 1;
    }
    false
}

/// The registry text for an id, empty when the registry lacks it.
fn params_of(specs: &Vec<StrategySpec>, id: &String) -> (r: String)
    ensures
        r@ == spec_params_of(specs@, id@),
{
    let n = specs.len();
    let mut i: usize = 0;
    proof {
        assert(specs@.skip(0) =~= specs@);
    }
    while i < n
        invariant
            n == specs@.len(),
            i <= n,
            spec_params_of(specs@, id@) == spec_params_of(specs@.skip(i as int), id@),
        decreases n - i,
    {
        proof {
            assert(specs@.skip(i as int)[0] == specs@[i as int]);
            assert(specs@.skip(i as int).drop_first() =~= specs@.skip(i + 1 as int));
        }
        if specs[i].id == *id {
            return specs[i].params.clone();
        }
        i += 1;
    }
    String::new()
}

impl Orchestrator {
    /// Ids run at most once, no router subscriber is closed between
    /// reconciles, and every subscriber belongs to a running strategy.
    pub open spec fn inv(&self) -> bool {
        &&& forall|i: int, j: int|
            0 <= i < j < self.active@.len() ==> (#[trigger] self.active@[i]).id@ != (
            #[trigger] self.active@[j]).id@
        &&& forall|k: int|
            0 <= k < self.router.subs@.len() ==> !(#[trigger] self.router.subs@[k]).closed
        &&& subs_of_active(self.router.subs@, self.active@)
    }

    /// A fresh orchestrator around a registry snapshot.
    pub fn new(specs: Vec<StrategySpec>) -> (r: Orchestrator)
        ensures
            r.inv(),
            r.active@.len() == 0,
            r.router.subs@.len() == 0,
            r.specs@ == specs@,
    {
        Orchestrator { active: Vec::new(), router: Router::new(), specs }
    }

    /// Bring the running set in line with an allocation snapshot: stop what
    /// lost its allocation and sweep its subscriptions, start what gained
    /// one, leave the rest running untouched. Returns how many strategies
    /// stopped and the ids started, in order.
    pub fn reconcile(&mut self, allocs: &Vec<StrategyAllocation>) -> (r: (usize, Vec<String>))
        requires
            old(self).inv(),
        ensures
            final(self).inv(),
            reconcile_rel(*old(self), allocs@, *final(self)),
            r.0 == old(self).active@.len() - keep_allocated(old(self).active@, allocs@).len(),
            r.1@.len() == final(self).active@.len() - keep_allocated(
                old(self).active@,
                allocs@,
            ).len(),
    {
        let ghost orig = self.active@;
        let ghost pre = *old(self);
        // stop: retain the still-allocated strategies, in order
        let mut kept: Vec<ActiveStrategy> = Vec::new();
        let mut stopped: usize = 0;
        let mut i: usize = 0;
        let n = self.active.len();
        while self.active.len() > 0
            invariant
                self.active@ =~= orig.skip(i as int),
                i + self.active@.len() == n,
                n == orig.len(),
                kept@ == keep_allocated(orig.take(i as int), allocs@),
                kept@.len() + stopped == i,
                self.specs@ == pre.specs@,
                self.router.subs@.len() == pre.router.subs@.len(),
                stopped == 0 ==> self.router == pre.router,
                forall|k: int|
                    0 <= k < self.router.subs@.len() ==> (#[trigger] self.router.subs@[k]).closed
                        || active_has(self.active@, self.router.subs@[k].strategy_id@)
                        || active_has(kept@, self.router.subs@[k].strategy_id@),
            decreases self.active@.len(),
        {
            let ghost remainder = self.active@;
            let ghost kept_pre = kept@;
            let ghost subs_pre = self.router.subs@;
            let entry = self.active.remove(0);
            proof {
                assert(entry == orig[i as int]);
                assert(orig.skip(i as int).remove(0) =~= orig.skip(i + 1 as int));
                lemma_keep_allocated_snoc(orig.take(i as int), orig[i as int], allocs@);
                assert(orig.take(i + 1 as int) =~= orig.take(i as int).push(orig[i as int]));
                remainder.remove_ensures(0);
            }
            if alloc_contains(allocs, &entry.id) {
                kept.push(entry);
                proof {
                    assert forall|k: int|
                        0 <= k < self.router.subs@.len() implies (
                    #[trigger] self.router.subs@[k]).closed || active_has(
                        self.active@,
                        self.router.subs@[k].strategy_id@,
                    ) || active_has(kept@, self.router.subs@[k].strategy_id@) by {
                        let sid = self.router.subs@[k].strategy_id@;
                        lemma_active_has_push(kept_pre, entry, sid);
                        if !self.router.subs@[k].closed && !active_has(kept@, sid) {
                            if active_has(remainder, sid) {
                                let j = choose|j: int|
                                    0 <= j < remainder.len() && (#[trigger] remainder[j]).id@
                                        == sid;
                                if j == 0 {
                                    assert(entry.id@ == sid);
                                    assert(active_has(kept@, sid));
                                } else {
                                    assert(self.active@[j - 1] == remainder[j]);
                                    assert(active_has(self.active@, sid));
                                }
                            }
                        }
                    }
                }
            } else {
                self.router.mark_closed(&entry.id);
                stopped = stopped + 1;
                proof {
                    assert forall|k: int|
                        0 <= k < self.router.subs@.len() implies (
                    #[trigger] self.router.subs@[k]).closed || active_has(
                        self.active@,
                        self.router.subs@[k].strategy_id@,
                    ) || active_has(kept@, self.router.subs@[k].strategy_id@) by {
                        if !self.router.subs@[k].closed {
                            // this subscriber did not match the stopped id
                            assert(self.router.subs@[k] == subs_pre[k]);
                            let sid = self.router.subs@[k].strategy_id@;
                            assert(sid != entry.id@);
                            if active_has(remainder, sid) {
                                let j = choose|j: int|
                                    0 <= j < remainder.len() && (#[trigger] remainder[j]).id@
                                        == sid;
                                assert(j != 0);
                                assert(self.active@[j - 1] == remainder[j]);
                                assert(active_has(self.active@, sid));
                            }
                        }
                    }
                }
            }
            i += 1;
        }
        proof {
            assert(orig.take(i as int) =~= orig);
            assert(self.active@.len() == 0);
            assert forall|k: int|
                0 <= k < self.router.subs@.len() implies (
            #[trigger] self.router.subs@[k]).closed || active_has(
                kept@,
                self.router.subs@[k].strategy_id@,
            ) by {}
        }
        self.active = kept;
        if stopped > 0 {
            let ghost presweep = self.router.subs@;
            self.router.unsubscribe_dead();
            proof {
                crate::router::lemma_keep_open_open(presweep);
                crate::router::lemma_keep_open_elems(presweep);
                assert forall|k: int|
                    0 <= k < self.router.subs@.len() implies active_has(
                    self.active@,
                    (#[trigger] self.router.subs@[k]).strategy_id@,
                ) by {
                    let j = choose|j: int|
                        0 <= j < presweep.len() && (#[trigger] presweep[j])
                            == crate::router::keep_open(presweep)[k];
                    assert(self.router.subs@[k] == presweep[j]);
                    assert(!self.router.subs@[k].closed);
                }
            }
        } else {
            proof {
                assert forall|k: int|
                    0 <= k < self.router.subs@.len() implies active_has(
                    self.active@,
                    (#[trigger] self.router.subs@[k]).strategy_id@,
                ) by {
                    assert(!pre.router.subs@[k].closed);
                }
            }
        }
        let ghost base = self.active@;
        let ghost router_b0 = self.router;
        proof {
            assert(base == keep_allocated(orig, allocs@));
            lemma_keep_allocated_elems(orig, allocs@);
            lemma_keep_allocated_unique(orig, allocs@);
            assert(self.active@.subrange(0, base.len() as int) =~= base);
            assert(allocs@.take(0) =~= Seq::<StrategyAllocation>::empty());
        }
        // start: walk the allocation set, building what is not yet running
        let mut started: Vec<String> = Vec::new();
        let m = allocs.len();
        let mut j: usize = 0;
        while j < m
            invariant
                m == allocs@.len(),
                j <= m,
                self.specs@ == pre.specs@,
                base == keep_allocated(orig, allocs@),
                base.len() <= self.active@.len(),
                self.active@.subrange(0, base.len() as int) == base,
                started@.len() == self.active@.len() - base.len(),
                forall|k: int|
                    base.len() <= k < self.active@.len() ==> {
                        let e = #[trigger] self.active@[k];
                        &&& can_start(orig, pre.specs@, allocs@, e.id@)
                        &&& configured_strategy(
                            e.id@,
                            spec_param(spec_params_of(pre.specs@, e.id@))->0,
                            e.strategy,
                        )
                    },
                forall|id: Seq<char>|
                    #[trigger] active_has(self.active@, id) <==> (active_has(base, id) || (
                    can_start(orig, pre.specs@, allocs@, id) && allocated(
                        allocs@.take(j as int),
                        id,
                    ))),
                forall|i1: int, j1: int|
                    0 <= i1 < j1 < self.active@.len() ==> (#[trigger] self.active@[i1]).id@ != (
                    #[trigger] self.active@[j1]).id@,
                forall|k: int|
                    0 <= k < self.router.subs@.len() ==> !(
                    #[trigger] self.router.subs@[k]).closed,
                subs_of_active(self.router.subs@, self.active@),
                started@.len() == 0 ==> self.router == router_b0,
            decreases m - j,
        {
            let id = allocs[j].id.clone();
            proof {
                lemma_allocated_take_succ(allocs@, j as int, id@);
            }
            if !active_contains(&self.active, &id) {
                match build_strategy(id.as_str()) {
                    Some(strategy) => {
                        let mut strategy = strategy;
                        let params = params_of(&self.specs, &id);
                        match strategy.init(params.as_str()) {
                            Ok(_) => {
                                let kinds = strategy.subscriptions();
                                let ghost subs_b = self.router.subs@;
                                self.router.subscribe(id.as_str(), &kinds);
                                let entry = ActiveStrategy { id: id.clone(), strategy };
                                proof {
                                    // the id was not running before this cycle:
                                    // an allocated running id would have been kept
                                    assert((allocs@[j as int]).id@ == id@);
                                    assert(allocated(allocs@, id@));
                                    if active_has(orig, id@) {
                                        lemma_keep_allocated_complete(orig, allocs@, id@);
                                        assert(active_has(base, id@));
                                        assert(active_has(self.active@, id@));
                                        assert(false);
                                    }
                                    assert(can_start(orig, pre.specs@, allocs@, id@));
                                    assert(configured_strategy(
                                        id@,
                                        spec_param(spec_params_of(pre.specs@, id@))->0,
                                        entry.strategy,
                                    ));
                                    lemma_active_has_push(self.active@, entry, id@);
                                }
                                let ghost before_push = self.active@;
                                self.active.push(entry);
                                started.push(id);
                                proof {
                                    assert(self.active@.subrange(0, base.len() as int)
                                        =~= before_push.subrange(0, base.len() as int));
                                    assert forall|idq: Seq<char>|
                                        #[trigger] active_has(self.active@, idq) <==> (active_has(
                                        base,
                                        idq,
                                    ) || (can_start(orig, pre.specs@, allocs@, idq) && allocated(
                                        allocs@.take(j + 1 as int),
                                        idq,
                                    ))) by {
                                        lemma_active_has_push(before_push, entry, idq);
                                        lemma_allocated_take_succ(allocs@, j as int, idq);
                                    }
                                    assert forall|k: int|
                                        0 <= k < self.router.subs@.len() implies active_has(
                                        self.active@,
                                        (#[trigger] self.router.subs@[k]).strategy_id@,
                                    ) by {
                                        let sid = self.router.subs@[k].strategy_id@;
                                        lemma_active_has_push(before_push, entry, sid);
                                        if k < subs_b.len() {
                                            assert(self.router.subs@[k] == subs_b[k]);
                                            assert(active_has(before_push, sid));
                                        } else {
                                            assert(self.router.subs@[k]
                                                == self.router.subs@.last());
                                            assert(sid == id@);
                                        }
                                    }
                                }
                            },
                            Err(_) => {
                                proof {
                                    lemma_take_step_no_change(
                                        orig,
                                        pre.specs@,
                                        allocs@,
                                        j as int,
                                        base,
                                        self.active@,
                                    );
                                }
                            },
                        }
                    },
                    None => {
                        proof {
                            lemma_take_step_no_change(
                                orig,
                                pre.specs@,
                                allocs@,
                                j as int,
                                base,
                                self.active@,
                            );
                        }
                    },
                }
            } else {
                proof {
                    lemma_take_step_no_change(
                        orig,
                        pre.specs@,
                        allocs@,
                        j as int,
                        base,
                        self.active@,
                    );
                }
            }
            j += 1;
        }
        proof {
            assert(allocs@.take(m as int) =~= allocs@);
            assert(base == keep_allocated(pre.active@, allocs@));
            assert forall|id: Seq<char>|
                #[trigger] active_has(self.active@, id) <==> ((active_has(orig, id) && allocated(
                    allocs@,
                    id,
                )) || can_start(orig, pre.specs@, allocs@, id)) by {
                assert(active_has(self.active@, id) <==> (active_has(base, id) || (can_start(
                    orig,
                    pre.specs@,
                    allocs@,
                    id,
                ) && allocated(allocs@, id))));
                if active_has(base, id) {
                    let k = choose|k: int| 0 <= k < base.len() && (#[trigger] base[k]).id@ == id;
                    assert(allocated(allocs@, base[k].id@) && active_has(orig, base[k].id@));
                }
                if active_has(orig, id) && allocated(allocs@, id) {
                    lemma_keep_allocated_complete(orig, allocs@, id);
                }
            }
            if keep_allocated(pre.active@, allocs@) == pre.active@ && self.active@.len()
                == keep_allocated(pre.active@, allocs@).len() {
                assert(stopped == 0);
                assert(started@.len() == 0);
            }
        }
        (stopped, started)
    }

    /// Route one event to every subscribed open queue.
    pub fn dispatch_event(&mut self, event: &MarketEvent)
        requires
            old(self).inv(),
        ensures
            final(self).inv(),
            final(self).active@ == old(self).active@,
            final(self).specs@ == old(self).specs@,
            final(self).router.subs@.len() == old(self).router.subs@.len(),
            forall|i: int|
                0 <= i < old(self).router.subs@.len() ==> crate::router::deliver_rel(
                    old(self).router.subs@[i],
                    *event,
                    #[trigger] final(self).router.subs@[i],
                ),
    {
        self.router.dispatch(event);
        proof {
            assert forall|k: int|
                0 <= k < self.router.subs@.len() implies active_has(
                self.active@,
                (#[trigger] self.router.subs@[k]).strategy_id@,
            ) by {
                assert(crate::router::deliver_rel(
                    old(self).router.subs@[k],
                    *event,
                    self.router.subs@[k],
                ));
                assert(self.router.subs@[k].strategy_id@
                    == old(self).router.subs@[k].strategy_id@);
            }
        }
    }

    /// Let running strategy `idx` decide on one event, as its task does for
    /// each event drained from its queue.
    pub fn on_event_for(&mut self, idx: usize, event: &MarketEvent) -> (r: StrategyAction)
        requires
            old(self).inv(),
            idx < old(self).active@.len(),
        ensures
            final(self).inv(),
            final(self).router == old(self).router,
            final(self).specs@ == old(self).specs@,
            final(self).active@.len() == old(self).active@.len(),
            forall|k: int|
                0 <= k < old(self).active@.len() && k != idx ==> final(self).active@[k] == old(
                    self,
                ).active@[k],
            final(self).active@[idx as int].id@ == old(self).active@[idx as int].id@,
            same_kind(
                old(self).active@[idx as int].strategy,
                final(self).active@[idx as int].strategy,
            ),
            (r is Execute) <==> any_fires(old(self).active@[idx as int].strategy, *event),
            r matches StrategyAction::Execute(d) ==> fired_order(
                old(self).active@[idx as int].strategy,
                *event,
                d,
            ),
            crate::strategies::state_evolution(
                old(self).active@[idx as int].strategy,
                final(self).active@[idx as int].strategy,
                *event,
            ),
    {
        let r = {
            let entry = &mut self.active[idx];
            entry.strategy.on_event(event)
        };
        proof {
            assert forall|k: int|
                0 <= k < self.router.subs@.len() implies active_has(
                self.active@,
                (#[trigger] self.router.subs@[k]).strategy_id@,
            ) by {
                let sid = self.router.subs@[k].strategy_id@;
                assert(active_has(old(self).active@, sid));
                let j = choose|j: int|
                    0 <= j < old(self).active@.len() && (#[trigger] old(self).active@[j]).id@
                        == sid;
                assert(self.active@[j].id@ == sid);
            }
        }
        r
    }
}

/// A skipped allocation entry changes nothing: the membership
/// characterization steps from `j` to `j + 1` when the id at `j` is either
/// already running or cannot start.
proof fn lemma_take_step_no_change(
    orig: Seq<ActiveStrategy>,
    specs: Seq<StrategySpec>,
    allocs: Seq<StrategyAllocation>,
    j: int,
    base: Seq<ActiveStrategy>,
    cur: Seq<ActiveStrategy>,
)
    requires
        0 <= j < allocs.len(),
        forall|id: Seq<char>|
            #[trigger] active_has(cur, id) <==> (active_has(base, id) || (can_start(
                orig,
                specs,
                allocs,
                id,
            ) && allocated(allocs.take(j), id))),
        active_has(cur, allocs[j].id@) || !can_start(orig, specs, allocs, allocs[j].id@),
    ensures
        forall|id: Seq<char>|
            #[trigger] active_has(cur, id) <==> (active_has(base, id) || (can_start(
                orig,
                specs,
                allocs,
                id,
            ) && allocated(allocs.take(j + 1), id))),
{
    assert forall|id: Seq<char>|
        #[trigger] active_has(cur, id) <==> (active_has(base, id) || (can_start(
            orig,
            specs,
            allocs,
            id,
        ) && allocated(allocs.take(j + 1), id))) by {
        lemma_allocated_take_succ(allocs, j, id);
    }
}

} // verus!
