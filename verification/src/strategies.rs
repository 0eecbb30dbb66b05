//! The strategy population: each strategy maps the market-event stream to
//! order decisions, holding its own private state. Thresholds configured
//! by the registry arrive as decimal text in micro-units and are parsed by
//! `init`; a strategy whose configuration does not parse is skipped for the
//! allocation cycle.

use vstd::prelude::*;

use crate::codec::spec_take_i64;
use crate::codec::parse_i64_str;
use crate::models::{EventType, MarketEvent, OrderDetails, Side, StrategyAction};

verus! {

/// Strategy-level failures.
#[derive(Clone, Copy, Debug, PartialEq, Eq, Structural)]
pub enum StrategyError {
    /// The configuration text did not parse as a decimal integer.
    BadParams,
}

/// The configured value of a parameter text: the whole text as one signed
/// decimal integer, or nothing.
pub open spec fn spec_param(s: Seq<char>) -> Option<int> {
    match spec_take_i64(s, 0) {
        Some((v, e)) => if e == s.len() {
            Some(v)
        } else {
            None
        },
        None => None,
    }
}

/// Is some element of `ts` the string `t`?
pub open spec fn seq_contains_str(ts: Seq<String>, t: Seq<char>) -> bool {
    exists|i: int| 0 <= i < ts.len() && #[trigger] ts[i]@ == t
}

/// Does the association list bind `k` to `v` at its first occurrence of `k`?
pub open spec fn assoc_first(m: Seq<(String, i64)>, k: Seq<char>, v: i64) -> bool
    decreases m.len(),
{
    if m.len() == 0 {
        false
    } else if m[0].0@ == k {
        m[0].1 == v
    } else {
        assoc_first(m.drop_first(), k, v)
    }
}

/// Buys tokens whose one-minute volume looks like a bridge inflow: more
/// than twice the configured minimum, once per token.
#[derive(Debug)]
pub struct BridgeInflow {
    /// Micro-USD.
    pub min_bridge_volume_usd: i64,
    pub tokens_with_recent_inflow: Vec<String>,
}

/// Buys tokens on a volume spike that looks like liquidity migrating in:
/// more than the configured minimum, once per token.
#[derive(Debug)]
pub struct LiquidityMigration {
    /// Micro-USD.
    pub min_volume_migrate_usd: i64,
    pub migrated_tokens: Vec<String>,
}

/// Trades the perp basis: a synthetic funding rate proportional to volume,
/// shorting a positive basis and buying a negative one past the threshold.
#[derive(Debug)]
pub struct PerpBasisArb {
    /// Micro-percent.
    pub basis_threshold_pct: i64,
    pub spot_prices: Vec<(String, i64)>,
    pub perp_funding_rates: Vec<(String, i64)>,
}

/// Does `BridgeInflow` fire on this event in this state?
pub open spec fn bridge_fires(min: int, seen: Seq<String>, e: MarketEvent) -> bool {
    e matches MarketEvent::Price(t) && (t.volume_usd_1m as int) > 2 * min && !seq_contains_str(
        seen,
        t.token_address@,
    )
}

/// Does `LiquidityMigration` fire on this event in this state?
pub open spec fn migration_fires(min: int, seen: Seq<String>, e: MarketEvent) -> bool {
    e matches MarketEvent::Price(t) && (t.volume_usd_1m as int) > min && !seq_contains_str(
        seen,
        t.token_address@,
    )
}

/// Does `PerpBasisArb` fire, and short? The synthetic basis of a tick is
/// `volume / 1e9` as a fraction of one, compared against the threshold
/// `pct / 100` by exact cross-multiplication:
/// `|volume_micro| * 1e-15 > thr_micro_pct * 1e-8`.
pub open spec fn basis_fires(thr: int, e: MarketEvent) -> bool {
    e matches MarketEvent::Price(t) && abs_int(t.volume_usd_1m as int) > thr * 10_000_000
}

pub open spec fn abs_int(x: int) -> int {
    if x < 0 {
        -x
    } else {
        x
    }
}

/// The synthetic funding rate `PerpBasisArb` records for a tick: the
/// one-minute volume divided by 1e9, truncated toward zero.
pub open spec fn spec_funding_rate(vol: int) -> int {
    if vol >= 0 {
        vol / 1_000_000_000
    } else {
        -((-vol) / 1_000_000_000)
    }
}

/// Membership test against a token list.
fn contains_token(ts: &Vec<String>, t: &String) -> (r: bool)
    ensures
        r == seq_contains_str(ts@, t@),
{
    let n = ts.len();
    let mut i: usize = 0;
    while i < n
        invariant
            n == ts@.len(),
            i <= n,
            forall|j: int| 0 <= j < i ==> #[trigger] ts@[j]@ != t@,
        decreases n - i,
    {
        if ts[i] == *t {
            return true;
        }
        i += 1;
    }
    false
}

/// Bind `k` to `v` in the association list: overwrite the first binding or
/// append a new one.
fn assoc_set(m: &mut Vec<(String, i64)>, k: &String, v: i64)
    ensures
        assoc_first(final(m)@, k@, v),
{
    let n = m.len();
    let mut i: usize = 0;
    while i < n
        invariant
            n == m@.len(),
            i <= n,
            forall|j: int| 0 <= j < i ==> #[trigger] m@[j].0@ != k@,
        decreases n - i,
    {
        if m[i].0 == *k {
            let key = m[i].0.clone();
            m.set(i, (key, v));
            proof {
                lemma_assoc_first_at(m@, k@, v, i as int);
            }
            return ;
        }
        i += 1;
    }
    m.push((k.clone(), v));
    proof {
        lemma_assoc_first_at(m@, k@, v, n as int);
    }
}

/// The first binding of `k` sits at `i` and holds `v`.
proof fn lemma_assoc_first_at(m: Seq<(String, i64)>, k: Seq<char>, v: i64, i: int)
    requires
        0 <= i < m.len(),
        m[i].0@ == k,
        m[i].1 == v,
        forall|j: int| 0 <= j < i ==> #[trigger] m[j].0@ != k,
    ensures
        assoc_first(m, k, v),
    decreases i,
{
    if i > 0 {
        lemma_assoc_first_at(m.drop_first(), k, v, i - 1);
    }
}

impl BridgeInflow {
    pub fn id(&self) -> (r: &'static str)
        ensures
            r@ == "bridge_inflow"@,
    {
        "bridge_inflow"
    }

    pub fn subscriptions(&self) -> (r: Vec<EventType>)
        ensures
            r@ =~= seq![EventType::Price],
    {
        let mut v = Vec::new();
        v.push(EventType::Price);
        v
    }

    pub fn init(&mut self, params: &str) -> (r: Result<(), StrategyError>)
        ensures
            match spec_param(params@) {
                Some(v) => r is Ok && final(self).min_bridge_volume_usd == v && final(self).tokens_with_recent_inflow@ == old(self).tokens_with_recent_inflow@,
                None => r == Result::<(), StrategyError>::Err(StrategyError::BadParams) && *final(self) == *old(self),
            },
    {
        match parse_i64_str(params) {
            Some(v) => {
                self.min_bridge_volume_usd = v;
                Ok(())
            },
            None => Err(StrategyError::BadParams),
        }
    }

    pub fn on_event(&mut self, event: &MarketEvent) -> (r: StrategyAction)
        ensures
            final(self).min_bridge_volume_usd == old(self).min_bridge_volume_usd,
            if bridge_fires(
                old(self).min_bridge_volume_usd as int,
                old(self).tokens_with_recent_inflow@,
                *event,
            ) {
                &&& event matches MarketEvent::Price(t) && final(self).tokens_with_recent_inflow@ == old(self).tokens_with_recent_inflow@.push(
                    t.token_address,
                )
                &&& r matches StrategyAction::Execute(d) && (event matches MarketEvent::Price(t)
                    ==> {
                    &&& d.token_address@ == t.token_address@
                    &&& d.suggested_size_usd == 800_000_000
                    &&& d.confidence == 750_000
                    &&& d.side == Side::Long
                })
            } else {
                r == StrategyAction::Hold && final(self).tokens_with_recent_inflow@ == old(self).tokens_with_recent_inflow@
            },
    {
        if let MarketEvent::Price(tick) = event {
            let fires = ((tick.volume_usd_1m as i128) > 2 * (self.min_bridge_volume_usd as i128))
                && !contains_token(&self.tokens_with_recent_inflow, &tick.token_address);
            if fires {
                self.tokens_with_recent_inflow.push(tick.token_address.clone());
                return StrategyAction::Execute(
                    OrderDetails {
                        token_address: tick.token_address.clone(),
                        suggested_size_usd: 800_000_000,
                        confidence: 750_000,
                        side: Side::Long,
                    },
                );
            }
        }
        StrategyAction::Hold
    }
}

impl LiquidityMigration {
    pub fn id(&self) -> (r: &'static str)
        ensures
            r@ == "liquidity_migration"@,
    {
        "liquidity_migration"
    }

    pub fn subscriptions(&self) -> (r: Vec<EventType>)
        ensures
            r@ =~= seq![EventType::Price],
    {
        let mut v = Vec::new();
        v.push(EventType::Price);
        v
    }

    pub fn init(&mut self, params: &str) -> (r: Result<(), StrategyError>)
        ensures
            match spec_param(params@) {
                Some(v) => r is Ok && final(self).min_volume_migrate_usd == v && final(self).migrated_tokens@ == old(self).migrated_tokens@,
                None => r == Result::<(), StrategyError>::Err(StrategyError::BadParams) && *final(self) == *old(self),
            },
    {
        match parse_i64_str(params) {
            Some(v) => {
                self.min_volume_migrate_usd = v;
                Ok(())
            },
            None => Err(StrategyError::BadParams),
        }
    }

    pub fn on_event(&mut self, event: &MarketEvent) -> (r: StrategyAction)
        ensures
            final(self).min_volume_migrate_usd == old(self).min_volume_migrate_usd,
            if migration_fires(
                old(self).min_volume_migrate_usd as int,
                old(self).migrated_tokens@,
                *event,
            ) {
                &&& event matches MarketEvent::Price(t) && final(self).migrated_tokens@ == old(self).migrated_tokens@.push(t.token_address)
                &&& r matches StrategyAction::Execute(d) && (event matches MarketEvent::Price(t)
                    ==> {
                    &&& d.token_address@ == t.token_address@
                    &&& d.suggested_size_usd == 700_000_000
                    &&& d.confidence == 800_000
                    &&& d.side == Side::Long
                })
            } else {
                r == StrategyAction::Hold && final(self).migrated_tokens@ == old(self).migrated_tokens@
            },
    {
        if let MarketEvent::Price(tick) = event {
            let fires = ((tick.volume_usd_1m as i128) > (self.min_volume_migrate_usd as i128))
                && !contains_token(&self.migrated_tokens, &tick.token_address);
            if fires {
                self.migrated_tokens.push(tick.token_address.clone());
                return StrategyAction::Execute(
                    OrderDetails {
                        token_address: tick.token_address.clone(),
                        suggested_size_usd: 700_000_000,
                        confidence: 800_000,
                        side: Side::Long,
                    },
                );
            }
        }
        StrategyAction::Hold
    }
}

impl PerpBasisArb {
    pub fn id(&self) -> (r: &'static str)
        ensures
            r@ == "perp_basis_arb"@,
    {
        "perp_basis_arb"
    }

    pub fn subscriptions(&self) -> (r: Vec<EventType>)
        ensures
            r@ =~= seq![EventType::Price],
    {
        let mut v = Vec::new();
        v.push(EventType::Price);
        v
    }

    pub fn init(&mut self, params: &str) -> (r: Result<(), StrategyError>)
        ensures
            match spec_param(params@) {
                Some(v) => r is Ok && final(self).basis_threshold_pct == v && final(self).spot_prices@ == old(self).spot_prices@ && final(self).perp_funding_rates@ == old(self).perp_funding_rates@,
                None => r == Result::<(), StrategyError>::Err(StrategyError::BadParams) && *final(self) == *old(self),
            },
    {
        match parse_i64_str(params) {
            Some(v) => {
                self.basis_threshold_pct = v;
                Ok(())
            },
            None => Err(StrategyError::BadParams),
        }
    }

    pub fn on_event(&mut self, event: &MarketEvent) -> (r: StrategyAction)
        ensures
            final(self).basis_threshold_pct == old(self).basis_threshold_pct,
            event matches MarketEvent::Price(t) ==> assoc_first(
                final(self).spot_prices@,
                t.token_address@,
                t.price_usd,
            ),
            event matches MarketEvent::Price(t) ==> assoc_first(
                final(self).perp_funding_rates@,
                t.token_address@,
                spec_funding_rate(t.volume_usd_1m as int) as i64,
            ),
            !(*event is Price) ==> final(self).spot_prices@ == old(self).spot_prices@ && final(self).perp_funding_rates@ == old(self).perp_funding_rates@,
            if basis_fires(old(self).basis_threshold_pct as int, *event) {
                r matches StrategyAction::Execute(d) && (event matches MarketEvent::Price(t) ==> {
                    &&& d.token_address@ == t.token_address@
                    &&& d.suggested_size_usd == 800_000_000
                    &&& d.confidence == 900_000
                    &&& d.side == (if t.volume_usd_1m > 0 {
                        Side::Short
                    } else {
                        Side::Long
                    })
                })
            } else {
                r == StrategyAction::Hold
            },
    {
        if let MarketEvent::Price(tick) = event {
            assoc_set(&mut self.spot_prices, &tick.token_address, tick.price_usd);
            // synthetic funding rate in nano-fractions: volume / 1e9
            let vol = tick.volume_usd_1m;
            let f: i64 = if vol >= 0 {
                vol / 1_000_000_000
            } else {
                proof {
                    vstd::arithmetic::div_mod::lemma_div_is_ordered(
                        -(vol as int),
                        0x8000_0000_0000_0000,
                        1_000_000_000,
                    );
                }
                -(((-(vol as i128)) / 1_000_000_000) as i64)
            };
            assoc_set(&mut self.perp_funding_rates, &tick.token_address, f);
            let vol_abs: i128 = if tick.volume_usd_1m < 0 {
                -(tick.volume_usd_1m as i128)
            } else {
                tick.volume_usd_1m as i128
            };
            let fires = vol_abs > (self.basis_threshold_pct as i128) * 10_000_000;
            if fires {
                let side = if tick.volume_usd_1m > 0 {
                    Side::Short
                } else {
                    Side::Long
                };
                return StrategyAction::Execute(
                    OrderDetails {
                        token_address: tick.token_address.clone(),
                        suggested_size_usd: 800_000_000,
                        confidence: 900_000,
                        side,
                    },
                );
            }
        }
        StrategyAction::Hold
    }
}

/// The population as a closed sum; the registry constructs a variant by id.
#[derive(Debug)]
pub enum AnyStrategy {
    Bridge(BridgeInflow),
    Migration(LiquidityMigration),
    Basis(PerpBasisArb),
}

/// Ids the registry can construct.
pub open spec fn buildable(id: Seq<char>) -> bool {
    id == "bridge_inflow"@ || id == "liquidity_migration"@ || id == "perp_basis_arb"@
}

/// A freshly built strategy: zero threshold, empty state, of the variant
/// its id names.
pub open spec fn fresh_strategy(id: Seq<char>, s: AnyStrategy) -> bool {
    match s {
        AnyStrategy::Bridge(b) => id == "bridge_inflow"@ && b.min_bridge_volume_usd == 0
            && b.tokens_with_recent_inflow@.len() == 0,
        AnyStrategy::Migration(m) => id == "liquidity_migration"@ && m.min_volume_migrate_usd == 0
            && m.migrated_tokens@.len() == 0,
        AnyStrategy::Basis(p) => id == "perp_basis_arb"@ && p.basis_threshold_pct == 0
            && p.spot_prices@.len() == 0 && p.perp_funding_rates@.len() == 0,
    }
}

/// What `init` does to a strategy value: the threshold becomes `v`, the
/// variant and the rest of the state stay.
pub open spec fn init_updates(pre: AnyStrategy, post: AnyStrategy, v: int) -> bool {
    match pre {
        AnyStrategy::Bridge(b0) => post matches AnyStrategy::Bridge(b1) && b1.min_bridge_volume_usd
            == v && b1.tokens_with_recent_inflow@ == b0.tokens_with_recent_inflow@,
        AnyStrategy::Migration(m0) => post matches AnyStrategy::Migration(m1)
            && m1.min_volume_migrate_usd == v && m1.migrated_tokens@ == m0.migrated_tokens@,
        AnyStrategy::Basis(p0) => post matches AnyStrategy::Basis(p1) && p1.basis_threshold_pct == v
            && p1.spot_prices@ == p0.spot_prices@ && p1.perp_funding_rates@
            == p0.perp_funding_rates@,
    }
}

/// Does a strategy of this state fire on this event?
pub open spec fn any_fires(s: AnyStrategy, e: MarketEvent) -> bool {
    match s {
        AnyStrategy::Bridge(b) => bridge_fires(
            b.min_bridge_volume_usd as int,
            b.tokens_with_recent_inflow@,
            e,
        ),
        AnyStrategy::Migration(m) => migration_fires(
            m.min_volume_migrate_usd as int,
            m.migrated_tokens@,
            e,
        ),
        AnyStrategy::Basis(p) => basis_fires(p.basis_threshold_pct as int, e),
    }
}

/// The exact order a firing strategy emits: its variant's size and
/// confidence, the event's token, and the side its rule picks.
pub open spec fn fired_order(s: AnyStrategy, e: MarketEvent, d: OrderDetails) -> bool {
    e matches MarketEvent::Price(t) && d.token_address@ == t.token_address@ && match s {
        AnyStrategy::Bridge(_) => d.suggested_size_usd == 800_000_000 && d.confidence == 750_000
            && d.side == Side::Long,
        AnyStrategy::Migration(_) => d.suggested_size_usd == 700_000_000 && d.confidence == 800_000
            && d.side == Side::Long,
        AnyStrategy::Basis(_) => d.suggested_size_usd == 800_000_000 && d.confidence == 900_000
            && d.side == (if t.volume_usd_1m > 0 {
            Side::Short
        } else {
            Side::Long
        }),
    }
}

/// How one event moves a strategy's private state: the once-per-token
/// strategies append the event's token to their seen set exactly when they
/// fire and keep it otherwise; the basis strategy records the tick's spot
/// price and synthetic funding rate and touches nothing on other events.
pub open spec fn state_evolution(pre: AnyStrategy, post: AnyStrategy, e: MarketEvent) -> bool {
    match pre {
        AnyStrategy::Bridge(b0) => post matches AnyStrategy::Bridge(b1) && (if bridge_fires(
            b0.min_bridge_volume_usd as int,
            b0.tokens_with_recent_inflow@,
            e,
        ) {
            e matches MarketEvent::Price(t) && b1.tokens_with_recent_inflow@
                == b0.tokens_with_recent_inflow@.push(t.token_address)
        } else {
            b1.tokens_with_recent_inflow@ == b0.tokens_with_recent_inflow@
        }),
        AnyStrategy::Migration(m0) => post matches AnyStrategy::Migration(m1) && (if
        migration_fires(m0.min_volume_migrate_usd as int, m0.migrated_tokens@, e) {
            e matches MarketEvent::Price(t) && m1.migrated_tokens@ == m0.migrated_tokens@.push(
                t.token_address,
            )
        } else {
            m1.migrated_tokens@ == m0.migrated_tokens@
        }),
        AnyStrategy::Basis(p0) => post matches AnyStrategy::Basis(p1) && (match e {
            MarketEvent::Price(t) => assoc_first(p1.spot_prices@, t.token_address@, t.price_usd)
                && assoc_first(
                p1.perp_funding_rates@,
                t.token_address@,
                spec_funding_rate(t.volume_usd_1m as int) as i64,
            ),
            _ => p1.spot_prices@ == p0.spot_prices@ && p1.perp_funding_rates@
                == p0.perp_funding_rates@,
        }),
    }
}

/// Both values are the same variant with the same threshold.
pub open spec fn same_kind(a: AnyStrategy, b: AnyStrategy) -> bool {
    match a {
        AnyStrategy::Bridge(x) => b matches AnyStrategy::Bridge(y) && y.min_bridge_volume_usd
            == x.min_bridge_volume_usd,
        AnyStrategy::Migration(x) => b matches AnyStrategy::Migration(y) && y.min_volume_migrate_usd
            == x.min_volume_migrate_usd,
        AnyStrategy::Basis(x) => b matches AnyStrategy::Basis(y) && y.basis_threshold_pct
            == x.basis_threshold_pct,
    }
}

impl AnyStrategy {
    /// Configure the variant's threshold from the registry text.
    pub fn init(&mut self, params: &str) -> (r: Result<(), StrategyError>)
        ensures
            spec_param(params@) is Some <==> r is Ok,
            r is Err ==> r == Result::<(), StrategyError>::Err(StrategyError::BadParams) && *final(self) == *old(self),
            r is Ok ==> init_updates(*old(self), *final(self), spec_param(params@)->0),
    {
        match self {
            AnyStrategy::Bridge(b) => b.init(params),
            AnyStrategy::Migration(m) => m.init(params),
            AnyStrategy::Basis(p) => p.init(params),
        }
    }

    /// The kinds this strategy wants from the router.
    pub fn subscriptions(&self) -> (r: Vec<EventType>)
        ensures
            r@ =~= seq![EventType::Price],
    {
        match self {
            AnyStrategy::Bridge(b) => b.subscriptions(),
            AnyStrategy::Migration(m) => m.subscriptions(),
            AnyStrategy::Basis(p) => p.subscriptions(),
        }
    }

    /// Decide on one event: an order exactly when the variant's own firing
    /// condition holds; the variant and its threshold never change.
    pub fn on_event(&mut self, event: &MarketEvent) -> (r: StrategyAction)
        ensures
            same_kind(*old(self), *final(self)),
            state_evolution(*old(self), *final(self), *event),
            (r is Execute) <==> any_fires(*old(self), *event),
            r matches StrategyAction::Execute(d) ==> fired_order(*old(self), *event, d),
    {
        match self {
            AnyStrategy::Bridge(b) => b.on_event(event),
            AnyStrategy::Migration(m) => m.on_event(event),
            AnyStrategy::Basis(p) => p.on_event(event),
        }
    }
}

/// The constructor registry: the strategy of this id with empty state, or
/// nothing for an unknown id.
pub fn build_strategy(id: &str) -> (r: Option<AnyStrategy>)
    ensures
        r is Some <==> buildable(id@),
        r matches Some(s) ==> fresh_strategy(id@, s),
{
    let owned = id.to_owned();
    if owned == "bridge_inflow".to_owned() {
        Some(
            AnyStrategy::Bridge(
                BridgeInflow { min_bridge_volume_usd: 0, tokens_with_recent_inflow: Vec::new() },
            ),
        )
    } else if owned == "liquidity_migration".to_owned() {
        Some(
            AnyStrategy::Migration(
                LiquidityMigration { min_volume_migrate_usd: 0, migrated_tokens: Vec::new() },
            ),
        )
    } else if owned == "perp_basis_arb".to_owned() {
        Some(
            AnyStrategy::Basis(
                PerpBasisArb {
                    basis_threshold_pct: 0,
                    spot_prices: Vec::new(),
                    perp_funding_rates: Vec::new(),
                },
            ),
        )
    } else {
        None
    }
}

} // verus!
