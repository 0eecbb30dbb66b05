use trade_orchestrator::allocator::{
    compute_allocations, isqrt_u128, normalise_weights, strategy_metrics,
};
use trade_orchestrator::models::{
    EventType, MarketEvent, PriceTick, Side, StrategyAction, StrategyAllocation, StrategySpec,
};
use trade_orchestrator::orchestrator::Orchestrator;
use trade_orchestrator::router::Router;
use trade_orchestrator::strategies::{build_strategy, AnyStrategy, StrategyError};
use trade_orchestrator::supervisor::{KillSignal, Supervisor};
use trade_orchestrator::ledger::{Database, TradeStatus};
use trade_orchestrator::pipeline::{execute_order, ExecOutcome};

fn tick(token: &str, price: i64, volume: i64) -> MarketEvent {
    MarketEvent::Price(PriceTick {
        token_address: token.to_string(),
        price_usd: price,
        volume_usd_1m: volume,
    })
}

fn allocation(id: &str) -> StrategyAllocation {
    StrategyAllocation { id: id.to_string(), weight: 500_000, sharpe_ratio: 0 }
}

fn spec(id: &str, params: &str) -> StrategySpec {
    StrategySpec { id: id.to_string(), family: id.to_string(), params: params.to_string() }
}

#[test]
fn router_delivers_to_subscribers_of_the_kind() {
    let mut r = Router::new();
    r.subscribe("a", &vec![EventType::Price]);
    r.subscribe("b", &vec![EventType::Social]);
    r.dispatch(&tick("t", 1, 1));
    assert_eq!(r.subs[0].delivered, 1);
    assert_eq!(r.subs[0].queue.len(), 1);
    assert_eq!(r.subs[1].delivered, 0);
    assert_eq!(r.subs[1].queue.len(), 0);
    // drained in arrival order
    let e = r.pop_event(0).unwrap();
    assert_eq!(e, tick("t", 1, 1));
    assert!(r.pop_event(0).is_none());
}

#[test]
fn a_slow_subscriber_only_loses_its_own_events() {
    let mut r = Router::new();
    r.subscribe("slow", &vec![EventType::Price]);
    r.subscribe("fast", &vec![EventType::Price]);
    for i in 0..101 {
        r.dispatch(&tick("t", i, i));
        // the fast subscriber drains its queue every time
        assert!(r.pop_event(1).is_some());
    }
    // the slow queue filled at 100 and dropped the rest, charged to itself
    assert_eq!(r.subs[0].delivered, 100);
    assert_eq!(r.subs[0].dropped, 1);
    assert_eq!(r.subs[0].queue.len(), 100);
    assert_eq!(r.subs[1].delivered, 101);
    assert_eq!(r.subs[1].dropped, 0);
}

#[test]
fn closed_subscribers_are_swept() {
    let mut r = Router::new();
    r.subscribe("a", &vec![EventType::Price]);
    r.subscribe("b", &vec![EventType::Price]);
    r.mark_closed(&"a".to_string());
    r.dispatch(&tick("t", 1, 1));
    assert_eq!(r.subs[0].delivered, 0);
    assert_eq!(r.subs[1].delivered, 1);
    r.unsubscribe_dead();
    assert_eq!(r.subs.len(), 1);
    assert_eq!(r.subs[0].strategy_id, "b");
}

#[test]
fn bridge_inflow_fires_once_per_token() {
    let mut s = build_strategy("bridge_inflow").unwrap();
    assert!(s.init("500000000").is_ok());
    // volume must exceed twice the 500 USD minimum
    assert_eq!(s.on_event(&tick("tok", 1, 1_000_000_000)), StrategyAction::Hold);
    match s.on_event(&tick("tok", 1, 1_000_000_001)) {
        StrategyAction::Execute(d) => {
            assert_eq!(d.token_address, "tok");
            assert_eq!(d.suggested_size_usd, 800_000_000);
            assert_eq!(d.confidence, 750_000);
            assert_eq!(d.side, Side::Long);
        }
        StrategyAction::Hold => panic!("expected an order"),
    }
    // the same token never fires twice
    assert_eq!(s.on_event(&tick("tok", 1, 2_000_000_001)), StrategyAction::Hold);
    // another token still can
    assert!(matches!(
        s.on_event(&tick("other", 1, 2_000_000_001)),
        StrategyAction::Execute(_)
    ));
}

#[test]
fn liquidity_migration_uses_the_plain_threshold() {
    let mut s = build_strategy("liquidity_migration").unwrap();
    assert!(s.init("500000000").is_ok());
    assert_eq!(s.on_event(&tick("tok", 1, 500_000_000)), StrategyAction::Hold);
    match s.on_event(&tick("tok", 1, 500_000_001)) {
        StrategyAction::Execute(d) => {
            assert_eq!(d.suggested_size_usd, 700_000_000);
            assert_eq!(d.confidence, 800_000);
            assert_eq!(d.side, Side::Long);
        }
        StrategyAction::Hold => panic!("expected an order"),
    }
}

#[test]
fn perp_basis_arb_shorts_a_positive_basis() {
    let mut s = build_strategy("perp_basis_arb").unwrap();
    // threshold 1% in micro-percent; fires when |volume| > 1e13 micro-USD
    assert!(s.init("1000000").is_ok());
    assert_eq!(s.on_event(&tick("tok", 1, 10_000_000_000_000)), StrategyAction::Hold);
    match s.on_event(&tick("tok", 1, 10_000_000_000_001)) {
        StrategyAction::Execute(d) => {
            assert_eq!(d.side, Side::Short);
            assert_eq!(d.suggested_size_usd, 800_000_000);
            assert_eq!(d.confidence, 900_000);
        }
        StrategyAction::Hold => panic!("expected an order"),
    }
}

#[test]
fn perp_basis_arb_records_spot_and_funding() {
    let mut s = build_strategy("perp_basis_arb").unwrap();
    // a generous threshold keeps it from firing
    assert!(s.init("99000000").is_ok());
    assert_eq!(s.on_event(&tick("tok", 7, 10_000_000_000_001)), StrategyAction::Hold);
    // a negative volume truncates toward zero
    assert_eq!(s.on_event(&tick("neg", 3, -1_500_000_000)), StrategyAction::Hold);
    match &s {
        AnyStrategy::Basis(p) => {
            assert_eq!(p.spot_prices[0], ("tok".to_string(), 7));
            assert_eq!(p.spot_prices[1], ("neg".to_string(), 3));
            assert_eq!(p.perp_funding_rates[0], ("tok".to_string(), 10_000));
            assert_eq!(p.perp_funding_rates[1], ("neg".to_string(), -1));
        }
        _ => panic!("expected the basis strategy"),
    }
}

#[test]
fn unknown_ids_and_bad_params_are_refused() {
    assert!(build_strategy("momentum").is_none());
    let mut s = build_strategy("bridge_inflow").unwrap();
    assert_eq!(s.init("not a number"), Err(StrategyError::BadParams));
}

#[test]
fn reconcile_starts_and_stops_by_allocation() {
    let specs = vec![
        spec("bridge_inflow", "500000000"),
        spec("liquidity_migration", "500000000"),
    ];
    let mut orch = Orchestrator::new(specs);
    let (stopped, started) = orch.reconcile(&vec![allocation("bridge_inflow")]);
    assert_eq!(stopped, 0);
    assert_eq!(started, vec!["bridge_inflow".to_string()]);
    assert_eq!(orch.active.len(), 1);
    assert_eq!(orch.router.subs.len(), 1);
    // switching the allocation stops the old strategy and starts the new
    let (stopped2, started2) = orch.reconcile(&vec![allocation("liquidity_migration")]);
    assert_eq!(stopped2, 1);
    assert_eq!(started2, vec!["liquidity_migration".to_string()]);
    assert_eq!(orch.active.len(), 1);
    assert_eq!(orch.active[0].id, "liquidity_migration");
    // the stopped strategy's subscription is gone
    assert_eq!(orch.router.subs.len(), 1);
    assert_eq!(orch.router.subs[0].strategy_id, "liquidity_migration");
}

#[test]
fn reconcile_twice_is_idempotent() {
    let specs = vec![
        spec("bridge_inflow", "500000000"),
        spec("liquidity_migration", "500000000"),
    ];
    let mut orch = Orchestrator::new(specs);
    let allocs = vec![allocation("bridge_inflow"), allocation("liquidity_migration")];
    let (_, started) = orch.reconcile(&allocs);
    assert_eq!(started.len(), 2);
    let subs_before = orch.router.subs.len();
    let (stopped2, started2) = orch.reconcile(&allocs);
    assert_eq!(stopped2, 0);
    assert!(started2.is_empty());
    assert_eq!(orch.active.len(), 2);
    assert_eq!(orch.router.subs.len(), subs_before);
}

#[test]
fn unknown_or_misconfigured_allocations_are_skipped() {
    // no registry entry: the empty params text does not parse
    let mut orch = Orchestrator::new(vec![]);
    let (_, started) = orch.reconcile(&vec![allocation("bridge_inflow"), allocation("nobody")]);
    assert!(started.is_empty());
    assert_eq!(orch.active.len(), 0);
}

#[test]
fn dispatched_events_reach_running_strategies() {
    let specs = vec![spec("bridge_inflow", "500000000")];
    let mut orch = Orchestrator::new(specs);
    orch.reconcile(&vec![allocation("bridge_inflow")]);
    orch.dispatch_event(&tick("tok", 1, 2_000_000_000));
    let e = orch.router.pop_event(0).unwrap();
    let action = orch.on_event_for(0, &e);
    assert!(matches!(action, StrategyAction::Execute(_)));
}

#[test]
fn supervisor_pauses_and_resumes_exactly_once() {
    // 10% stop loss in micro-percent
    let mut sup = Supervisor::new(10_000_000);
    assert_eq!(sup.tick(20_000_000), None);
    // drawdown 150% of the 20 USD high-water mark
    assert_eq!(sup.tick(-10_000_000), Some(KillSignal::Pause));
    assert!(sup.paused);
    // still paused inside the hysteresis band
    assert_eq!(sup.tick(-10_000_000), None);
    // recovered to a 5% drawdown, under the 8% re-entry bound
    assert_eq!(sup.tick(19_000_000), Some(KillSignal::Resume));
    assert!(!sup.paused);
    assert_eq!(sup.tick(19_000_000), None);
}

#[test]
fn supervisor_does_not_flap_inside_the_band() {
    let mut sup = Supervisor::new(10_000_000);
    assert_eq!(sup.tick(100_000_000), None);
    // 9% drawdown: above the resume bound, under the pause bound
    assert_eq!(sup.tick(91_000_000), None);
    assert!(!sup.paused);
    // 20% drawdown pauses
    assert_eq!(sup.tick(80_000_000), Some(KillSignal::Pause));
    // back to 9%: still above the 8% resume bound, no resume
    assert_eq!(sup.tick(91_000_000), None);
    assert!(sup.paused);
}

#[test]
fn zero_high_water_mark_reads_as_no_drawdown() {
    let mut sup = Supervisor::new(10_000_000);
    // losses from the start: hwm stays 0, dd is defined as 0
    assert_eq!(sup.tick(-5_000_000), None);
    assert!(!sup.paused);
}

#[test]
fn isqrt_brackets_the_root() {
    assert_eq!(isqrt_u128(0), 0);
    assert_eq!(isqrt_u128(1), 1);
    assert_eq!(isqrt_u128(15), 3);
    assert_eq!(isqrt_u128(16), 4);
    assert_eq!(isqrt_u128(1_000_000_000_000), 1_000_000);
}

#[test]
fn metrics_of_short_histories_are_zero() {
    assert_eq!(strategy_metrics(&vec![]), (0, 0));
    assert_eq!(strategy_metrics(&vec![7_000_000]), (0, 0));
}

#[test]
fn metrics_follow_mean_over_deviation() {
    // pnls 1, 2, 3 USD: mean 2, sample deviation 1, Sharpe proxy 2.0
    let (mean, sharpe) = strategy_metrics(&vec![1_000_000, 2_000_000, 3_000_000]);
    assert_eq!(mean, 2_000_000);
    assert_eq!(sharpe, 2_000_000);
    // constant history: zero deviation reads as zero Sharpe
    let (mean2, sharpe2) = strategy_metrics(&vec![-1_000_000, -1_000_000, -1_000_000]);
    assert_eq!(mean2, -1_000_000);
    assert_eq!(sharpe2, 0);
}

#[test]
fn weights_sum_to_one_exactly() {
    let w = normalise_weights(&vec![100_000, 100_000]);
    assert_eq!(w, vec![500_000, 500_000]);
    let w2 = normalise_weights(&vec![2_000_000, 100_000]);
    assert_eq!(w2.iter().sum::<u64>(), 1_000_000);
    assert_eq!(w2, vec![952_381, 47_619]);
}

#[test]
fn allocations_rank_by_sharpe_with_floored_weights() {
    let specs = vec![spec("A", "0"), spec("B", "0")];
    let hists = vec![
        vec![1_000_000, 2_000_000, 3_000_000],
        vec![-1_000_000, -1_000_000, -1_000_000],
    ];
    let allocs = compute_allocations(&specs, &hists);
    assert_eq!(allocs.len(), 2);
    assert_eq!(allocs[0].id, "A");
    assert_eq!(allocs[1].id, "B");
    assert_eq!(allocs[0].sharpe_ratio, 2_000_000);
    assert_eq!(allocs[1].sharpe_ratio, 0);
    // the loser still gets the exploratory floor's share
    assert!(allocs[1].weight > 0);
    assert!(allocs[0].weight > allocs[1].weight);
    assert_eq!(allocs[0].weight + allocs[1].weight, 1_000_000);
}

#[test]
fn an_empty_population_yields_no_allocations() {
    assert_eq!(compute_allocations(&vec![], &vec![]).len(), 0);
}

#[test]
fn paper_pipeline_end_to_end() {
    // one allocated strategy sees a price tick and emits a long order,
    // which the pipeline fills on paper and records in the ledger
    let specs = vec![spec("bridge_inflow", "500000000")];
    let mut orch = Orchestrator::new(specs);
    orch.reconcile(&vec![allocation("bridge_inflow")]);
    orch.dispatch_event(&tick("tokenA", 1_000_000, 2_000_000_000));
    let e = orch.router.pop_event(0).unwrap();
    let action = orch.on_event_for(0, &e);
    let details = match action {
        StrategyAction::Execute(d) => d,
        StrategyAction::Hold => panic!("expected an order"),
    };
    let mut db = Database::new();
    let r = execute_order(
        &mut db,
        &details,
        "bridge_inflow",
        Some(1_000_000),
        true,
        1_000_000_000,
        100_000_000,
        -250,
        7,
    );
    assert!(matches!(r, Ok(ExecOutcome::PaperFilled { trade_id: 1 })));
    let rows = db.get_all_trades();
    assert_eq!(rows.len(), 1);
    assert_eq!(rows[0].strategy_id, "bridge_inflow");
    assert!(
        rows[0].status == TradeStatus::ClosedProfit || rows[0].status == TradeStatus::ClosedLoss
    );
    // |pnl| is at most 5% of the 800 USD order
    assert!(rows[0].pnl_usd.unwrap().abs() <= 40_000_000);
}
