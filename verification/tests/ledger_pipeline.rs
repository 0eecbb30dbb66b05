use trade_orchestrator::ledger::{Database, LedgerError, TradeStatus};
use trade_orchestrator::models::{OrderDetails, Side};
use trade_orchestrator::pipeline::{
    cap_size, execute_order, execute_order_now, paper_return_bp, ExecError, ExecOutcome, VenuePlan,
};

fn order(token: &str, size_usd_micro: i64, side: Side) -> OrderDetails {
    OrderDetails {
        token_address: token.to_string(),
        suggested_size_usd: size_usd_micro,
        confidence: 750_000,
        side,
    }
}

#[test]
fn log_attempt_creates_pending_row() {
    let mut db = Database::new();
    let id = db.log_trade_attempt(&order("tok", 5_000_000, Side::Long), "strat", 1_230_000, 100);
    assert_eq!(id, 1);
    let rows = db.get_all_trades();
    assert_eq!(rows.len(), 1);
    assert_eq!(rows[0].status, TradeStatus::Pending);
    assert_eq!(rows[0].strategy_id, "strat");
    assert_eq!(rows[0].token_address, "tok");
    assert_eq!(rows[0].symbol, "tok");
    assert_eq!(rows[0].amount_usd, 5_000_000);
    assert_eq!(rows[0].entry_price_usd, 1_230_000);
    assert_eq!(rows[0].entry_time, 100);
    assert!(rows[0].signature.is_none());
    assert!(rows[0].pnl_usd.is_none());
}

#[test]
fn open_then_close_follows_the_dag() {
    let mut db = Database::new();
    let id = db.log_trade_attempt(&order("tok", 5_000_000, Side::Long), "s", 0, 100);
    assert!(db.open_trade(id, "sig-1").is_ok());
    assert!(db
        .update_trade_pnl(id, TradeStatus::ClosedProfit, 2_000_000, 10, 200)
        .is_ok());
    let rows = db.get_all_trades();
    assert_eq!(rows[0].status, TradeStatus::ClosedProfit);
    assert_eq!(rows[0].close_time, Some(200));
    assert_eq!(rows[0].close_price_usd, Some(2_000_000));
    assert_eq!(rows[0].pnl_usd, Some(10));
}

#[test]
fn open_is_idempotent_with_same_signature() {
    let mut db = Database::new();
    let id = db.log_trade_attempt(&order("tok", 1, Side::Long), "s", 0, 1);
    assert!(db.open_trade(id, "sig").is_ok());
    assert!(db.open_trade(id, "sig").is_ok());
    assert_eq!(db.open_trade(id, "other"), Err(LedgerError::InvalidTransition));
    let rows = db.get_all_trades();
    assert_eq!(rows[0].signature.as_deref(), Some("sig"));
    assert_eq!(rows[0].status, TradeStatus::Open);
}

#[test]
fn non_path_transitions_are_rejected_without_mutation() {
    let mut db = Database::new();
    let id = db.log_trade_attempt(&order("tok", 1, Side::Long), "s", 0, 1);
    // close straight from PENDING is not a DAG edge
    assert_eq!(
        db.update_trade_pnl(id, TradeStatus::ClosedLoss, 0, -5, 2),
        Err(LedgerError::InvalidTransition)
    );
    // unknown ids are rejected
    assert_eq!(db.open_trade(99, "sig"), Err(LedgerError::InvalidTransition));
    // a closed row never moves again
    assert!(db.open_trade(id, "sig").is_ok());
    assert!(db.update_trade_pnl(id, TradeStatus::ClosedLoss, 0, -5, 3).is_ok());
    assert_eq!(db.open_trade(id, "sig"), Err(LedgerError::InvalidTransition));
    assert_eq!(
        db.update_trade_pnl(id, TradeStatus::ClosedProfit, 0, 5, 4),
        Err(LedgerError::InvalidTransition)
    );
    let rows = db.get_all_trades();
    assert_eq!(rows[0].status, TradeStatus::ClosedLoss);
}

#[test]
fn close_status_must_match_pnl_sign() {
    let mut db = Database::new();
    let id = db.log_trade_attempt(&order("tok", 1, Side::Long), "s", 0, 1);
    assert!(db.open_trade(id, "sig").is_ok());
    // zero pnl closes as a loss, never as a profit
    assert_eq!(
        db.update_trade_pnl(id, TradeStatus::ClosedProfit, 0, 0, 2),
        Err(LedgerError::InvalidTransition)
    );
    assert!(db.update_trade_pnl(id, TradeStatus::ClosedLoss, 0, 0, 2).is_ok());
}

#[test]
fn total_pnl_sums_only_closed_rows() {
    let mut db = Database::new();
    assert_eq!(db.get_total_pnl(), 0);
    let a = db.log_trade_attempt(&order("a", 1, Side::Long), "s", 0, 1);
    let b = db.log_trade_attempt(&order("b", 1, Side::Long), "s", 0, 2);
    let c = db.log_trade_attempt(&order("c", 1, Side::Long), "s", 0, 3);
    db.open_trade(a, "x").unwrap();
    db.open_trade(b, "y").unwrap();
    db.update_trade_pnl(a, TradeStatus::ClosedProfit, 0, 10_000_000, 4).unwrap();
    db.update_trade_pnl(b, TradeStatus::ClosedLoss, 0, -4_000_000, 5).unwrap();
    // c stays PENDING and does not count
    let _ = c;
    assert_eq!(db.get_total_pnl(), 6_000_000);
}

#[test]
fn all_trades_come_newest_first() {
    let mut db = Database::new();
    db.log_trade_attempt(&order("a", 1, Side::Long), "s", 0, 10);
    db.log_trade_attempt(&order("b", 1, Side::Long), "s", 0, 20);
    db.log_trade_attempt(&order("c", 1, Side::Long), "s", 0, 30);
    let rows = db.get_all_trades();
    assert_eq!(rows[0].token_address, "c");
    assert_eq!(rows[1].token_address, "b");
    assert_eq!(rows[2].token_address, "a");
    assert!(rows[0].entry_time >= rows[1].entry_time);
}

#[test]
fn entry_time_precedes_close_time() {
    let mut db = Database::new();
    // a clock sample older than the ledger clock is clamped forward
    let id = db.log_trade_attempt(&order("a", 1, Side::Long), "s", 0, 50);
    db.open_trade(id, "sig").unwrap();
    db.update_trade_pnl(id, TradeStatus::ClosedLoss, 0, -1, 7).unwrap();
    let rows = db.get_all_trades();
    assert_eq!(rows[0].entry_time, 50);
    assert_eq!(rows[0].close_time, Some(50));
    assert!(rows[0].entry_time <= rows[0].close_time.unwrap());
}

#[test]
fn cap_size_takes_the_minimum() {
    assert_eq!(cap_size(100, 50), 50);
    assert_eq!(cap_size(30, 50), 30);
}

#[test]
fn paper_return_stays_in_band() {
    assert_eq!(paper_return_bp(0), 0);
    assert_eq!(paper_return_bp(501), 0);
    assert_eq!(paper_return_bp(502), 1);
    assert_eq!(paper_return_bp(-502), -1);
    assert!(paper_return_bp(i64::MIN) >= -500);
    assert!(paper_return_bp(i64::MAX) <= 500);
}

#[test]
fn paper_fill_closes_with_simulated_pnl() {
    // 100 USD long, +5% draw: the ledger row closes at +5 USD profit
    let mut db = Database::new();
    let r = execute_order(
        &mut db,
        &order("tok", 100_000_000, Side::Long),
        "strat",
        Some(1_000_000),
        true,
        1_000_000_000,
        100_000_000,
        500,
        42,
    );
    assert_eq!(r, Ok(ExecOutcome::PaperFilled { trade_id: 1 }));
    let rows = db.get_all_trades();
    assert_eq!(rows[0].status, TradeStatus::ClosedProfit);
    assert_eq!(rows[0].pnl_usd, Some(5_000_000));
    assert_eq!(rows[0].signature.as_deref(), Some("paper"));
    assert_eq!(rows[0].close_price_usd, Some(0));
}

#[test]
fn paper_fill_short_flips_the_sign() {
    let mut db = Database::new();
    let r = execute_order(
        &mut db,
        &order("tok", 100_000_000, Side::Short),
        "strat",
        Some(1_000_000),
        true,
        1_000_000_000,
        100_000_000,
        500,
        42,
    );
    assert!(r.is_ok());
    let rows = db.get_all_trades();
    assert_eq!(rows[0].status, TradeStatus::ClosedLoss);
    assert_eq!(rows[0].pnl_usd, Some(-5_000_000));
}

#[test]
fn zero_draw_closes_as_loss() {
    let mut db = Database::new();
    let r = execute_order(
        &mut db,
        &order("tok", 100_000_000, Side::Long),
        "s",
        Some(1),
        true,
        1_000_000_000,
        100_000_000,
        0,
        1,
    );
    assert!(r.is_ok());
    assert_eq!(db.get_all_trades()[0].status, TradeStatus::ClosedLoss);
}

#[test]
fn failed_quote_writes_nothing() {
    let mut db = Database::new();
    let r = execute_order(
        &mut db,
        &order("tok", 100_000_000, Side::Long),
        "s",
        None,
        true,
        1_000_000_000,
        100_000_000,
        0,
        1,
    );
    assert_eq!(r, Err(ExecError::QuoteFailed));
    assert_eq!(db.get_all_trades().len(), 0);
}

#[test]
fn live_long_plans_a_spot_buy_with_capped_size() {
    let mut db = Database::new();
    let r = execute_order(
        &mut db,
        &order("tok", 900_000_000, Side::Long),
        "s",
        Some(1),
        false,
        500_000_000,
        100_000_000,
        0,
        1,
    );
    assert_eq!(
        r,
        Ok(ExecOutcome::LivePlanned {
            trade_id: 1,
            plan: VenuePlan::LongSpot { size_usd: 500_000_000 },
        })
    );
    // the row stays PENDING until the venue answers
    assert_eq!(db.get_all_trades()[0].status, TradeStatus::Pending);
    // but the attempt logs the order's own suggested size
    assert_eq!(db.get_all_trades()[0].amount_usd, 900_000_000);
}

#[test]
fn live_short_sizes_against_the_sol_mark() {
    let mut db = Database::new();
    // 200 USD at a 100 USD mark: 2 SOL, in 1e-9 units
    let r = execute_order(
        &mut db,
        &order("tok", 200_000_000, Side::Short),
        "s",
        Some(1),
        false,
        1_000_000_000,
        100_000_000,
        0,
        1,
    );
    assert_eq!(
        r,
        Ok(ExecOutcome::LivePlanned {
            trade_id: 1,
            plan: VenuePlan::ShortPerp { base_asset_amount: 2_000_000_000 },
        })
    );
}

#[test]
fn live_draw_and_clock_still_close_the_row() {
    let mut db = Database::new();
    let r = execute_order_now(
        &mut db,
        &order("tok", 100_000_000, Side::Long),
        "s",
        Some(1_000_000),
        true,
        1_000_000_000,
        100_000_000,
    );
    match r {
        Ok(ExecOutcome::PaperFilled { trade_id }) => {
            assert_eq!(trade_id, 1);
            let rows = db.get_all_trades();
            let pnl = rows[0].pnl_usd.unwrap();
            // |pnl| is at most 5% of the 100 USD size
            assert!(pnl.abs() <= 5_000_000);
            assert!(
                rows[0].status == TradeStatus::ClosedProfit
                    || rows[0].status == TradeStatus::ClosedLoss
            );
        }
        other => panic!("unexpected outcome: {:?}", other),
    }
}
