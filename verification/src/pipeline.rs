//! The trade execution pipeline: cap the order size, record the attempt in
//! the ledger against the probed entry price, then either fill it on paper
//! (simulated return) or hand back the venue plan for a live submission.
//!
//! The probe quote and the live venue calls are process I/O and happen
//! outside the library; the pipeline receives the quote as a value and
//! returns the plan as a value. Every venue-visible step is preceded by a
//! ledger attempt row, so post-hoc reconciliation by signature is possible.

use vstd::prelude::*;

use crate::ledger::{is_closed, Database, LedgerError, TradeStatus};
use crate::models::{OrderDetails, Side, UsdMicro};

verus! {

/// Bound of the simulated paper return: 500 basis points, i.e. ±5%.
pub const PAPER_RETURN_BP_BOUND: i64 = 500;

/// The signature recorded for simulated fills.
pub const PAPER_SIGNATURE: &'static str = "paper";

/// What a live order needs from the venues; computed here, performed outside.
#[derive(Clone, Copy, Debug, PartialEq, Eq, Structural)]
pub enum VenuePlan {
    /// Open a short on the perp venue with this base amount in 1e-9 units
    /// of the underlying, sized against the SOL mark.
    ShortPerp { base_asset_amount: u64 },
    /// Buy the token on the spot aggregator for this many micro-USD.
    LongSpot { size_usd: UsdMicro },
}

/// Result of a pipeline run.
#[derive(Clone, Copy, Debug, PartialEq, Eq, Structural)]
pub enum ExecOutcome {
    /// Paper mode: the ledger row went `PENDING -> OPEN -> CLOSED_*`.
    PaperFilled { trade_id: i64 },
    /// Live mode: the row is `PENDING`; the caller performs the plan and,
    /// on success, opens the row with the venue signature.
    LivePlanned { trade_id: i64, plan: VenuePlan },
}

/// Pipeline failure.
#[derive(Clone, Copy, Debug, PartialEq, Eq, Structural)]
pub enum ExecError {
    /// The price probe failed; nothing was written to the ledger.
    QuoteFailed,
    /// The ledger refused a transition.
    Ledger(LedgerError),
}

/// A machine integer mapped into `[-500, 500]`, keeping its sign.
pub open spec fn spec_return_bp(raw: int) -> int {
    if raw < 0 {
        -((-raw) % 501)
    } else {
        raw % 501
    }
}

/// Simulated pnl of a paper fill: `size * bp / 10_000`, sign-flipped for
/// shorts, truncated toward zero.
pub open spec fn spec_paper_pnl(size: int, bp: int, short: bool) -> int {
    let s = if short {
        -bp
    } else {
        bp
    };
    if s >= 0 {
        (size * s) / 10_000
    } else {
        -((size * (-s)) / 10_000)
    }
}

/// Clamp an unbounded integer into the u64 range.
pub open spec fn sat_u64(x: int) -> int {
    if x > u64::MAX as int {
        u64::MAX as int
    } else if x < 0 {
        0
    } else {
        x
    }
}

/// Base amount of a perp short in 1e-9 units: `size / sol_mark * 1e9`,
/// saturated into u64 as the venue argument is.
pub open spec fn spec_short_base(size: int, sol_price: int) -> int {
    sat_u64((size * 1_000_000_000) / sol_price)
}

/// The recorded pnl is what some in-band paper draw yields on this size.
pub open spec fn paper_pnl_explained(pnl: Option<i64>, size: int, short: bool) -> bool {
    exists|bp: int|
        -PAPER_RETURN_BP_BOUND <= bp <= PAPER_RETURN_BP_BOUND && pnl == Some(
            #[trigger] spec_paper_pnl(size, bp, short) as i64,
        )
}

/// Relies on rand::random: a uniformly drawn machine integer; nothing is
/// promised of its value.
#[verifier::external_body]
fn random_i64() -> i64 {
    rand::random::<i64>()
}

/// Relies on chrono::Utc::now, read out as a unix timestamp in seconds;
/// nothing is promised of its value.
#[verifier::external_body]
fn now_unix() -> i64 {
    chrono::Utc::now().timestamp()
}

/// Map a raw machine integer into the paper-return band, keeping its sign.
pub fn paper_return_bp(raw: i64) -> (r: i64)
    ensures
        r == spec_return_bp(raw as int),
        -PAPER_RETURN_BP_BOUND <= r <= PAPER_RETURN_BP_BOUND,
{
    let a: i128 = raw as i128;
    if a < 0 {
        let m: i128 = (-a) % 501;
        -(m as i64)
    } else {
        let m: i128 = a % 501;
        m as i64
    }
}

/// Draw a random paper return in `[-500, 500]` basis points.
pub fn draw_return_bp() -> (r: i64)
    ensures
        -PAPER_RETURN_BP_BOUND <= r <= PAPER_RETURN_BP_BOUND,
{
    paper_return_bp(random_i64())
}

/// The size the pipeline will actually trade: capped at the global maximum.
pub fn cap_size(suggested: UsdMicro, global_max_position_usd: UsdMicro) -> (r: UsdMicro)
    ensures
        r == if suggested <= global_max_position_usd {
            suggested as int
        } else {
            global_max_position_usd as int
        },
{
    if suggested <= global_max_position_usd {
        suggested
    } else {
        global_max_position_usd
    }
}

/// Paper fill of a freshly logged attempt: open the row with the "paper"
/// signature, then immediately close it with the simulated pnl
/// (`CLOSED_PROFIT` iff the pnl is positive) and close price 0.
pub fn simulate_fill(
    db: &mut Database,
    trade_id: i64,
    size_usd: UsdMicro,
    short: bool,
    return_bp: i64,
    now: i64,
) -> (r: Result<(), LedgerError>)
    requires
        old(db).inv(),
        old(db).has_row(trade_id),
        old(db).row(trade_id).status == TradeStatus::Pending,
        0 <= size_usd,
        -PAPER_RETURN_BP_BOUND <= return_bp <= PAPER_RETURN_BP_BOUND,
    ensures
        final(db).inv(),
        r is Ok,
        final(db).rows@.len() == old(db).rows@.len(),
        forall|i: int|
            0 <= i < old(db).rows@.len() && i != trade_id - 1 ==> final(db).rows@[i] == old(
                db,
            ).rows@[i],
        ({
            let pnl = spec_paper_pnl(size_usd as int, return_bp as int, short);
            let n = final(db).row(trade_id);
            let was = old(db).row(trade_id);
            &&& n.status == (if pnl > 0 {
                TradeStatus::ClosedProfit
            } else {
                TradeStatus::ClosedLoss
            })
            &&& n.signature matches Some(s) && s@ == PAPER_SIGNATURE@
            &&& n.pnl_usd == Some(pnl as i64)
            &&& n.close_price_usd == Some(0 as i64)
            &&& n.close_time is Some
            &&& n.entry_time == was.entry_time
            &&& n.amount_usd == was.amount_usd
            &&& n.strategy_id@ == was.strategy_id@
            &&& n.token_address@ == was.token_address@
            &&& n.entry_price_usd == was.entry_price_usd
            &&& n.confidence == was.confidence
            &&& n.id == was.id
        }),
{
    let s: i64 = if short {
        -return_bp
    } else {
        return_bp
    };
    let neg = s < 0;
    let mag_bp: i128 = if s < 0 {
        (-s) as i128
    } else {
        s as i128
    };
    proof {
        assert((size_usd as int) * (mag_bp as int) <= 0x7fff_ffff_ffff_ffff * 500
            && (size_usd as int) * (mag_bp as int) >= 0) by (nonlinear_arith)
            requires
                0 <= size_usd as int <= 0x7fff_ffff_ffff_ffff,
                0 <= mag_bp as int <= 500,
        ;
    }
    let prod: i128 = (size_usd as i128) * mag_bp;
    proof {
        vstd::arithmetic::div_mod::lemma_div_is_ordered(
            prod as int,
            0x7fff_ffff_ffff_ffff * 500 as int,
            10_000,
        );
        vstd::arithmetic::div_mod::lemma_div_pos_is_pos(prod as int, 10_000);
    }
    let q: i128 = prod / 10_000;
    let pnl: i64 = if neg {
        -(q as i64)
    } else {
        q as i64
    };
    let status = if pnl > 0 {
        TradeStatus::ClosedProfit
    } else {
        TradeStatus::ClosedLoss
    };
    match db.open_trade(trade_id, PAPER_SIGNATURE) {
        Ok(_) => {},
        Err(e) => {
            return Err(e);
        },
    }
    match db.update_trade_pnl(trade_id, status, 0, pnl, now) {
        Ok(_) => Ok(()),
        Err(e) => Err(e),
    }
}

/// One pipeline run, fed with every outside fact as a value: the probed
/// quote (`None` when the probe failed), the trading mode, the global size
/// cap, the SOL/USD mark, the simulated return and the wall clock.
///
/// On a failed probe nothing is written. Otherwise the attempt is logged
/// `PENDING` with the order's own suggested size, and the capped size is
/// what trades: paper mode closes the row immediately with the simulated
/// pnl; live mode leaves the row `PENDING` and returns the venue plan — the
/// caller submits it and opens the row with the signature it gets back.
pub fn execute_order(
    db: &mut Database,
    details: &OrderDetails,
    strategy_id: &str,
    quote_price: Option<UsdMicro>,
    paper: bool,
    global_max_position_usd: UsdMicro,
    sol_price_usd: UsdMicro,
    return_bp: i64,
    now: i64,
) -> (r: Result<ExecOutcome, ExecError>)
    requires
        old(db).inv(),
        old(db).rows@.len() < i64::MAX as int,
        details.wf(),
        0 <= global_max_position_usd,
        0 < sol_price_usd,
        -PAPER_RETURN_BP_BOUND <= return_bp <= PAPER_RETURN_BP_BOUND,
    ensures
        final(db).inv(),
        quote_price is None ==> r == Result::<ExecOutcome, ExecError>::Err(ExecError::QuoteFailed)
            && *final(db) == *old(db),
        quote_price matches Some(p) ==> ({
            let id = old(db).rows@.len() + 1;
            let size = if details.suggested_size_usd <= global_max_position_usd {
                details.suggested_size_usd as int
            } else {
                global_max_position_usd as int
            };
            let n = final(db).row(id as i64);
            &&& final(db).rows@.len() == old(db).rows@.len() + 1
            &&& forall|i: int|
                0 <= i < old(db).rows@.len() ==> final(db).rows@[i] == old(db).rows@[i]
            &&& n.strategy_id@ == strategy_id@
            &&& n.token_address@ == details.token_address@
            &&& n.amount_usd == details.suggested_size_usd
            &&& n.entry_price_usd == p
            &&& n.confidence == details.confidence
            &&& if paper {
                let pnl = spec_paper_pnl(size, return_bp as int, details.side == Side::Short);
                &&& r == Result::<ExecOutcome, ExecError>::Ok(
                    ExecOutcome::PaperFilled { trade_id: id as i64 },
                )
                &&& n.status == (if pnl > 0 {
                    TradeStatus::ClosedProfit
                } else {
                    TradeStatus::ClosedLoss
                })
                &&& n.pnl_usd == Some(pnl as i64)
                &&& n.signature matches Some(s) && s@ == PAPER_SIGNATURE@
            } else {
                let plan = if details.side == Side::Short {
                    VenuePlan::ShortPerp {
                        base_asset_amount: spec_short_base(size, sol_price_usd as int) as u64,
                    }
                } else {
                    VenuePlan::LongSpot { size_usd: size as i64 }
                };
                &&& r == Result::<ExecOutcome, ExecError>::Ok(
                    ExecOutcome::LivePlanned { trade_id: id as i64, plan },
                )
                &&& n.status == TradeStatus::Pending
            }
        }),
{
    let p = match quote_price {
        Some(p) => p,
        None => {
            return Err(ExecError::QuoteFailed);
        },
    };
    let size = cap_size(details.suggested_size_usd, global_max_position_usd);
    let is_short = match details.side {
        Side::Short => true,
        Side::Long => false,
    };
    let trade_id = db.log_trade_attempt(details, strategy_id, p, now);
    if paper {
        match simulate_fill(db, trade_id, size, is_short, return_bp, now) {
            Ok(_) => Ok(ExecOutcome::PaperFilled { trade_id }),
            Err(e) => Err(ExecError::Ledger(e)),
        }
    } else {
        let plan = if is_short {
            proof {
                assert((size as int) * 1_000_000_000 <= 0x7fff_ffff_ffff_ffff
                    * 1_000_000_000) by (nonlinear_arith)
                    requires
                        0 <= size as int <= 0x7fff_ffff_ffff_ffff,
                ;
                vstd::arithmetic::div_mod::lemma_div_pos_is_pos(
                    (size as int) * 1_000_000_000,
                    sol_price_usd as int,
                );
            }
            let wide: u128 = (size as u128) * 1_000_000_000u128;
            let base_wide: u128 = wide / (sol_price_usd as u128);
            let base: u64 = if base_wide > u64::MAX as u128 {
                u64::MAX
            } else {
                base_wide as u64
            };
            VenuePlan::ShortPerp { base_asset_amount: base }
        } else {
            VenuePlan::LongSpot { size_usd: size }
        };
        Ok(ExecOutcome::LivePlanned { trade_id, plan })
    }
}

/// The pipeline as the strategy task runs it: the wall clock and the paper
/// draw come from the process environment, everything else is as in
/// `execute_order`. Whatever the draw and the clock return, the ledger ends
/// in a lawful state and a paper fill closes with a pnl some in-band draw
/// explains.
pub fn execute_order_now(
    db: &mut Database,
    details: &OrderDetails,
    strategy_id: &str,
    quote_price: Option<UsdMicro>,
    paper: bool,
    global_max_position_usd: UsdMicro,
    sol_price_usd: UsdMicro,
) -> (r: Result<ExecOutcome, ExecError>)
    requires
        old(db).inv(),
        old(db).rows@.len() < i64::MAX as int,
        details.wf(),
        0 <= global_max_position_usd,
        0 < sol_price_usd,
    ensures
        final(db).inv(),
        quote_price is None ==> r == Result::<ExecOutcome, ExecError>::Err(ExecError::QuoteFailed)
            && *final(db) == *old(db),
        quote_price is Some ==> final(db).rows@.len() == old(db).rows@.len() + 1 && r is Ok,
        quote_price matches Some(p) ==> ({
            let n = final(db).row((old(db).rows@.len() + 1) as i64);
            &&& forall|i: int|
                0 <= i < old(db).rows@.len() ==> final(db).rows@[i] == old(db).rows@[i]
            &&& n.strategy_id@ == strategy_id@
            &&& n.token_address@ == details.token_address@
            &&& n.amount_usd == details.suggested_size_usd
            &&& n.entry_price_usd == p
            &&& n.confidence == details.confidence
        }),
        quote_price is Some && !paper ==> ({
            let id = old(db).rows@.len() + 1;
            let size = if details.suggested_size_usd <= global_max_position_usd {
                details.suggested_size_usd as int
            } else {
                global_max_position_usd as int
            };
            let plan = if details.side == Side::Short {
                VenuePlan::ShortPerp {
                    base_asset_amount: spec_short_base(size, sol_price_usd as int) as u64,
                }
            } else {
                VenuePlan::LongSpot { size_usd: size as i64 }
            };
            &&& r == Result::<ExecOutcome, ExecError>::Ok(
                ExecOutcome::LivePlanned { trade_id: id as i64, plan },
            )
            &&& final(db).row(id as i64).status == TradeStatus::Pending
        }),
        quote_price is Some && paper ==> ({
            let id = old(db).rows@.len() + 1;
            let size = if details.suggested_size_usd <= global_max_position_usd {
                details.suggested_size_usd as int
            } else {
                global_max_position_usd as int
            };
            let n = final(db).row(id as i64);
            let short = (details.side == Side::Short);
            &&& r == Result::<ExecOutcome, ExecError>::Ok(
                ExecOutcome::PaperFilled { trade_id: id as i64 },
            )
            &&& is_closed(n.status)
            &&& paper_pnl_explained(n.pnl_usd, size, short)
        }),
{
    let bp = draw_return_bp();
    let now = now_unix();
    let r = execute_order(
        db,
        details,
        strategy_id,
        quote_price,
        paper,
        global_max_position_usd,
        sol_price_usd,
        bp,
        now,
    );
    proof {
        if quote_price is Some && paper {
            let size = if details.suggested_size_usd <= global_max_position_usd {
                details.suggested_size_usd as int
            } else {
                global_max_position_usd as int
            };
            let short = (details.side == Side::Short);
            let n = db.row((old(db).rows@.len() + 1) as i64);
            assert(-PAPER_RETURN_BP_BOUND <= bp as int <= PAPER_RETURN_BP_BOUND && n.pnl_usd
                == Some(spec_paper_pnl(size, bp as int, short) as i64));
            assert(paper_pnl_explained(n.pnl_usd, size, short));
        }
    }
    r
}

} // verus!
