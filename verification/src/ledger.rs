//! The trade ledger: the single source of truth for trade attempts and their
//! lifecycle. Status transitions follow the DAG
//! `PENDING -> {OPEN, CANCELED}`, `OPEN -> {CLOSED_PROFIT, CLOSED_LOSS}`;
//! any other transition is rejected without mutating the row.
//!
//! The store itself is in-memory; durable persistence is an adapter concern
//! of the surrounding process, which replays rows out of `get_all_trades`.

use vstd::prelude::*;

use crate::models::{OrderDetails, RATIO_SCALE, UsdMicro};

verus! {

/// Lifecycle state of a trade row.
#[derive(Clone, Copy, Debug, PartialEq, Eq, Structural)]
pub enum TradeStatus {
    Pending,
    Open,
    ClosedProfit,
    ClosedLoss,
    Canceled,
}

/// The edges of the lifecycle DAG: exactly these transitions are lawful.
pub open spec fn can_transition(from: TradeStatus, to: TradeStatus) -> bool {
    ||| (from == TradeStatus::Pending && (to == TradeStatus::Open || to
        == TradeStatus::Canceled))
    ||| (from == TradeStatus::Open && (to == TradeStatus::ClosedProfit || to
        == TradeStatus::ClosedLoss))
}

/// Ledger monotonicity, at the level of the DAG itself: the only sources
/// of lawful transitions are `PENDING` and `OPEN`, so a closed or canceled
/// row can never change again, and every path of observed statuses is a
/// path in the DAG.
pub proof fn lemma_terminal_states(a: TradeStatus, b: TradeStatus)
    ensures
        is_closed(a) || a == TradeStatus::Canceled ==> !can_transition(a, b),
        can_transition(a, b) ==> (a == TradeStatus::Pending || a == TradeStatus::Open),
{
}

/// A closed row is one of the two terminal profit/loss states.
pub open spec fn is_closed(s: TradeStatus) -> bool {
    s == TradeStatus::ClosedProfit || s == TradeStatus::ClosedLoss
}

/// Errors of the ledger proper. I/O failures of a durable backing store
/// belong to the adapter that owns that store, not to this state machine.
#[derive(Clone, Copy, Debug, PartialEq, Eq, Structural)]
pub enum LedgerError {
    /// The requested status change is not an edge of the lifecycle DAG,
    /// or the row does not exist.
    InvalidTransition,
}

/// One durable row: a trade attempt and everything learned about it since.
#[derive(Debug)]
pub struct TradeRecord {
    pub id: i64,
    pub strategy_id: String,
    pub token_address: String,
    pub symbol: String,
    pub amount_usd: UsdMicro,
    pub status: TradeStatus,
    pub signature: Option<String>,
    pub entry_time: i64,
    pub entry_price_usd: UsdMicro,
    pub close_time: Option<i64>,
    pub close_price_usd: Option<UsdMicro>,
    pub pnl_usd: Option<UsdMicro>,
    pub confidence: u64,
}

impl TradeRecord {
    /// Shape invariant of a row, per status:
    /// pending rows carry no signature and no close data, open rows carry a
    /// signature and no close data, closed rows carry close data whose sign
    /// matches the status (profit iff pnl > 0), and a canceled row kept the
    /// shape of the pending row it came from. Close never precedes entry.
    pub open spec fn valid(&self) -> bool {
        &&& 0 <= self.amount_usd
        &&& self.confidence <= RATIO_SCALE
        &&& 0 <= self.entry_time
        &&& match self.status {
            TradeStatus::Pending | TradeStatus::Canceled => {
                &&& self.signature is None
                &&& self.close_time is None
                &&& self.close_price_usd is None
                &&& self.pnl_usd is None
            },
            TradeStatus::Open => {
                &&& self.signature is Some
                &&& self.close_time is None
                &&& self.close_price_usd is None
                &&& self.pnl_usd is None
            },
            TradeStatus::ClosedProfit | TradeStatus::ClosedLoss => {
                &&& self.signature is Some
                &&& self.close_time is Some
                &&& self.close_price_usd is Some
                &&& self.pnl_usd is Some
                &&& self.entry_time <= self.close_time->0
                &&& (self.status == TradeStatus::ClosedProfit <==> self.pnl_usd->0 > 0)
            },
        }
    }

    /// A copy that is provably equal to the original.
    pub fn duplicate(&self) -> (r: TradeRecord)
        ensures
            r == *self,
    {
        TradeRecord {
            id: self.id,
            strategy_id: self.strategy_id.clone(),
            token_address: self.token_address.clone(),
            symbol: self.symbol.clone(),
            amount_usd: self.amount_usd,
            status: self.status,
            signature: match &self.signature {
                Some(s) => Some(s.clone()),
                None => None,
            },
            entry_time: self.entry_time,
            entry_price_usd: self.entry_price_usd,
            close_time: self.close_time,
            close_price_usd: self.close_price_usd,
            pnl_usd: self.pnl_usd,
            confidence: self.confidence,
        }
    }
}

/// Sum of realised pnl over closed rows, in micro-USD.
pub open spec fn spec_total_pnl(rows: Seq<TradeRecord>) -> int
    decreases rows.len(),
{
    if rows.len() == 0 {
        0
    } else {
        spec_total_pnl(rows.drop_last()) + (if is_closed(rows.last().status)
            && rows.last().pnl_usd is Some {
            rows.last().pnl_usd->0 as int
        } else {
            0
        })
    }
}

/// Clamp an unbounded integer into the i64 range.
pub open spec fn clamp_i64(x: int) -> int {
    if x > i64::MAX as int {
        i64::MAX as int
    } else if x < i64::MIN as int {
        i64::MIN as int
    } else {
        x
    }
}

/// The effective timestamp of a mutation: wall-clock input, never running
/// backwards past what the ledger has already recorded.
pub open spec fn eff_time(clock: int, now: int) -> int {
    if now < clock {
        clock
    } else {
        now
    }
}

/// The trade ledger. Row ids are assigned monotonically starting at 1;
/// row `id` sits at index `id - 1`.
pub struct Database {
    pub rows: Vec<TradeRecord>,
    /// Latest effective timestamp any mutation has used; never decreases.
    pub clock: i64,
}

impl Database {
    /// Well-formedness: every row is valid, ids are consecutive from 1,
    /// entry times never exceed the clock and are nondecreasing in id.
    pub open spec fn inv(&self) -> bool {
        &&& 0 <= self.clock
        &&& self.rows@.len() <= i64::MAX as int
        &&& forall|i: int|
            0 <= i < self.rows@.len() ==> {
                &&& (#[trigger] self.rows@[i]).valid()
                &&& self.rows@[i].id == i + 1
                &&& self.rows@[i].entry_time <= self.clock
                &&& (self.rows@[i].close_time is Some ==> self.rows@[i].close_time->0
                    <= self.clock)
            }
        &&& forall|i: int, j: int|
            0 <= i <= j < self.rows@.len() ==> (#[trigger] self.rows@[i]).entry_time
                <= (#[trigger] self.rows@[j]).entry_time
    }

    /// True when `trade_id` names an existing row.
    pub open spec fn has_row(&self, trade_id: i64) -> bool {
        1 <= trade_id && trade_id <= self.rows@.len()
    }

    /// The row named by `trade_id`.
    pub open spec fn row(&self, trade_id: i64) -> TradeRecord {
        self.rows@[trade_id - 1]
    }

    /// A fresh, empty ledger.
    pub fn new() -> (r: Database)
        ensures
            r.inv(),
            r.rows@.len() == 0,
            r.clock == 0,
    {
        Database { rows: Vec::new(), clock: 0 }
    }

    /// Insert a `PENDING` row for a trade attempt and return its id.
    /// The row records the order's token (also as display symbol), size,
    /// confidence, the probed entry reference price, and the effective time.
    pub fn log_trade_attempt(
        &mut self,
        details: &OrderDetails,
        strategy_id: &str,
        entry_price_usd: UsdMicro,
        now: i64,
    ) -> (id: i64)
        requires
            old(self).inv(),
            details.wf(),
            old(self).rows@.len() < i64::MAX as int,
        ensures
            final(self).inv(),
            id == old(self).rows@.len() + 1,
            final(self).rows@.len() == old(self).rows@.len() + 1,
            forall|i: int|
                0 <= i < old(self).rows@.len() ==> final(self).rows@[i] == old(self).rows@[i],
            ({
                let r = final(self).rows@.last();
                &&& r.id == id
                &&& r.strategy_id@ == strategy_id@
                &&& r.token_address@ == details.token_address@
                &&& r.symbol@ == details.token_address@
                &&& r.amount_usd == details.suggested_size_usd
                &&& r.status == TradeStatus::Pending
                &&& r.signature is None
                &&& r.entry_time == eff_time(old(self).clock as int, now as int)
                &&& r.entry_price_usd == entry_price_usd
                &&& r.close_time is None
                &&& r.close_price_usd is None
                &&& r.pnl_usd is None
                &&& r.confidence == details.confidence
            }),
            final(self).clock == eff_time(old(self).clock as int, now as int),
    {
        let eff: i64 = if now < self.clock {
            self.clock
        } else {
            now
        };
        let id: i64 = (self.rows.len() as i64) + 1;
        let rec = TradeRecord {
            id,
            strategy_id: strategy_id.to_owned(),
            token_address: details.token_address.clone(),
            symbol: details.token_address.clone(),
            amount_usd: details.suggested_size_usd,
            status: TradeStatus::Pending,
            signature: None,
            entry_time: eff,
            entry_price_usd,
            close_time: None,
            close_price_usd: None,
            pnl_usd: None,
            confidence: details.confidence,
        };
        self.rows.push(rec);
        self.clock = eff;
        id
    }

    /// Transition `PENDING -> OPEN`, recording the venue signature.
    /// Calling it again with the same signature on the row it already opened
    /// is a no-op (`Ok`); any other source state, a differing signature, or
    /// an unknown id is rejected without mutation.
    pub fn open_trade(&mut self, trade_id: i64, signature: &str) -> (r: Result<
        (),
        LedgerError,
    >)
        requires
            old(self).inv(),
        ensures
            final(self).inv(),
            ({
                let known = old(self).has_row(trade_id);
                let was = old(self).row(trade_id);
                if known && was.status == TradeStatus::Pending {
                    // the one lawful transition out of PENDING that this call makes
                    &&& r is Ok
                    &&& can_transition(was.status, TradeStatus::Open)
                    &&& final(self).rows@.len() == old(self).rows@.len()
                    &&& forall|i: int|
                        0 <= i < old(self).rows@.len() && i != trade_id - 1 ==> final(self).rows@[i] == old(self).rows@[i]
                    &&& ({
                        let n = final(self).row(trade_id);
                        &&& n.status == TradeStatus::Open
                        &&& n.signature matches Some(s) && s@ == signature@
                        &&& n.id == was.id
                        &&& n.strategy_id@ == was.strategy_id@
                        &&& n.token_address@ == was.token_address@
                        &&& n.symbol@ == was.symbol@
                        &&& n.amount_usd == was.amount_usd
                        &&& n.entry_time == was.entry_time
                        &&& n.entry_price_usd == was.entry_price_usd
                        &&& n.close_time is None
                        &&& n.close_price_usd is None
                        &&& n.pnl_usd is None
                        &&& n.confidence == was.confidence
                    })
                    &&& final(self).clock == old(self).clock
                } else if known && was.status == TradeStatus::Open
                    && (was.signature matches Some(s) && s@ == signature@) {
                    // idempotent re-open with the identical signature
                    &&& r is Ok
                    &&& *final(self) == *old(self)
                } else {
                    &&& r == Result::<(), LedgerError>::Err(LedgerError::InvalidTransition)
                    &&& *final(self) == *old(self)
                }
            }),
    {
        if trade_id < 1 || trade_id > self.rows.len() as i64 {
            return Err(LedgerError::InvalidTransition);
        }
        let idx = (trade_id - 1) as usize;
        let cur = &self.rows[idx];
        match cur.status {
            TradeStatus::Pending => {
                let updated = TradeRecord {
                    id: cur.id,
                    strategy_id: cur.strategy_id.clone(),
                    token_address: cur.token_address.clone(),
                    symbol: cur.symbol.clone(),
                    amount_usd: cur.amount_usd,
                    status: TradeStatus::Open,
                    signature: Some(signature.to_owned()),
                    entry_time: cur.entry_time,
                    entry_price_usd: cur.entry_price_usd,
                    close_time: None,
                    close_price_usd: None,
                    pnl_usd: None,
                    confidence: cur.confidence,
                };
                self.rows.set(idx, updated);
                Ok(())
            },
            TradeStatus::Open => {
                let owned = signature.to_owned();
                match &cur.signature {
                    Some(existing) => {
                        if *existing == owned {
                            Ok(())
                        } else {
                            Err(LedgerError::InvalidTransition)
                        }
                    },
                    None => Err(LedgerError::InvalidTransition),
                }
            },
            _ => Err(LedgerError::InvalidTransition),
        }
    }

    /// Transition `OPEN -> CLOSED_PROFIT | CLOSED_LOSS`, recording close
    /// price, realised pnl and the effective close time. The target status
    /// must match the sign of the pnl (profit iff pnl > 0; zero closes as a
    /// loss). Any other source state or target is rejected without mutation.
    pub fn update_trade_pnl(
        &mut self,
        trade_id: i64,
        status: TradeStatus,
        close_price_usd: UsdMicro,
        pnl_usd: UsdMicro,
        now: i64,
    ) -> (r: Result<(), LedgerError>)
        requires
            old(self).inv(),
        ensures
            final(self).inv(),
            ({
                let known = old(self).has_row(trade_id);
                let was = old(self).row(trade_id);
                let lawful = known && was.status == TradeStatus::Open && is_closed(status)
                    && (status == TradeStatus::ClosedProfit <==> pnl_usd > 0);
                if lawful {
                    &&& r is Ok
                    &&& can_transition(was.status, status)
                    &&& final(self).rows@.len() == old(self).rows@.len()
                    &&& forall|i: int|
                        0 <= i < old(self).rows@.len() && i != trade_id - 1 ==> final(self).rows@[i] == old(self).rows@[i]
                    &&& ({
                        let n = final(self).row(trade_id);
                        &&& n.status == status
                        &&& n.signature == was.signature
                        &&& n.id == was.id
                        &&& n.strategy_id@ == was.strategy_id@
                        &&& n.token_address@ == was.token_address@
                        &&& n.symbol@ == was.symbol@
                        &&& n.amount_usd == was.amount_usd
                        &&& n.entry_time == was.entry_time
                        &&& n.entry_price_usd == was.entry_price_usd
                        &&& n.close_time == Some(
                            eff_time(old(self).clock as int, now as int) as i64,
                        )
                        &&& n.close_price_usd == Some(close_price_usd)
                        &&& n.pnl_usd == Some(pnl_usd)
                        &&& n.confidence == was.confidence
                    })
                    &&& final(self).clock == eff_time(old(self).clock as int, now as int)
                } else {
                    &&& r == Result::<(), LedgerError>::Err(LedgerError::InvalidTransition)
                    &&& *final(self) == *old(self)
                }
            }),
    {
        if trade_id < 1 || trade_id > self.rows.len() as i64 {
            return Err(LedgerError::InvalidTransition);
        }
        let target_ok = match status {
            TradeStatus::ClosedProfit => pnl_usd > 0,
            TradeStatus::ClosedLoss => pnl_usd <= 0,
            _ => false,
        };
        if !target_ok {
            return Err(LedgerError::InvalidTransition);
        }
        let idx = (trade_id - 1) as usize;
        let cur = &self.rows[idx];
        match cur.status {
            TradeStatus::Open => {
                let eff: i64 = if now < self.clock {
                    self.clock
                } else {
                    now
                };
                let updated = TradeRecord {
                    id: cur.id,
                    strategy_id: cur.strategy_id.clone(),
                    token_address: cur.token_address.clone(),
                    symbol: cur.symbol.clone(),
                    amount_usd: cur.amount_usd,
                    status,
                    signature: match &cur.signature {
                        Some(s) => Some(s.clone()),
                        None => None,
                    },
                    entry_time: cur.entry_time,
                    entry_price_usd: cur.entry_price_usd,
                    close_time: Some(eff),
                    close_price_usd: Some(close_price_usd),
                    pnl_usd: Some(pnl_usd),
                    confidence: cur.confidence,
                };
                self.rows.set(idx, updated);
                self.clock = eff;
                Ok(())
            },
            _ => Err(LedgerError::InvalidTransition),
        }
    }

    /// All rows, newest entry first. Entry times are nondecreasing in id, so
    /// reversing the store yields the dashboard order.
    pub fn get_all_trades(&self) -> (r: Vec<TradeRecord>)
        requires
            self.inv(),
        ensures
            r@.len() == self.rows@.len(),
            forall|i: int|
                0 <= i < r@.len() ==> r@[i] == self.rows@[self.rows@.len() - 1 - i],
            forall|i: int, j: int|
                0 <= i <= j < r@.len() ==> r@[i].entry_time >= r@[j].entry_time,
    {
        let mut out: Vec<TradeRecord> = Vec::new();
        let n = self.rows.len();
        let mut i: usize = 0;
        while i < n
            invariant
                self.inv(),
                n == self.rows@.len(),
                i <= n,
                out@.len() == i,
                forall|k: int|
                    0 <= k < i ==> out@[k] == self.rows@[n - 1 - k],
            decreases n - i,
        {
            out.push(self.rows[n - 1 - i].duplicate());
            i += 1;
        }
        out
    }

    /// Total realised pnl: the sum of `pnl_usd` over closed rows, clamped to
    /// the i64 range; 0 when no row is closed.
    pub fn get_total_pnl(&self) -> (r: i64)
        requires
            self.inv(),
        ensures
            r as int == clamp_i64(spec_total_pnl(self.rows@)),
    {
        let n = self.rows.len();
        let mut acc: i128 = 0;
        let mut i: usize = 0;
        while i < n
            invariant
                self.inv(),
                n == self.rows@.len(),
                i <= n,
                acc as int == spec_total_pnl(self.rows@.take(i as int)),
                -(i as int) * (0x8000_0000_0000_0000 as int) <= acc as int,
                acc as int <= (i as int) * (0x7fff_ffff_ffff_ffff as int),
            decreases n - i,
        {
            proof {
                assert(self.rows@.take(i as int + 1).drop_last() =~= self.rows@.take(
                    i as int,
                ));
                assert(self.rows@.take(i as int + 1).last() == self.rows@[i as int]);
            }
            let row = &self.rows[i];
            let add_pnl = match row.status {
                TradeStatus::ClosedProfit | TradeStatus::ClosedLoss => {
                    match &row.pnl_usd {
                        Some(p) => *p,
                        None => 0,
                    }
                },
                _ => 0,
            };
            acc = acc + add_pnl as i128;
            i += 1;
        }
        proof {
            assert(self.rows@.take(n as int) =~= self.rows@);
        }
        if acc > i64::MAX as i128 {
            i64::MAX
        } else if acc < i64::MIN as i128 {
            i64::MIN
        } else {
            acc as i64
        }
    }

    /// Pipeline ordering: a row's entry time never exceeds its close time,
    /// so post-hoc reconciliation by signature can trust the timestamps.
    pub proof fn lemma_entry_precedes_close(&self, i: int)
        requires
            self.inv(),
            0 <= i < self.rows@.len(),
            self.rows@[i].close_time is Some,
        ensures
            self.rows@[i].entry_time <= self.rows@[i].close_time->0,
    {
    }
}

} // verus!
