//! The portfolio supervisor: drawdown detection over total realised pnl,
//! with hysteresis. It pauses when the drawdown exceeds the stop-loss
//! threshold and resumes only once the drawdown has fallen under 80% of it,
//! which leaves a re-entry buffer against flapping.
//!
//! Drawdown comparisons are exact cross-multiplications of
//! `dd = (hwm - pnl) / hwm * 100` against the threshold, so no rounding is
//! involved. The surrounding process broadcasts the returned signal on the
//! kill-switch topic; the supervisor itself stops nothing.

use vstd::prelude::*;

use crate::models::PctMicro;

verus! {

/// One hundred percent, in micro-percent.
pub const FULL_PCT_MICRO: i64 = 100_000_000;

/// Broadcast intent of the supervisor.
#[derive(Clone, Copy, Debug, PartialEq, Eq, Structural)]
pub enum KillSignal {
    Pause,
    Resume,
}

/// Drawdown state: the running high-water mark of cumulative realised pnl
/// (micro-USD), the pause flag, and the stop-loss threshold (micro-percent).
#[derive(Clone, Copy, Debug, PartialEq, Eq, Structural)]
pub struct Supervisor {
    pub hwm: i64,
    pub paused: bool,
    pub stop_loss_pct: PctMicro,
}

/// `dd > t`, where `dd = (h - pnl) / h * 100` percent when `h > 0` else 0,
/// and `t` is in micro-percent: exact, by cross-multiplication with `h`.
pub open spec fn spec_dd_exceeds(h: int, pnl: int, t: int) -> bool {
    h > 0 && (h - pnl) * 100_000_000 > t * h
}

/// `dd < 0.8 * t`, the resume bound, again exact: both sides of
/// `(h - pnl) * 100e6 / h < 8 * t / 10` are multiplied by `10 * h`.
pub open spec fn spec_dd_below_resume(h: int, pnl: int, t: int) -> bool {
    h <= 0 || (h - pnl) * 1_000_000_000 < 8 * (t * h)
}

impl Supervisor {
    /// The threshold is a positive percentage of at most 100%.
    pub open spec fn inv(&self) -> bool {
        &&& 0 <= self.hwm
        &&& 0 < self.stop_loss_pct <= FULL_PCT_MICRO
    }

    /// One tick of the supervisor on a pnl sample, as a value: the next
    /// state and the signal to broadcast, if any.
    pub open spec fn spec_tick(self, pnl: int) -> (Supervisor, Option<KillSignal>) {
        let h = if pnl > self.hwm {
            pnl
        } else {
            self.hwm as int
        };
        let t = self.stop_loss_pct as int;
        if !self.paused && spec_dd_exceeds(h, pnl, t) {
            (
                Supervisor { hwm: h as i64, paused: true, stop_loss_pct: self.stop_loss_pct },
                Some(KillSignal::Pause),
            )
        } else if self.paused && spec_dd_below_resume(h, pnl, t) {
            (
                Supervisor { hwm: h as i64, paused: false, stop_loss_pct: self.stop_loss_pct },
                Some(KillSignal::Resume),
            )
        } else {
            (
                Supervisor { hwm: h as i64, paused: self.paused, stop_loss_pct: self.stop_loss_pct },
                None,
            )
        }
    }

    /// A fresh supervisor: high-water mark re-derived from zero, not paused.
    pub fn new(stop_loss_pct: PctMicro) -> (r: Supervisor)
        requires
            0 < stop_loss_pct <= FULL_PCT_MICRO,
        ensures
            r.inv(),
            r.hwm == 0,
            !r.paused,
            r.stop_loss_pct == stop_loss_pct,
    {
        Supervisor { hwm: 0, paused: false, stop_loss_pct }
    }

    /// Absorb one total-pnl sample: raise the high-water mark, compare the
    /// drawdown against the thresholds, and report what to broadcast.
    pub fn tick(&mut self, pnl: i64) -> (r: Option<KillSignal>)
        requires
            old(self).inv(),
        ensures
            final(self).inv(),
            *final(self) == old(self).spec_tick(pnl as int).0,
            r == old(self).spec_tick(pnl as int).1,
    {
        let h: i64 = if pnl > self.hwm {
            pnl
        } else {
            self.hwm
        };
        self.hwm = h;
        let t = self.stop_loss_pct;
        let dd_scaled: i128 = (h as i128 - pnl as i128) * 100_000_000;
        proof {
            assert((t as int) * (h as int) <= 100_000_000 * 0x7fff_ffff_ffff_ffff
                && (t as int) * (h as int) >= 100_000_000 * (
            -0x8000_0000_0000_0000)) by (nonlinear_arith)
                requires
                    0 < t as int <= 100_000_000,
                    -0x8000_0000_0000_0000 <= h as int <= 0x7fff_ffff_ffff_ffff,
            ;
        }
        let th: i128 = (t as i128) * (h as i128);
        let exceeds = h > 0 && dd_scaled > th;
        let below_resume = h <= 0 || dd_scaled * 10 < 8 * th;
        if !self.paused && exceeds {
            self.paused = true;
            Some(KillSignal::Pause)
        } else if self.paused && below_resume {
            self.paused = false;
            Some(KillSignal::Resume)
        } else {
            None
        }
    }
}

/// The state after a run of ticks.
pub open spec fn spec_run(s: Supervisor, pnls: Seq<int>) -> Supervisor
    decreases pnls.len(),
{
    if pnls.len() == 0 {
        s
    } else {
        spec_run(s.spec_tick(pnls[0]).0, pnls.drop_first())
    }
}

/// True when a run of ticks broadcasts nothing at all.
pub open spec fn spec_run_silent(s: Supervisor, pnls: Seq<int>) -> bool
    decreases pnls.len(),
{
    if pnls.len() == 0 {
        true
    } else {
        s.spec_tick(pnls[0]).1 is None && spec_run_silent(s.spec_tick(pnls[0]).0, pnls.drop_first())
    }
}

/// The drawdown of sample `pnl` against state `s` lies in the hysteresis
/// band `[0.8 * t, t]`: neither the pause nor the resume comparison fires.
pub open spec fn in_hysteresis_band(s: Supervisor, pnl: int) -> bool {
    let h = if pnl > s.hwm {
        pnl
    } else {
        s.hwm as int
    };
    !spec_dd_exceeds(h, pnl, s.stop_loss_pct as int) && !spec_dd_below_resume(
        h,
        pnl,
        s.stop_loss_pct as int,
    )
}

/// Supervisor hysteresis: while the drawdown oscillates inside the band
/// between the resume bound and the stop-loss bound, crossing neither, the
/// supervisor broadcasts nothing and its state does not change at all — in
/// particular there is no pause/resume flapping.
pub proof fn lemma_supervisor_hysteresis(s: Supervisor, pnls: Seq<int>)
    requires
        s.inv(),
        forall|i: int| 0 <= i < pnls.len() ==> #[trigger] in_hysteresis_band(s, pnls[i]),
    ensures
        spec_run(s, pnls) == s,
        spec_run_silent(s, pnls),
    decreases pnls.len(),
{
    if pnls.len() > 0 {
        let pnl = pnls[0];
        assert(in_hysteresis_band(s, pnl));
        // inside the band the drawdown is positive, so the sample sits below
        // the high-water mark and the mark does not move
        let h = if pnl > s.hwm {
            pnl
        } else {
            s.hwm as int
        };
        if pnl > s.hwm {
            // then dd = 0, which is under the resume bound: contradiction
            assert(h == pnl && h > 0);
            assert((h - pnl) * 1_000_000_000 == 0);
            assert(8 * ((s.stop_loss_pct as int) * h) > 0) by (nonlinear_arith)
                requires
                    s.stop_loss_pct > 0,
                    h > 0,
            ;
            assert(spec_dd_below_resume(h, pnl, s.stop_loss_pct as int));
            assert(false);
        }
        assert(s.spec_tick(pnl).0 == s);
        assert(s.spec_tick(pnl).1 is None);
        assert forall|i: int|
            0 <= i < pnls.drop_first().len() implies #[trigger] in_hysteresis_band(
            s,
            pnls.drop_first()[i],
        ) by {
            assert(pnls.drop_first()[i] == pnls[i + 1]);
        }
        lemma_supervisor_hysteresis(s, pnls.drop_first());
    }
}

} // verus!
