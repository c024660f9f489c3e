//! Pressure classification: fuses the classic available-memory lane and the
//! optional pressure-stall lane into a single `PressureState`.

use vstd::prelude::*;
use crate::psi::PSIMetrics;

verus! {

/// Severity of host memory pressure, totally ordered by
/// `Healthy < Soft < Hard`.
#[derive(Clone, Copy, Debug, PartialEq, Eq, Structural)]
pub enum PressureState {
    Healthy,
    Soft,
    Hard,
}

impl PressureState {
    /// Numeric severity: `Healthy` is 0, `Soft` is 1, `Hard` is 2.
    pub open spec fn severity(self) -> int {
        match self {
            PressureState::Healthy => 0,
            PressureState::Soft => 1,
            PressureState::Hard => 2,
        }
    }
}

/// Memory-lane classification. `avail_centipct` is available memory as a
/// share of total, in hundredths of a percent; the thresholds are whole
/// percents. Strict `<` on both thresholds.
pub open spec fn spec_classify(avail_centipct: int, soft_pct: int, hard_pct: int) -> PressureState {
    if avail_centipct < hard_pct * 100 {
        PressureState::Hard
    } else if avail_centipct < soft_pct * 100 {
        PressureState::Soft
    } else {
        PressureState::Healthy
    }
}

/// Pressure-stall-lane classification. All three values are percentages in
/// hundredths of a percent; `>=` on both thresholds.
pub open spec fn spec_classify_psi(avg10: int, psi_soft: int, psi_hard: int) -> PressureState {
    if avg10 >= psi_hard {
        PressureState::Hard
    } else if avg10 >= psi_soft {
        PressureState::Soft
    } else {
        PressureState::Healthy
    }
}

/// Worst-of fusion of two lane classifications: the more severe one.
pub open spec fn spec_fuse(a: PressureState, b: PressureState) -> PressureState {
    if a.severity() >= b.severity() {
        a
    } else {
        b
    }
}

/// Classify the memory lane alone.
pub fn classify(avail_centipct: u64, soft_pct: u8, hard_pct: u8) -> (s: PressureState)
    ensures
        s == spec_classify(avail_centipct as int, soft_pct as int, hard_pct as int),
{
    if avail_centipct < (hard_pct as u64) * 100 {
        PressureState::Hard
    } else if avail_centipct < (soft_pct as u64) * 100 {
        PressureState::Soft
    } else {
        PressureState::Healthy
    }
}

/// The memory lane's threshold semantics: with ordered thresholds
/// (`hard <= soft`), the state is `Hard` exactly below the hard threshold,
/// `Soft` exactly in the gap, and `Healthy` exactly at or above the soft
/// threshold.
pub proof fn lemma_classify_characterization(avail_centipct: int, soft_pct: int, hard_pct: int)
    requires
        hard_pct <= soft_pct,
    ensures
        spec_classify(avail_centipct, soft_pct, hard_pct) == PressureState::Hard
            <==> avail_centipct < hard_pct * 100,
        spec_classify(avail_centipct, soft_pct, hard_pct) == PressureState::Soft
            <==> (hard_pct * 100 <= avail_centipct && avail_centipct < soft_pct * 100),
        spec_classify(avail_centipct, soft_pct, hard_pct) == PressureState::Healthy
            <==> avail_centipct >= soft_pct * 100,
{
}

/// Fuse two lane classifications by taking the more severe one.
pub fn fuse(a: PressureState, b: PressureState) -> (r: PressureState)
    ensures
        r == spec_fuse(a, b),
        r.severity() >= a.severity(),
        r.severity() >= b.severity(),
        r == a || r == b,
{
    match (a, b) {
        (PressureState::Hard, _) => PressureState::Hard,
        (_, PressureState::Hard) => PressureState::Hard,
        (PressureState::Soft, _) => PressureState::Soft,
        (_, PressureState::Soft) => PressureState::Soft,
        _ => PressureState::Healthy,
    }
}

/// What the dual-lane classification must yield: the worst of the memory
/// lane and, when a pressure-stall sample is present, the stall lane.
pub open spec fn spec_classify_with_psi(
    avail_centipct: int,
    soft_mem: int,
    hard_mem: int,
    psi_avg10: Option<int>,
    psi_soft: int,
    psi_hard: int,
) -> PressureState {
    let mem_state = spec_classify(avail_centipct, soft_mem, hard_mem);
    match psi_avg10 {
        Some(avg10) => spec_fuse(mem_state, spec_classify_psi(avg10, psi_soft, psi_hard)),
        None => mem_state,
    }
}

/// Dual-threshold classification: the memory lane is always consulted; the
/// pressure-stall lane (its `some` 10-second average against the two PSI
/// thresholds, in hundredths of a percent) only when a sample is present.
/// The result is the worst of the two lanes.
pub fn classify_with_psi(
    avail_centipct: u64,
    soft_mem: u8,
    hard_mem: u8,
    psi_metrics: Option<&PSIMetrics>,
    psi_soft: u64,
    psi_hard: u64,
) -> (s: PressureState)
    ensures
        s == spec_classify_with_psi(
            avail_centipct as int,
            soft_mem as int,
            hard_mem as int,
            match psi_metrics {
                Some(m) => Some(m.some_avg10 as int),
                None => None,
            },
            psi_soft as int,
            psi_hard as int,
        ),
{
    let mem_state = classify(avail_centipct, soft_mem, hard_mem);
    match psi_metrics {
        Some(psi) => {
            let psi_state = if psi.some_avg10 >= psi_hard {
                PressureState::Hard
            } else if psi.some_avg10 >= psi_soft {
                PressureState::Soft
            } else {
                PressureState::Healthy
            };
            fuse(mem_state, psi_state)
        },
        None => mem_state,
    }
}

} // verus!
