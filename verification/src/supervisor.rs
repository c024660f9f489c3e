//! The supervisor's decision logic: one tick's classification and the
//! entry actions it implies — reserve handling, victim actions gated by
//! the rate limiter, and resuming previously stopped processes. The
//! surrounding loop performs the actions and hands back their outcomes.

use vstd::prelude::*;
use crate::config::{Config, ConfigParseError, ConfigV};
use crate::mem::MemSample;
use crate::policy::{classify_with_psi, spec_classify_with_psi, PressureState};
use crate::psi::PSIMetrics;
use crate::ratelimit::{expired_count, RateLimiter};
use crate::text::{
    digits_val, first_index_of, is_u64_string, lemma_first_index_at, parse_u64, str_eq,
    str_trim, trim_spec,
};

verus! {

/// The action policy: terminate outright, pause first, or pause on Soft
/// and terminate on Hard.
#[derive(Debug, Clone, Copy, PartialEq, Eq, Structural)]
pub enum Mode {
    Kill,
    Slow,
    Hybrid,
}

/// The mode a configuration names: `kill` or `slow`, anything else being
/// the default `hybrid`.
pub open spec fn spec_mode_of(s: Seq<char>) -> Mode {
    if s == "kill"@ {
        Mode::Kill
    } else if s == "slow"@ {
        Mode::Slow
    } else {
        Mode::Hybrid
    }
}

/// Read the action policy out of the configured mode string.
pub fn mode_of(s: &str) -> (m: Mode)
    ensures
        m == spec_mode_of(s@),
{
    if str_eq(s, "kill") {
        Mode::Kill
    } else if str_eq(s, "slow") {
        Mode::Slow
    } else {
        Mode::Hybrid
    }
}

/// One remedial step the supervisor asks its surroundings to perform.
/// `TermThenKill` means: send TERM, wait 100 ms, and send KILL if the
/// process still exists.
#[derive(Debug, Clone, Copy, PartialEq, Eq, Structural)]
pub enum Action {
    HoldReserve(u64),
    ReleaseReserve,
    Stop(i32),
    Cont(i32),
    TermThenKill(i32),
}

/// Classify one tick's samples under a configuration: the memory lane,
/// fused with the pressure-stall lane when it is enabled and present. A
/// zero memory total forces `Healthy`: scoring input would be
/// meaningless.
pub open spec fn spec_tick_state(cfg: ConfigV, mem: MemSample, psi: Option<PSIMetrics>) -> PressureState {
    if mem.mem_total == 0 {
        PressureState::Healthy
    } else {
        spec_classify_with_psi(
            mem.avail_centipct as int,
            cfg.soft_threshold_pct as int,
            cfg.hard_threshold_pct as int,
            match (cfg.psi_enabled, psi) {
                (true, Some(m)) => Some(m.some_avg10 as int),
                _ => None,
            },
            cfg.psi_soft_centipct as int,
            cfg.psi_hard_centipct as int,
        )
    }
}

/// Classify one tick's samples under a configuration.
pub fn classify_sample(cfg: &Config, mem: &MemSample, psi: Option<&PSIMetrics>) -> (s: PressureState)
    ensures
        s == spec_tick_state(cfg@, *mem, match psi {
            Some(m) => Some(*m),
            None => None,
        }),
{
    if mem.mem_total == 0 {
        PressureState::Healthy
    } else {
        classify_with_psi(
            mem.avail_centipct,
            cfg.soft_threshold_pct,
            cfg.hard_threshold_pct,
            if cfg.psi_enabled {
                psi
            } else {
                None
            },
            cfg.psi_soft_centipct,
            cfg.psi_hard_centipct,
        )
    }
}

/// The victim-directed action for a granted request: `kill` mode and
/// every Hard entry terminate with escalation; `slow` and `hybrid` pause
/// on Soft.
pub open spec fn victim_action(mode: Mode, st: PressureState, v: i32) -> Action {
    if st == PressureState::Hard {
        Action::TermThenKill(v)
    } else {
        match mode {
            Mode::Kill => Action::TermThenKill(v),
            Mode::Slow => Action::Stop(v),
            Mode::Hybrid => Action::Stop(v),
        }
    }
}

/// The actions one tick's entry into `st` implies. On `Healthy`: resume
/// every tracked stopped process, and re-hold the reserve when the
/// hysteresis margin (soft threshold plus five points) is clear. On
/// `Soft` and `Hard`: release a held reserve, then act on the victim
/// when one was selected and the limiter granted the action.
pub open spec fn spec_plan(
    mode: Mode,
    st: PressureState,
    avail_centipct: int,
    soft_pct: int,
    reserve_mb: u64,
    reserve_held: bool,
    victim: Option<i32>,
    granted: bool,
    stopped: Seq<i32>,
) -> Seq<Action> {
    match st {
        PressureState::Healthy => stopped.map_values(|p: i32| Action::Cont(p)) + (if avail_centipct
            >= (soft_pct + 5) * 100 && !reserve_held {
            seq![Action::HoldReserve(reserve_mb)]
        } else {
            Seq::empty()
        }),
        PressureState::Soft => (if reserve_held {
            seq![Action::ReleaseReserve]
        } else {
            Seq::empty()
        }) + (match victim {
            Some(v) => if granted {
                seq![victim_action(mode, PressureState::Soft, v)]
            } else {
                Seq::empty()
            },
            None => Seq::empty(),
        }),
        PressureState::Hard => (if reserve_held {
            seq![Action::ReleaseReserve]
        } else {
            Seq::empty()
        }) + (match victim {
            Some(v) => if granted {
                seq![victim_action(mode, PressureState::Hard, v)]
            } else {
                Seq::empty()
            },
            None => Seq::empty(),
        }),
    }
}

/// The tracked stopped pids after the tick: cleared on `Healthy`,
/// extended by a freshly paused victim, otherwise unchanged.
pub open spec fn spec_stopped_after(
    mode: Mode,
    st: PressureState,
    victim: Option<i32>,
    granted: bool,
    stopped: Seq<i32>,
) -> Seq<i32> {
    match st {
        PressureState::Healthy => Seq::empty(),
        PressureState::Soft => match victim {
            Some(v) => if granted && victim_action(mode, st, v) == Action::Stop(v)
                && !stopped.contains(v) {
                stopped.push(v)
            } else {
                stopped
            },
            None => stopped,
        },
        PressureState::Hard => stopped,
    }
}

/// The action table by mode: a Soft entry pauses the victim under
/// `slow` and `hybrid` and terminates it under `kill`; a Hard entry
/// always terminates with escalation.
pub proof fn lemma_action_policy(v: i32)
    ensures
        victim_action(Mode::Kill, PressureState::Soft, v) == Action::TermThenKill(v),
        victim_action(Mode::Slow, PressureState::Soft, v) == Action::Stop(v),
        victim_action(Mode::Hybrid, PressureState::Soft, v) == Action::Stop(v),
        victim_action(Mode::Kill, PressureState::Hard, v) == Action::TermThenKill(v),
        victim_action(Mode::Slow, PressureState::Hard, v) == Action::TermThenKill(v),
        victim_action(Mode::Hybrid, PressureState::Hard, v) == Action::TermThenKill(v),
{
}

/// Entering Soft or Hard with the reserve held releases it first, and
/// at most one victim-directed action follows — exactly when a victim
/// was at hand and the limiter granted it.
pub proof fn lemma_entry_releases_reserve(
    mode: Mode,
    st: PressureState,
    avail_centipct: int,
    soft_pct: int,
    reserve_mb: u64,
    victim: Option<i32>,
    granted: bool,
    stopped: Seq<i32>,
)
    requires
        st == PressureState::Soft || st == PressureState::Hard,
    ensures
        ({
            let acts = spec_plan(
                mode,
                st,
                avail_centipct,
                soft_pct,
                reserve_mb,
                true,
                victim,
                granted,
                stopped,
            );
            &&& acts.len() >= 1
            &&& acts[0] == Action::ReleaseReserve
            &&& acts.len() <= 2
            &&& (acts.len() == 2 <==> (granted && victim is Some))
            &&& (acts.len() == 2 ==> acts[1] == victim_action(mode, st, victim->0))
        }),
{
    let acts = spec_plan(
        mode,
        st,
        avail_centipct,
        soft_pct,
        reserve_mb,
        true,
        victim,
        granted,
        stopped,
    );
    match victim {
        Some(v) => {
            if granted {
                assert(acts =~= seq![Action::ReleaseReserve, victim_action(mode, st, v)]);
            } else {
                assert(acts =~= seq![Action::ReleaseReserve]);
            }
        },
        None => {
            assert(acts =~= seq![Action::ReleaseReserve]);
        },
    }
}

/// The supervisor's mutable state across ticks: the pressure state, the
/// pids it has paused and still tracks, and the action rate limiter.
pub struct Supervisor {
    pub state: PressureState,
    pub stopped: Vec<i32>,
    pub limiter: RateLimiter,
}

impl Supervisor {
    /// Whether the limiter's history is consistent.
    pub open spec fn wf(self) -> bool {
        self.limiter.wf()
    }

    /// A fresh supervisor: healthy, tracking nothing, with an unused
    /// limiter capped at `max_actions_per_min`.
    pub fn new(max_actions_per_min: u32) -> (r: Supervisor)
        ensures
            r.wf(),
            r.state == PressureState::Healthy,
            r.stopped@ == Seq::<i32>::empty(),
            r.limiter.max() == max_actions_per_min as int,
            r.limiter.grants() == Seq::<u64>::empty(),
            r.limiter.now() == 0,
    {
        Supervisor {
            state: PressureState::Healthy,
            stopped: Vec::new(),
            limiter: RateLimiter::new(max_actions_per_min),
        }
    }

    /// Decide one tick's entry actions for the freshly classified state.
    /// `victim` is the top-scored candidate when one was enumerated;
    /// `now` is the tick's time in seconds, non-decreasing across calls.
    /// The limiter is consulted exactly when a victim is to be acted on
    /// (a non-healthy state with a victim at hand); reserve handling is
    /// never rate-gated.
    pub fn plan(
        &mut self,
        cfg: &Config,
        new_state: PressureState,
        avail_centipct: u64,
        reserve_held: bool,
        victim: Option<i32>,
        now: u64,
    ) -> (actions: Vec<Action>)
        requires
            old(self).wf(),
            now >= old(self).limiter.now(),
        ensures
            final(self).wf(),
            final(self).state == new_state,
            final(self).limiter.max() == old(self).limiter.max(),
            ({
                let consulted = new_state != PressureState::Healthy && victim is Some;
                let granted = consulted && old(self).limiter.grants().len() - expired_count(
                    old(self).limiter.grants(),
                    now as int,
                ) < old(self).limiter.max();
                &&& (consulted ==> final(self).limiter.now() == now)
                &&& (!consulted ==> final(self).limiter == old(self).limiter)
                &&& (granted ==> final(self).limiter.grants() == old(
                    self,
                ).limiter.grants().push(now))
                &&& ((consulted && !granted) ==> final(self).limiter.grants() == old(
                    self,
                ).limiter.grants())
                &&& actions@ == spec_plan(
                    spec_mode_of(cfg.mode@),
                    new_state,
                    avail_centipct as int,
                    cfg.soft_threshold_pct as int,
                    cfg.reserve_mb,
                    reserve_held,
                    victim,
                    granted,
                    old(self).stopped@,
                )
                &&& final(self).stopped@ == spec_stopped_after(
                    spec_mode_of(cfg.mode@),
                    new_state,
                    victim,
                    granted,
                    old(self).stopped@,
                )
            }),
    {
        let mode = mode_of(cfg.mode.as_str());
        let mut actions: Vec<Action> = Vec::new();
        self.state = new_state;
        match new_state {
            PressureState::Healthy => {
                let ghost stopped0 = self.stopped@;
                let mut i: usize = 0;
                proof {
                    assert(actions@ =~= stopped0.take(0).map_values(|p: i32| Action::Cont(p)));
                }
                while i < self.stopped.len()
                    invariant
                        0 <= i <= self.stopped@.len(),
                        self.stopped@ == stopped0,
                        actions@ == stopped0.take(i as int).map_values(|p: i32| Action::Cont(p)),
                    decreases self.stopped@.len() - i,
                {
                    actions.push(Action::Cont(self.stopped[i]));
                    proof {
                        assert(stopped0.take(i + 1).drop_last() =~= stopped0.take(i as int));
                        assert(stopped0.take(i + 1).map_values(|p: i32| Action::Cont(p))
                            =~= stopped0.take(i as int).map_values(|p: i32| Action::Cont(p)).push(
                            Action::Cont(stopped0[i as int]),
                        ));
                    }
                    i += 1;
                }
                proof {
                    assert(stopped0.take(stopped0.len() as int) =~= stopped0);
                }
                self.stopped = Vec::new();
                let threshold = (cfg.soft_threshold_pct as u64 + 5) * 100;
                if avail_centipct >= threshold && !reserve_held {
                    actions.push(Action::HoldReserve(cfg.reserve_mb));
                    proof {
                        assert(actions@ =~= stopped0.map_values(|p: i32| Action::Cont(p))
                            + seq![Action::HoldReserve(cfg.reserve_mb)]);
                    }
                } else {
                    proof {
                        assert(actions@ =~= stopped0.map_values(|p: i32| Action::Cont(p))
                            + Seq::<Action>::empty());
                    }
                }
                actions
            },
            PressureState::Soft => {
                if reserve_held {
                    actions.push(Action::ReleaseReserve);
                }
                match victim {
                    Some(v) => {
                        let granted = self.limiter.try_consume(now);
                        if granted {
                            let act = if matches!(mode, Mode::Kill) {
                                Action::TermThenKill(v)
                            } else {
                                Action::Stop(v)
                            };
                            actions.push(act);
                            if matches!(act, Action::Stop(_)) && !contains_pid(&self.stopped, v) {
                                self.stopped.push(v);
                            }
                        }
                    },
                    None => {},
                }
                proof {
                    let granted_spec = new_state != PressureState::Healthy && victim is Some
                        && old(self).limiter.grants().len() - expired_count(
                        old(self).limiter.grants(),
                        now as int,
                    ) < old(self).limiter.max();
                    assert(actions@ =~= spec_plan(
                        spec_mode_of(cfg.mode@),
                        new_state,
                        avail_centipct as int,
                        cfg.soft_threshold_pct as int,
                        cfg.reserve_mb,
                        reserve_held,
                        victim,
                        granted_spec,
                        old(self).stopped@,
                    ));
                }
                actions
            },
            PressureState::Hard => {
                if reserve_held {
                    actions.push(Action::ReleaseReserve);
                }
                match victim {
                    Some(v) => {
                        let granted = self.limiter.try_consume(now);
                        if granted {
                            actions.push(Action::TermThenKill(v));
                        }
                    },
                    None => {},
                }
                proof {
                    let granted_spec = new_state != PressureState::Healthy && victim is Some
                        && old(self).limiter.grants().len() - expired_count(
                        old(self).limiter.grants(),
                        now as int,
                    ) < old(self).limiter.max();
                    assert(actions@ =~= spec_plan(
                        spec_mode_of(cfg.mode@),
                        new_state,
                        avail_centipct as int,
                        cfg.soft_threshold_pct as int,
                        cfg.reserve_mb,
                        reserve_held,
                        victim,
                        granted_spec,
                        old(self).stopped@,
                    ));
                }
                actions
            },
        }
    }
}

/// Whether a pid is already tracked.
fn contains_pid(v: &Vec<i32>, pid: i32) -> (r: bool)
    ensures
        r == v@.contains(pid),
{
    let mut i: usize = 0;
    while i < v.len()
        invariant
            0 <= i <= v@.len(),
            forall|j: int| 0 <= j < i ==> v@[j] != pid,
        decreases v@.len() - i,
    {
        if v[i] == pid {
            return true;
        }
        i += 1;
    }
    proof {
        if v@.contains(pid) {
            let j = choose|j: int| 0 <= j < v@.len() && v@[j] == pid;
        }
    }
    false
}

/// The pid a pid file records: its first line, trimmed, read as a
/// decimal that fits a pid; nothing when the line is not of that shape.
pub open spec fn pid_of_text(s: Seq<char>) -> Option<i32> {
    let t = trim_spec(s.take(first_index_of(s, '\n') as int));
    if is_u64_string(t) && digits_val(t) <= i32::MAX {
        Some(digits_val(t) as i32)
    } else {
        None
    }
}

/// Parse the contents of a pid file: a decimal pid followed by a
/// newline, surrounding spaces tolerated.
pub fn parse_pid_file(s: &str) -> (r: Option<i32>)
    ensures
        r == pid_of_text(s@),
{
    let n = s.unicode_len();
    let mut i: usize = 0;
    while i < n && s.get_char(i) != '\n'
        invariant
            0 <= i <= n,
            n == s@.len(),
            forall|j: int| 0 <= j < i ==> s@[j] != '\n',
        decreases n - i,
    {
        i += 1;
    }
    proof {
        lemma_first_index_at(s@, '\n', i as int);
        assert(s@.subrange(0, i as int) =~= s@.take(i as int));
    }
    let first = s.substring_char(0, i);
    let t = str_trim(first);
    match parse_u64(t) {
        Some(v) => {
            proof {
                crate::text::lemma_digits_val_nonneg(t@);
            }
            if v <= i32::MAX as u64 {
                Some(v as i32)
            } else {
                None
            }
        },
        None => None,
    }
}

/// Apply the outcome of a configuration reload: a parsed file replaces
/// the configuration whole, a failed parse keeps the previous one.
pub fn reload_step(current: Config, parsed: Result<Config, ConfigParseError>) -> (r: Config)
    ensures
        match parsed {
            Ok(c) => r@ == c@,
            Err(_) => r@ == current@,
        },
{
    match parsed {
        Ok(c) => c,
        Err(_) => current,
    }
}

} // verus!
