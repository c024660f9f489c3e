use memsentinel::config::Config;
use memsentinel::mem::parse_meminfo;
use memsentinel::policy::PressureState;
use memsentinel::ratelimit::RateLimiter;
use memsentinel::reserve::Reserve;
use memsentinel::supervisor::{
    classify_sample, mode_of, parse_pid_file, reload_step, Action, Mode, Supervisor,
};

#[test]
fn test_reserve_hold_release() {
    let mut reserve = Reserve::new();
    reserve.hold(1);
    assert!(reserve.is_held());
    reserve.release();
    assert!(!reserve.is_held());
}

#[test]
fn test_reserve_rehold() {
    let mut reserve = Reserve::new();
    reserve.hold(1);
    reserve.hold(2);
    assert!(reserve.is_held());
    reserve.release();
    assert!(!reserve.is_held());
}

#[test]
fn test_rate_limiter_window() {
    let mut rl = RateLimiter::new(2);
    assert!(rl.try_consume(10));
    assert!(rl.try_consume(10));
    assert!(!rl.try_consume(10));
    // 69 is still within 60 seconds of both grants at 10.
    assert!(!rl.try_consume(69));
    // At 70 the grants from 10 have left the window.
    assert!(rl.try_consume(70));
}

#[test]
fn test_rate_limiter_spacing() {
    let mut rl = RateLimiter::new(1);
    assert!(rl.try_consume(0));
    assert!(!rl.try_consume(59));
    assert!(rl.try_consume(60));
    assert!(!rl.try_consume(119));
    assert!(rl.try_consume(120));
}

#[test]
fn test_mode_of() {
    assert_eq!(mode_of("kill"), Mode::Kill);
    assert_eq!(mode_of("slow"), Mode::Slow);
    assert_eq!(mode_of("hybrid"), Mode::Hybrid);
    assert_eq!(mode_of("anything-else"), Mode::Hybrid);
}

#[test]
fn test_meminfo_soft_entry_releases_reserve() {
    // 8 GiB total with 10% available and no stall sample: a Soft tick.
    let text = "MemTotal:  8388608 kB\nMemAvailable:  838861 kB\nMemFree: 100000 kB\n";
    let sample = parse_meminfo(text);
    assert_eq!(sample.avail_centipct, 1000);

    let cfg = Config::default();
    let state = classify_sample(&cfg, &sample, None);
    assert_eq!(state, PressureState::Soft);

    let mut sup = Supervisor::new(cfg.max_actions_per_min);
    let actions = sup.plan(&cfg, state, sample.avail_centipct, true, Some(4242), 0);
    // The previously held reserve is released and one rate-gated action
    // is emitted (hybrid pauses on Soft).
    assert_eq!(actions, vec![Action::ReleaseReserve, Action::Stop(4242)]);
}

#[test]
fn test_hybrid_soft_then_hard_escalates() {
    let cfg = Config::default();
    let mut sup = Supervisor::new(cfg.max_actions_per_min);

    // Soft tick: the victim is paused.
    let actions = sup.plan(&cfg, PressureState::Soft, 1000, true, Some(101), 0);
    assert_eq!(actions, vec![Action::ReleaseReserve, Action::Stop(101)]);

    // Next tick classifies Hard: terminate with escalation.
    let actions = sup.plan(&cfg, PressureState::Hard, 300, false, Some(101), 2);
    assert_eq!(actions, vec![Action::TermThenKill(101)]);
}

#[test]
fn test_healthy_resumes_stopped_and_reholds() {
    let cfg = Config::default();
    let mut sup = Supervisor::new(cfg.max_actions_per_min);

    let actions = sup.plan(&cfg, PressureState::Soft, 1000, true, Some(7), 0);
    assert_eq!(actions, vec![Action::ReleaseReserve, Action::Stop(7)]);

    // Back to Healthy with the hysteresis margin clear (>= soft + 5):
    // resume the paused pid and re-hold the reserve.
    let actions = sup.plan(&cfg, PressureState::Healthy, 2000, false, None, 2);
    assert_eq!(actions, vec![Action::Cont(7), Action::HoldReserve(cfg.reserve_mb)]);

    // Within the margin nothing is re-held.
    let actions = sup.plan(&cfg, PressureState::Healthy, 1999, false, None, 4);
    assert_eq!(actions, Vec::<Action>::new());
}

#[test]
fn test_rate_limit_gates_actions() {
    let mut cfg = Config::default();
    cfg.max_actions_per_min = 1;
    let mut sup = Supervisor::new(cfg.max_actions_per_min);

    let actions = sup.plan(&cfg, PressureState::Hard, 100, false, Some(11), 0);
    assert_eq!(actions, vec![Action::TermThenKill(11)]);
    // The next victim action within the window is denied and skipped.
    let actions = sup.plan(&cfg, PressureState::Hard, 100, false, Some(12), 2);
    assert_eq!(actions, Vec::<Action>::new());
}

#[test]
fn test_kill_mode_terminates_on_soft() {
    let mut cfg = Config::default();
    cfg.mode = "kill".to_string();
    let mut sup = Supervisor::new(cfg.max_actions_per_min);
    let actions = sup.plan(&cfg, PressureState::Soft, 1000, false, Some(5), 0);
    assert_eq!(actions, vec![Action::TermThenKill(5)]);
}

#[test]
fn test_reload_atomicity() {
    let old_text = "reserve_mb = 512\nsoft_threshold_pct = 15\nhard_threshold_pct = 5\n\
                    mode = \"hybrid\"\nscan_interval_sec = 2\nexclude_names = []\n\
                    max_actions_per_min = 4\n";
    let cfg = Config::from_toml(old_text).unwrap();
    assert_eq!(cfg.scan_interval_sec, 2);

    // The tick in flight still samples and classifies under the old
    // thresholds; the new file only takes over at the tick boundary.
    let sample = parse_meminfo("MemTotal: 1000 kB\nMemAvailable: 100 kB\n");
    let state = classify_sample(&cfg, &sample, None);
    assert_eq!(state, PressureState::Soft);

    let new_text = "reserve_mb = 512\nsoft_threshold_pct = 15\nhard_threshold_pct = 5\n\
                    mode = \"hybrid\"\nscan_interval_sec = 5\nexclude_names = []\n\
                    max_actions_per_min = 4\n";
    let cfg = reload_step(cfg, Config::from_toml(new_text));
    assert_eq!(cfg.scan_interval_sec, 5);

    // A reload that fails to parse keeps the configuration whole.
    let cfg = reload_step(cfg, Config::from_toml("mode = kill oops"));
    assert_eq!(cfg.scan_interval_sec, 5);
}

#[test]
fn test_parse_pid_file() {
    assert_eq!(parse_pid_file("1234\n"), Some(1234));
    assert_eq!(parse_pid_file("1234"), Some(1234));
    assert_eq!(parse_pid_file(" 42 \n"), Some(42));
    assert_eq!(parse_pid_file("12x4\n"), None);
    assert_eq!(parse_pid_file(""), None);
    assert_eq!(parse_pid_file("-5\n"), None);
    // Beyond the pid range.
    assert_eq!(parse_pid_file("4294967295\n"), None);
}

#[test]
fn test_zero_total_forces_healthy() {
    let cfg = Config::default();
    let sample = parse_meminfo("MemFree: 100 kB\n");
    assert_eq!(sample.mem_total, 0);
    assert_eq!(classify_sample(&cfg, &sample, None), PressureState::Healthy);
}
