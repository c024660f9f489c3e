use memsentinel::cgroups::CgroupSlice;
use memsentinel::procinfo::{
    processes_with_badness, top_processes, ProcLite, ProcWithBadness, RawProc,
};

fn raw(pid: i32, name: &str, rss: u64, oom: i32, slice: CgroupSlice, unit: Option<&str>) -> RawProc {
    RawProc {
        pid,
        name: name.to_string(),
        rss_bytes: rss,
        oom_score_adj: oom,
        cgroup_slice: slice,
        cgroup_unit: unit.map(|u| u.to_string()),
    }
}

const GIB: u64 = 1073741824;

#[test]
fn test_protection_overrides_score() {
    // A has twice B's resident set but sits in a protected unit: only B
    // comes back.
    let procs = vec![
        raw(10, "a", 2 * GIB, 0, CgroupSlice::System, Some("sshd.service")),
        raw(20, "b", GIB, 0, CgroupSlice::User, Some("app.scope")),
    ];
    let exclude: Vec<String> = Vec::new();
    let protected = vec!["sshd.service".to_string()];
    let out = processes_with_badness(procs, &exclude, &protected, 8 * GIB);
    assert_eq!(out.len(), 1);
    assert_eq!(out[0].pid, 20);
}

#[test]
fn test_badness_formula() {
    // 1 GiB of 8 GiB is 125.00 of 1000 points from the resident set,
    // +200.00 from the adjustment, +100.00 from the user slice.
    let procs = vec![raw(1, "x", GIB, 200, CgroupSlice::User, None)];
    let exclude: Vec<String> = Vec::new();
    let protected: Vec<String> = Vec::new();
    let out = processes_with_badness(procs, &exclude, &protected, 8 * GIB);
    assert_eq!(out.len(), 1);
    assert_eq!(out[0].badness_score, 12500 + 20000 + 10000);
}

#[test]
fn test_badness_negative_adjustment_halved() {
    let procs = vec![raw(1, "x", GIB, -100, CgroupSlice::System, None)];
    let exclude: Vec<String> = Vec::new();
    let protected: Vec<String> = Vec::new();
    let out = processes_with_badness(procs, &exclude, &protected, 8 * GIB);
    assert_eq!(out[0].badness_score, 12500 - 5000 + 1000);
}

#[test]
fn test_calculate_badness_method() {
    let mut rec = ProcWithBadness {
        pid: 7,
        name: "x".to_string(),
        rss_bytes: GIB,
        oom_score_adj: 0,
        cgroup_slice: CgroupSlice::Unknown,
        cgroup_unit: None,
        badness_score: 0,
    };
    rec.calculate_badness(8 * GIB);
    assert_eq!(rec.badness_score, 12500 + 2500);
}

#[test]
fn test_exclude_substring_match() {
    let procs = vec![
        raw(1, "sshd-session", GIB, 0, CgroupSlice::System, None),
        raw(2, "postgres", GIB, 0, CgroupSlice::System, None),
    ];
    let exclude = vec!["sshd".to_string()];
    let protected: Vec<String> = Vec::new();
    let out = processes_with_badness(procs, &exclude, &protected, 8 * GIB);
    assert_eq!(out.len(), 1);
    assert_eq!(out[0].pid, 2);
}

#[test]
fn test_noise_floor_drops_small_processes() {
    let procs = vec![
        raw(1, "tiny", 10 * 1024 * 1024 - 1, 0, CgroupSlice::User, None),
        raw(2, "kept", 10 * 1024 * 1024, 0, CgroupSlice::User, None),
    ];
    let exclude: Vec<String> = Vec::new();
    let protected: Vec<String> = Vec::new();
    let out = processes_with_badness(procs, &exclude, &protected, 8 * GIB);
    assert_eq!(out.len(), 1);
    assert_eq!(out[0].pid, 2);
}

#[test]
fn test_sort_order_and_ties() {
    // With total = 100000 bytes the resident-set term equals the byte
    // count, so B's +1 adjustment makes A and B score equal; the larger
    // resident set wins the tie. C and D tie fully except for pid.
    let total: u64 = 100000;
    let procs = vec![
        raw(9, "a", 10485860, 0, CgroupSlice::Unknown, None),
        raw(1, "b", 10485760, 1, CgroupSlice::Unknown, None),
        raw(5, "c", 20000000, 0, CgroupSlice::Unknown, None),
        raw(3, "d", 20000000, 0, CgroupSlice::Unknown, None),
    ];
    let exclude: Vec<String> = Vec::new();
    let protected: Vec<String> = Vec::new();
    let out = processes_with_badness(procs, &exclude, &protected, total);
    let order: Vec<i32> = out.iter().map(|p| p.pid).collect();
    // c and d outscore a and b; equal scores fall back to resident set,
    // then ascending pid.
    assert_eq!(order, vec![3, 5, 9, 1]);
    assert_eq!(out[2].badness_score, out[3].badness_score);
    assert!(out[2].rss_bytes > out[3].rss_bytes);
}

#[test]
fn test_top_processes_limit_and_order() {
    let procs = vec![
        ProcLite { pid: 1, name: "small".to_string(), rss_bytes: 10 },
        ProcLite { pid: 2, name: "big".to_string(), rss_bytes: 300 },
        ProcLite { pid: 3, name: "mid".to_string(), rss_bytes: 200 },
        ProcLite { pid: 4, name: "sshd".to_string(), rss_bytes: 999 },
    ];
    let exclude = vec!["sshd".to_string()];
    let out = top_processes(procs, 2, &exclude);
    assert_eq!(out.len(), 2);
    assert_eq!(out[0].pid, 2);
    assert_eq!(out[1].pid, 3);
}
