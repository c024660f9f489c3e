use memsentinel::cgroups::{count_slices, CgroupInfo, CgroupSlice};

#[test]
fn test_parse_cgroup_user_slice() {
    let sample = "0::/user.slice/user-1000.slice/user@1000.service/app.slice/app-firefox.scope";
    let info = CgroupInfo::parse(sample);

    assert_eq!(info.slice, CgroupSlice::User);
    assert!(info.unit_name.is_some());
    assert!(info.raw_path.contains("user.slice"));
}

#[test]
fn test_parse_cgroup_system_slice() {
    let sample = "0::/system.slice/sshd.service";
    let info = CgroupInfo::parse(sample);

    assert_eq!(info.slice, CgroupSlice::System);
    assert_eq!(info.unit_name, Some("sshd.service".to_string()));
}

#[test]
fn test_is_protected() {
    let sample = "0::/system.slice/sshd.service";
    let info = CgroupInfo::parse(sample);

    let protected = vec!["sshd.service".to_string(), "sentinel.service".to_string()];
    assert!(info.is_protected(&protected));

    let not_protected = vec!["sentinel.service".to_string()];
    assert!(!info.is_protected(&not_protected));
}

#[test]
fn test_slice_priority() {
    assert!(CgroupSlice::User.priority_score() > CgroupSlice::System.priority_score());
    assert!(CgroupSlice::System.priority_score() > CgroupSlice::Init.priority_score());
}

#[test]
fn test_cgroup_classification_unit_name() {
    let sample = "0::/user.slice/user-1000.slice/user@1000.service/app.slice/app-firefox.scope";
    let info = CgroupInfo::parse(sample);
    assert_eq!(info.slice, CgroupSlice::User);
    assert_eq!(info.unit_name, Some("app-firefox.scope".to_string()));
    assert_eq!(
        info.raw_path,
        "/user.slice/user-1000.slice/user@1000.service/app.slice/app-firefox.scope"
    );
}

#[test]
fn test_cgroup_machine_and_init() {
    let machine = CgroupInfo::parse("0::/machine.slice/machine-qemu.scope");
    assert_eq!(machine.slice, CgroupSlice::Machine);
    assert_eq!(machine.unit_name, Some("machine-qemu.scope".to_string()));

    let init = CgroupInfo::parse("0::/init.scope");
    assert_eq!(init.slice, CgroupSlice::Init);
    assert_eq!(init.unit_name, Some("init.scope".to_string()));
}

#[test]
fn test_init_scope_requires_exact_path() {
    // Only the exact path /init.scope is init; a path that merely
    // contains the segment stays unattributed.
    let nested = CgroupInfo::parse("0::/container/init.scope");
    assert_eq!(nested.slice, CgroupSlice::Unknown);
    assert_eq!(nested.unit_name, None);

    let suffixed = CgroupInfo::parse("0::/init.scope/extra");
    assert_eq!(suffixed.slice, CgroupSlice::Unknown);
    assert_eq!(suffixed.unit_name, None);
}

#[test]
fn test_cgroup_missing_v2_line() {
    let info = CgroupInfo::parse("1:name=systemd:/\n");
    assert_eq!(info.slice, CgroupSlice::Unknown);
    assert_eq!(info.unit_name, None);
    assert_eq!(info.raw_path, "");
}

#[test]
fn test_priority_score_values() {
    assert_eq!(CgroupSlice::User.priority_score(), 100);
    assert_eq!(CgroupSlice::Machine.priority_score(), 50);
    assert_eq!(CgroupSlice::Unknown.priority_score(), 25);
    assert_eq!(CgroupSlice::System.priority_score(), 10);
    assert_eq!(CgroupSlice::Init.priority_score(), 0);
}

#[test]
fn test_count_slices() {
    let slices = vec![
        CgroupSlice::User,
        CgroupSlice::System,
        CgroupSlice::User,
        CgroupSlice::Init,
        CgroupSlice::Unknown,
        CgroupSlice::User,
    ];
    let stats = count_slices(&slices);
    assert_eq!(stats.user, 3);
    assert_eq!(stats.system, 1);
    assert_eq!(stats.machine, 0);
    assert_eq!(stats.init, 1);
    assert_eq!(stats.unknown, 1);
}
