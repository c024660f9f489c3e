use memsentinel::config::{default_psi_enabled, Config};

#[test]
fn test_config_parse() {
    let toml = r#"
            reserve_mb = 256
            soft_threshold_pct = 10
            hard_threshold_pct = 3
            mode = "kill"
            scan_interval_sec = 1
            exclude_names = ["sshd", "systemd"]
            max_actions_per_min = 2
        "#;
    let cfg = Config::from_toml(toml).unwrap();
    assert_eq!(cfg.reserve_mb, 256);
    assert_eq!(cfg.soft_threshold_pct, 10);
    assert_eq!(cfg.hard_threshold_pct, 3);
    assert_eq!(cfg.mode, "kill");
    assert_eq!(cfg.scan_interval_sec, 1);
    assert_eq!(cfg.exclude_names, vec!["sshd", "systemd"]);
    assert_eq!(cfg.max_actions_per_min, 2);
}

#[test]
fn test_config_roundtrip_default() {
    let cfg = Config::default();
    let text = cfg.to_toml();
    let reparsed = Config::from_toml(text.as_str()).unwrap();
    assert_eq!(reparsed, cfg);

    let text2 = reparsed.to_toml();
    let reparsed2 = Config::from_toml(text2.as_str()).unwrap();
    assert_eq!(reparsed2, reparsed);
}

#[test]
fn test_config_defaults() {
    let cfg = Config::default();
    assert_eq!(cfg.reserve_mb, 512);
    assert_eq!(cfg.soft_threshold_pct, 15);
    assert_eq!(cfg.hard_threshold_pct, 5);
    assert_eq!(cfg.mode, "hybrid");
    assert_eq!(cfg.scan_interval_sec, 2);
    assert_eq!(cfg.exclude_names, vec!["sshd", "systemd", "sentinel"]);
    assert_eq!(cfg.max_actions_per_min, 4);
    assert!(cfg.psi_enabled);
    assert_eq!(cfg.psi_soft_centipct, 1000);
    assert_eq!(cfg.psi_hard_centipct, 3000);
    assert_eq!(
        cfg.protected_units,
        vec!["sshd.service", "sentinel.service", "ssh.service"]
    );
}

#[test]
fn test_default_psi_enabled() {
    assert!(default_psi_enabled());
}

#[test]
fn test_config_missing_required_field() {
    // No mode line: the file is rejected.
    let toml = "reserve_mb = 256\nsoft_threshold_pct = 10\nhard_threshold_pct = 3\n\
                scan_interval_sec = 1\nexclude_names = []\nmax_actions_per_min = 2\n";
    assert!(Config::from_toml(toml).is_err());
}

#[test]
fn test_config_malformed_value() {
    let toml = "reserve_mb = lots\nsoft_threshold_pct = 10\nhard_threshold_pct = 3\n\
                mode = \"kill\"\nscan_interval_sec = 1\nexclude_names = []\n\
                max_actions_per_min = 2\n";
    assert!(Config::from_toml(toml).is_err());
}

#[test]
fn test_config_optional_fields_default() {
    let toml = "reserve_mb = 64\nsoft_threshold_pct = 20\nhard_threshold_pct = 5\n\
                mode = \"slow\"\nscan_interval_sec = 3\nexclude_names = [\"x\"]\n\
                max_actions_per_min = 1\n";
    let cfg = Config::from_toml(toml).unwrap();
    assert!(cfg.psi_enabled);
    assert_eq!(cfg.psi_soft_centipct, 1000);
    assert_eq!(cfg.psi_hard_centipct, 3000);
    // Omitting protected_units keeps the stock shield.
    assert_eq!(
        cfg.protected_units,
        vec!["sshd.service", "sentinel.service", "ssh.service"]
    );
    assert!(cfg.cli.is_none());
}

#[test]
fn test_config_protected_units_override() {
    // An explicit list, even an empty one, replaces the stock shield.
    let toml = "reserve_mb = 64\nsoft_threshold_pct = 20\nhard_threshold_pct = 5\n\
                mode = \"slow\"\nscan_interval_sec = 3\nexclude_names = []\n\
                max_actions_per_min = 1\nprotected_units = []\n";
    let cfg = Config::from_toml(toml).unwrap();
    assert_eq!(cfg.protected_units, Vec::<String>::new());
}

#[test]
fn test_config_psi_and_cli_tables() {
    let toml = "reserve_mb = 64\nsoft_threshold_pct = 20\nhard_threshold_pct = 5\n\
                mode = \"hybrid\"\nscan_interval_sec = 3\nexclude_names = []\n\
                max_actions_per_min = 1\npsi_enabled = false\npsi_soft_pct = 12.5\n\
                psi_hard_pct = 40\nprotected_units = [\"a.service\"]\n\
                # a comment\n[cli]\ncolor = \"never\"\ntable_max_width = 80\n";
    let cfg = Config::from_toml(toml).unwrap();
    assert!(!cfg.psi_enabled);
    assert_eq!(cfg.psi_soft_centipct, 1250);
    assert_eq!(cfg.psi_hard_centipct, 4000);
    assert_eq!(cfg.protected_units, vec!["a.service"]);
    let cli = cfg.cli.unwrap();
    assert_eq!(cli.color, Some("never".to_string()));
    assert_eq!(cli.unicode, None);
    assert_eq!(cli.table_max_width, Some(80));
}

#[test]
fn test_config_inline_comment_rejected() {
    // A `#` after a value does not start a comment: the line is
    // malformed and the file is rejected, never misread.
    let toml = "reserve_mb = 64 # in MiB\nsoft_threshold_pct = 20\nhard_threshold_pct = 5\n\
                mode = \"kill\"\nscan_interval_sec = 3\nexclude_names = []\n\
                max_actions_per_min = 1\n";
    assert!(Config::from_toml(toml).is_err());
}

#[test]
fn test_config_unknown_keys_ignored() {
    let toml = "reserve_mb = 64\nsoft_threshold_pct = 20\nhard_threshold_pct = 5\n\
                mode = \"kill\"\nscan_interval_sec = 3\nexclude_names = []\n\
                max_actions_per_min = 1\nfuture_knob = 17\n[telemetry]\nendpoint = \"x\"\n";
    let cfg = Config::from_toml(toml).unwrap();
    assert_eq!(cfg.reserve_mb, 64);
}
