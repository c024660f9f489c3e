use memsentinel::mem::parse_meminfo;
use memsentinel::psi::PSIMetrics;

#[test]
fn test_parse_psi() {
    let sample = "some avg10=0.50 avg60=1.20 avg300=3.45 total=123456
full avg10=0.10 avg60=0.30 avg300=0.80 total=45678
";
    let metrics = PSIMetrics::parse(sample).unwrap();

    assert_eq!(metrics.some_avg10, 50);
    assert_eq!(metrics.some_avg60, 120);
    assert_eq!(metrics.some_avg300, 345);
    assert_eq!(metrics.some_total, 123456);

    assert_eq!(metrics.full_avg10, 10);
    assert_eq!(metrics.full_avg60, 30);
    assert_eq!(metrics.full_avg300, 80);
    assert_eq!(metrics.full_total, 45678);
}

#[test]
fn test_parse_psi_zero_values() {
    let sample = "some avg10=0.00 avg60=0.00 avg300=0.00 total=0
full avg10=0.00 avg60=0.00 avg300=0.00 total=0
";
    let metrics = PSIMetrics::parse(sample).unwrap();

    assert_eq!(metrics.some_avg10, 0);
    assert_eq!(metrics.full_avg10, 0);
}

#[test]
fn test_parse_psi_malformed_value() {
    let sample = "some avg10=banana avg60=1.20 avg300=3.45 total=123456\n";
    assert!(PSIMetrics::parse(sample).is_err());
}

#[test]
fn test_parse_psi_unknown_keys_ignored() {
    let sample = "some avg10=2.00 shiny=oops total=7\nother line\n";
    let metrics = PSIMetrics::parse(sample).unwrap();
    assert_eq!(metrics.some_avg10, 200);
    assert_eq!(metrics.some_total, 7);
    assert_eq!(metrics.full_avg10, 0);
}

#[test]
fn test_parse_meminfo_counters() {
    let text = "MemTotal:        8388608 kB
MemFree:          400000 kB
MemAvailable:     838861 kB
Buffers:          123456 kB
";
    let m = parse_meminfo(text);
    assert_eq!(m.mem_total, 8388608);
    assert_eq!(m.mem_available, 838861);
    assert_eq!(m.total_kb, 8388608);
    // 838861 / 8388608 is 10.00% available, in hundredths of a percent.
    assert_eq!(m.avail_centipct, 1000);
}

#[test]
fn test_parse_meminfo_fallback_to_free() {
    let text = "MemTotal: 1000 kB\nMemFree: 250 kB\n";
    let m = parse_meminfo(text);
    assert_eq!(m.mem_available, 250);
    assert_eq!(m.avail_centipct, 2500);
}

#[test]
fn test_parse_meminfo_empty() {
    let m = parse_meminfo("");
    assert_eq!(m.mem_total, 0);
    assert_eq!(m.mem_available, 0);
    assert_eq!(m.avail_centipct, 0);
}
