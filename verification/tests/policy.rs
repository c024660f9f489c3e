use memsentinel::policy::{classify, classify_with_psi, fuse, PressureState};
use memsentinel::psi::PSIMetrics;

fn psi_with_some_avg10(v: u64) -> PSIMetrics {
    let mut m = PSIMetrics::default();
    m.some_avg10 = v;
    m
}

#[test]
fn test_classify() {
    assert_eq!(classify(2000, 15, 5), PressureState::Healthy);
    assert_eq!(classify(1000, 15, 5), PressureState::Soft);
    assert_eq!(classify(300, 15, 5), PressureState::Hard);
}

#[test]
fn test_classify_boundaries() {
    // Strict `<` on the memory side: exactly at a threshold is the
    // milder state.
    assert_eq!(classify(1500, 15, 5), PressureState::Healthy);
    assert_eq!(classify(1499, 15, 5), PressureState::Soft);
    assert_eq!(classify(500, 15, 5), PressureState::Soft);
    assert_eq!(classify(499, 15, 5), PressureState::Hard);
}

#[test]
fn test_psi_only_hard_entry() {
    // Memory looks healthy at 50% but the stall lane is past its hard
    // threshold: the fused state is Hard.
    let psi = psi_with_some_avg10(3500);
    let s = classify_with_psi(5000, 15, 5, Some(&psi), 1000, 3000);
    assert_eq!(s, PressureState::Hard);
}

#[test]
fn test_psi_boundaries() {
    // `>=` on the stall side: exactly at a threshold triggers.
    let at_soft = psi_with_some_avg10(1000);
    assert_eq!(
        classify_with_psi(5000, 15, 5, Some(&at_soft), 1000, 3000),
        PressureState::Soft
    );
    let below_soft = psi_with_some_avg10(999);
    assert_eq!(
        classify_with_psi(5000, 15, 5, Some(&below_soft), 1000, 3000),
        PressureState::Healthy
    );
}

#[test]
fn test_classify_without_psi_sample() {
    assert_eq!(classify_with_psi(1000, 15, 5, None, 1000, 3000), PressureState::Soft);
}

#[test]
fn test_worst_of_fusion() {
    let states = [PressureState::Healthy, PressureState::Soft, PressureState::Hard];
    for &a in states.iter() {
        for &b in states.iter() {
            let f = fuse(a, b);
            // The fused state is the more severe lane.
            let expected = if severity(a) >= severity(b) { a } else { b };
            assert_eq!(f, expected);
        }
    }
}

fn severity(s: PressureState) -> u8 {
    match s {
        PressureState::Healthy => 0,
        PressureState::Soft => 1,
        PressureState::Hard => 2,
    }
}
