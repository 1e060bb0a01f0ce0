use ksm_regulator::control::decide;
use ksm_regulator::control::step;
use ksm_regulator::control::LoopAction;
use ksm_regulator::control::LoopEvent;
use ksm_regulator::control::LoopState;
use ksm_regulator::control::WritePlan;
use ksm_regulator::table::Breakpoint;
use ksm_regulator::table::BreakpointTable;

fn bp(threshold: f64, value: f64) -> Breakpoint {
    Breakpoint { threshold_bits: threshold.to_bits(), value_bits: value.to_bits() }
}

fn sample_table() -> BreakpointTable {
    BreakpointTable::new(vec![bp(20.0, 1000.0), bp(50.0, 200.0), bp(90.0, 10.0)]).unwrap()
}

/// The position ratio between the bracketing thresholds, with the literal
/// edge rule: a ratio at or past 1 is inverted rather than clamped.
fn ratio(usage: f64, below: f64, upper: f64) -> f64 {
    let r = (usage - below) / (upper - below);
    if r >= 1.0 {
        1.0 / r
    } else {
        r
    }
}

fn logarithmic(a: f64, b: f64, t: f64) -> f64 {
    a.powf(1.0 - t) * b.powf(t)
}

#[test]
fn usage_above_every_threshold_disables() {
    let t = sample_table();
    assert_eq!(decide(&t, 95.0f64.to_bits()), WritePlan::Disable);
}

#[test]
fn usage_below_lowest_threshold_applies_first_value_unmodified() {
    let t = sample_table();
    let p = decide(&t, 10.0f64.to_bits());
    assert_eq!(p, WritePlan::Direct { value_bits: 1000.0f64.to_bits() });
    match p {
        WritePlan::Direct { value_bits } => assert_eq!(f64::from_bits(value_bits), 1000.0),
        _ => panic!("expected a direct write"),
    }
}

#[test]
fn usage_between_thresholds_brackets_the_right_entries() {
    let t = sample_table();
    let p = decide(&t, 35.0f64.to_bits());
    assert_eq!(
        p,
        WritePlan::Interpolate {
            below: bp(20.0, 1000.0),
            upper: bp(50.0, 200.0),
            usage_bits: 35.0f64.to_bits(),
        }
    );
}

#[test]
fn logarithmic_interpolation_midway() {
    let t = sample_table();
    match decide(&t, 35.0f64.to_bits()) {
        WritePlan::Interpolate { below, upper, usage_bits } => {
            let lo = f64::from_bits(below.threshold_bits);
            let hi = f64::from_bits(upper.threshold_bits);
            let r = ratio(f64::from_bits(usage_bits), lo, hi);
            assert_eq!(r, 0.5);
            let value = logarithmic(
                f64::from_bits(below.value_bits),
                f64::from_bits(upper.value_bits),
                r,
            );
            assert!((value - (1000.0f64 * 200.0).sqrt()).abs() < 1e-6);
            assert!((value - 447.213595).abs() < 1e-3);
        },
        _ => panic!("expected interpolation"),
    }
}

#[test]
fn linear_interpolation_midway() {
    let t = sample_table();
    match decide(&t, 35.0f64.to_bits()) {
        WritePlan::Interpolate { below, upper, usage_bits } => {
            let lo = f64::from_bits(below.threshold_bits);
            let hi = f64::from_bits(upper.threshold_bits);
            let r = ratio(f64::from_bits(usage_bits), lo, hi);
            let value = interpolation::lerp(
                &f64::from_bits(below.value_bits),
                &f64::from_bits(upper.value_bits),
                &r,
            );
            assert_eq!(value, 1000.0 + 0.5 * (200.0 - 1000.0));
            assert_eq!(value, 600.0);
        },
        _ => panic!("expected interpolation"),
    }
}

#[test]
fn usage_at_upper_threshold_yields_its_exact_value() {
    let t = sample_table();
    match decide(&t, 50.0f64.to_bits()) {
        WritePlan::Interpolate { below, upper, usage_bits } => {
            assert_eq!(below, bp(20.0, 1000.0));
            assert_eq!(upper, bp(50.0, 200.0));
            let r = ratio(f64::from_bits(usage_bits), 20.0, 50.0);
            // The raw ratio is exactly 1, so the inversion rule fires and
            // hands back exactly 1 again.
            assert_eq!(r, 1.0);
            let linear = interpolation::lerp(&1000.0f64, &200.0, &r);
            assert_eq!(linear, 200.0);
            let log = logarithmic(1000.0, 200.0, r);
            assert_eq!(log, 200.0);
        },
        _ => panic!("expected interpolation"),
    }
}

#[test]
fn interpolation_is_repeatable() {
    let t = sample_table();
    let u = 35.0f64.to_bits();
    assert_eq!(decide(&t, u), decide(&t, u));
    let once = logarithmic(1000.0, 200.0, 0.5);
    let twice = logarithmic(1000.0, 200.0, 0.5);
    assert_eq!(once, twice);
    let l1 = interpolation::lerp(&1000.0f64, &200.0, &0.5);
    let l2 = interpolation::lerp(&1000.0f64, &200.0, &0.5);
    assert_eq!(l1, l2);
}

#[test]
fn loop_cycle_advances_through_its_states() {
    let t = sample_table();
    let (s1, a1) = step(&t, LoopState::Sleeping, LoopEvent::Slept);
    assert_eq!((s1, a1), (LoopState::Sampling, LoopAction::Sample));
    let (s2, a2) = step(&t, s1, LoopEvent::Sampled { usage_bits: 95.0f64.to_bits() });
    assert_eq!(s2, LoopState::Writing);
    assert_eq!(a2, LoopAction::Write(WritePlan::Disable));
    let (s3, a3) = step(&t, s2, LoopEvent::Written);
    assert_eq!((s3, a3), (LoopState::Sleeping, LoopAction::Sleep));
}

#[test]
fn interrupt_during_the_delay_exits_without_writing() {
    let t = sample_table();
    let r = step(&t, LoopState::Sleeping, LoopEvent::Interrupted);
    assert_eq!(r, (LoopState::Cancelled, LoopAction::Exit));
}

#[test]
fn interrupt_wins_over_a_fresh_sample() {
    let t = sample_table();
    let r = step(&t, LoopState::Sampling, LoopEvent::Interrupted);
    assert_eq!(r, (LoopState::Cancelled, LoopAction::Exit));
}

#[test]
fn cancellation_is_terminal() {
    let t = sample_table();
    for event in [
        LoopEvent::Sampled { usage_bits: 35.0f64.to_bits() },
        LoopEvent::Written,
        LoopEvent::Slept,
        LoopEvent::Interrupted,
    ] {
        let r = step(&t, LoopState::Cancelled, event);
        assert_eq!(r, (LoopState::Cancelled, LoopAction::Exit));
    }
}

#[test]
fn mismatched_event_ends_the_loop() {
    let t = sample_table();
    let r = step(&t, LoopState::Sampling, LoopEvent::Written);
    assert_eq!(r, (LoopState::Cancelled, LoopAction::Exit));
}
