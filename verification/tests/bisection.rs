use natal_chart_solver::bisection::{bisection_step, is_zero_value, BisectionStep};

fn bits(x: f64) -> u64 {
    x.to_bits()
}

#[test]
fn bisection_keeps_the_half_with_the_sign_change() {
    assert_eq!(bisection_step(bits(-1.0), bits(-0.5), bits(1.0)), BisectionStep::AdvanceLeft);
    assert_eq!(bisection_step(bits(2.0), bits(0.5), bits(1.0)), BisectionStep::AdvanceLeft);
    assert_eq!(bisection_step(bits(-1.0), bits(0.5), bits(1.0)), BisectionStep::RetreatRight);
    assert_eq!(bisection_step(bits(1.0), bits(-0.5), bits(1.0)), BisectionStep::RetreatRight);
}

#[test]
fn bisection_stops_on_zero_or_narrow_interval() {
    assert_eq!(bisection_step(bits(-1.0), bits(0.0), bits(1.0)), BisectionStep::Finish);
    assert_eq!(bisection_step(bits(-1.0), bits(-0.0), bits(1.0)), BisectionStep::Finish);
    assert_eq!(bisection_step(bits(-1.0), bits(0.5), bits(0.5 / 1440.0)), BisectionStep::Finish);
    assert_eq!(bisection_step(bits(-1.0), bits(0.5), bits(1.0 / 1440.0)), BisectionStep::RetreatRight);
    assert!(is_zero_value(bits(0.0)));
    assert!(is_zero_value(bits(-0.0)));
    assert!(!is_zero_value(bits(5e-324)));
    assert!(!is_zero_value(bits(f64::NAN)));
}

#[test]
fn bisection_steps_keep_the_zero_bracketed() {
    // Increasing through zero: left negative, right positive.
    assert_eq!(bisection_step(bits(-1.0), bits(-0.25), bits(2.0)), BisectionStep::AdvanceLeft);
    assert_eq!(bisection_step(bits(-1.0), bits(0.25), bits(2.0)), BisectionStep::RetreatRight);
    // Decreasing through zero: left positive, right negative.
    assert_eq!(bisection_step(bits(1.0), bits(0.25), bits(2.0)), BisectionStep::AdvanceLeft);
    assert_eq!(bisection_step(bits(1.0), bits(-0.25), bits(2.0)), BisectionStep::RetreatRight);
}
