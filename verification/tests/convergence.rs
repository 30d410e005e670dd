use minimum_energy_path::driver::{Driver, Phase};

fn gain_below(limit: f64) -> impl Fn(f64, f64) -> bool {
    move |previous: f64, energy: f64| previous - energy < limit
}

#[test]
fn driver_starts_running_with_the_initial_energy() {
    let driver = Driver::new(-4.25, 10);
    assert!(driver.is_running());
    assert!(!driver.has_converged());
    assert_eq!(driver.current_phase(), Phase::Running);
    assert_eq!(driver.iteration_count(), 0);
    assert_eq!(driver.last_energy(), -4.25);
}

#[test]
fn driver_without_allowance_is_exhausted_at_once() {
    let driver = Driver::new(1.0, 0);
    assert!(!driver.is_running());
    assert!(!driver.has_converged());
    assert_eq!(driver.current_phase(), Phase::Exhausted);
    assert_eq!(driver.iteration_count(), 0);
}

#[test]
fn driver_runs_on_while_the_gain_is_large() {
    let mut driver = Driver::new(10.0, 100);
    driver.record(9.0, &gain_below(0.5));
    assert_eq!(driver.current_phase(), Phase::Running);
    assert_eq!(driver.iteration_count(), 1);
    assert_eq!(driver.last_energy(), 9.0);
    driver.record(8.0, &gain_below(0.5));
    assert_eq!(driver.current_phase(), Phase::Running);
    assert_eq!(driver.iteration_count(), 2);
    assert_eq!(driver.last_energy(), 8.0);
}

#[test]
fn driver_converges_on_a_small_gain() {
    let mut driver = Driver::new(10.0, 100);
    driver.record(9.0, &gain_below(0.5));
    driver.record(8.75, &gain_below(0.5));
    assert!(driver.has_converged());
    assert!(!driver.is_running());
    assert_eq!(driver.current_phase(), Phase::Converged);
    assert_eq!(driver.iteration_count(), 2);
    assert_eq!(driver.last_energy(), 8.75);
}

#[test]
fn driver_compares_with_the_energy_recorded_last() {
    // 10 -> 7 -> 6.8: the second gain is 0.2, against 7 and not against 10.
    let mut driver = Driver::new(10.0, 100);
    driver.record(7.0, &gain_below(0.5));
    assert!(driver.is_running());
    driver.record(6.8, &gain_below(0.5));
    assert!(driver.has_converged());
}

#[test]
fn driver_hands_previous_energy_first() {
    let mut driver = Driver::new(3i64, 5);
    driver.record(8, &|previous: i64, energy: i64| {
        assert_eq!((previous, energy), (3, 8));
        false
    });
    driver.record(13, &|previous: i64, energy: i64| {
        assert_eq!((previous, energy), (8, 13));
        true
    });
    assert!(driver.has_converged());
}

#[test]
fn driver_stops_on_the_first_rise_in_energy() {
    // The comparison is signed: a rise is a negative gain, which is below
    // any positive threshold.
    let mut driver = Driver::new(-1.0, 100);
    driver.record(-0.5, &gain_below(1e-4));
    assert!(driver.has_converged());
    assert_eq!(driver.iteration_count(), 1);
}

#[test]
fn driver_is_exhausted_when_the_allowance_is_used_up() {
    let mut driver = Driver::new(100.0, 3);
    driver.record(90.0, &gain_below(1.0));
    assert_eq!(driver.current_phase(), Phase::Running);
    driver.record(80.0, &gain_below(1.0));
    assert_eq!(driver.current_phase(), Phase::Running);
    driver.record(70.0, &gain_below(1.0));
    assert_eq!(driver.current_phase(), Phase::Exhausted);
    assert_eq!(driver.iteration_count(), 3);
    assert!(!driver.is_running());
    assert!(!driver.has_converged());
}

#[test]
fn driver_converges_on_the_last_allowed_iteration() {
    let mut driver = Driver::new(100.0, 2);
    driver.record(90.0, &gain_below(1.0));
    driver.record(89.5, &gain_below(1.0));
    assert_eq!(driver.current_phase(), Phase::Converged);
    assert_eq!(driver.iteration_count(), 2);
}
