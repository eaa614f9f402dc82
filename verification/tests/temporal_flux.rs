use carbonthrone::temporal_flux::{TemporalFlux, HIGH_FLUX_THRESHOLD, MAX_FLUX};

#[test]
fn flux_starts_at_zero() {
    let flux = TemporalFlux::default();
    assert_eq!(flux.flux, 0);
}

#[test]
fn flux_add_increases_value() {
    let mut flux = TemporalFlux::default();
    flux.add(30);
    assert_eq!(flux.flux, 30);
    flux.add(20);
    assert_eq!(flux.flux, 50);
}

#[test]
fn flux_add_clamps_to_max() {
    let mut flux = TemporalFlux::default();
    flux.add(200);
    assert_eq!(flux.flux, MAX_FLUX);
}

#[test]
fn flux_reset_zeroes_value() {
    let mut flux = TemporalFlux::default();
    flux.add(75);
    flux.reset();
    assert_eq!(flux.flux, 0);
}

#[test]
fn is_overloaded_false_below_max() {
    let mut flux = TemporalFlux::default();
    flux.add(99);
    assert!(!flux.is_overloaded());
}

#[test]
fn is_overloaded_true_at_max() {
    let mut flux = TemporalFlux::default();
    flux.add(MAX_FLUX);
    assert!(flux.is_overloaded());
}

#[test]
fn flux_thresholds_are_ordered() {
    assert_eq!(HIGH_FLUX_THRESHOLD, 75);
    assert_eq!(MAX_FLUX, 100);
}

#[test]
fn flux_add_in_steps_clamps_exactly_at_max() {
    let mut flux = TemporalFlux::default();
    flux.add(60);
    flux.add(60);
    assert_eq!(flux.flux, 100);
    assert!(flux.is_overloaded());
    flux.reset();
    assert!(!flux.is_overloaded());
}
