use cognitrade::cost::{cost_usd, rates_for};

fn dollars(units: u128) -> f64 {
    units as f64 / 100_000_000.0
}

#[test]
fn cost_arithmetic_sonnet() {
    let r = rates_for("model-sonnet-4-6");
    assert!((dollars(cost_usd(r, 1_000_000, 0, 0)) - 3.0).abs() < 1e-9);
    assert!((dollars(cost_usd(r, 0, 0, 1_000_000)) - 15.0).abs() < 1e-9);
    assert!((dollars(cost_usd(r, 0, 1_000_000, 0)) - 0.30).abs() < 1e-9);
}

#[test]
fn rates_pick_correct_model() {
    assert_eq!(rates_for("model-haiku-4-5-20251001").input_per_mtok_cents as f64 / 100.0, 1.0);
    assert_eq!(rates_for("model-opus-4-7").input_per_mtok_cents as f64 / 100.0, 15.0);
    assert_eq!(rates_for("model-sonnet-4-6").input_per_mtok_cents as f64 / 100.0, 3.0);
}

#[test]
fn all_rates_in_cents_per_million() {
    let opus = rates_for("model-opus-4-7");
    assert_eq!((opus.input_per_mtok_cents, opus.cached_per_mtok_cents, opus.output_per_mtok_cents), (1500, 150, 7500));
    let haiku = rates_for("haiku");
    assert_eq!((haiku.input_per_mtok_cents, haiku.cached_per_mtok_cents, haiku.output_per_mtok_cents), (100, 10, 500));
    let other = rates_for("some-model");
    assert_eq!((other.input_per_mtok_cents, other.cached_per_mtok_cents, other.output_per_mtok_cents), (300, 30, 1500));
    assert_eq!(rates_for("opus-haiku"), opus);
}

#[test]
fn mixed_usage_cost_is_exact() {
    let r = rates_for("model-sonnet-4-6");
    assert_eq!(cost_usd(r, 500, 100, 50), 500 * 300 + 100 * 30 + 50 * 1500);
    assert_eq!(cost_usd(r, u64::MAX, u64::MAX, u64::MAX), (u64::MAX as u128) * 1830);
}

#[test]
fn costs_of_calls_add_up() {
    let r = rates_for("model-sonnet-4-6");
    let first = cost_usd(r, 1000, 0, 200);
    let second = cost_usd(r, 500, 100, 50);
    assert_eq!(cost_usd(r, 1500, 100, 250), first + second);
    assert!(second > 0);
}
