use pulsebook::config::Settings;
use pulsebook::double::Double;
use pulsebook::readiness::{live_readiness, summarize};
use pulsebook::table::Table;

fn d(x: f64) -> Double {
    Double::from_bits(x.to_bits())
}

fn f(x: Double) -> f64 {
    f64::from_bits(x.to_bits())
}

fn series(xs: &[f64]) -> Vec<Double> {
    xs.iter().map(|x| d(*x)).collect()
}

fn settings() -> Settings {
    Settings::new(&Table::new())
}

#[test]
fn small_lucky_sample_never_passes() {
    let pnls = series(&vec![5.0; 10]);
    let gate = live_readiness(&pnls, 0, &settings());
    assert_eq!(gate.live_enabled, false);
    assert_eq!(gate.checks.sample_size, false);
}

#[test]
fn live_stays_disabled_even_when_all_checks_pass() {
    // 200 alternating trades with strongly positive expectancy.
    let mut pnls = Vec::new();
    for i in 0..200 {
        pnls.push(d(if i % 3 == 0 { -4.0 } else { 6.0 }));
    }
    let gate = live_readiness(&pnls, 0, &settings());
    assert_eq!(gate.passed, true);
    assert_eq!(gate.live_enabled, false, "no order endpoint exists");
}

#[test]
fn data_quality_errors_block_readiness() {
    let pnls = series(&vec![6.0; 300]);
    let gate = live_readiness(&pnls, 3, &settings());
    assert_eq!(gate.checks.data_quality, false);
    assert_eq!(gate.passed, false);
}

#[test]
fn drawdown_is_computed_oldest_to_newest() {
    // Newest-first: latest trades recovered, older run had a deep hole.
    let pnls = series(&[50.0, 50.0, -100.0, -100.0, 100.0]);
    let report = summarize(&pnls, &settings());
    assert!(f(report.max_drawdown) >= 200.0);
}

#[test]
fn the_summary_has_exact_figures() {
    let pnls = series(&[3.0, -1.0, 0.0, 2.0]);
    let report = summarize(&pnls, &settings());
    assert_eq!(report.trades, 4);
    assert_eq!(f(report.win_rate), 50.0);
    assert_eq!(f(report.expectancy), 1.0);
    assert_eq!(f(report.profit_factor), 5.0);
    assert_eq!(f(report.max_drawdown), 1.0);
    assert_eq!(f(report.max_drawdown_pct), 1.0 / 10_000.0);
    let z = 1.96_f64;
    let n = 4.0;
    let denom = 1.0 + z * z / n;
    let center = (0.5 + z * z / (2.0 * n)) / denom;
    let margin = z * ((0.5 * (1.0 - 0.5) + z * z / (4.0 * n)) / n).sqrt() / denom;
    assert_eq!(f(report.win_rate_low), (center - margin).max(0.0) * 100.0);
    assert_eq!(f(report.win_rate_high), (center + margin).min(1.0) * 100.0);
}

#[test]
fn an_empty_series_has_no_figures() {
    let report = summarize(&Vec::new(), &settings());
    assert_eq!(f(report.win_rate), 0.0);
    assert_eq!(f(report.expectancy), 0.0);
    assert_eq!(f(report.profit_factor), 0.0);
    assert_eq!(f(summarize(&series(&[1.0]), &settings()).profit_factor), f64::MAX);
}

#[test]
fn the_verdict_has_fixed_words() {
    let gate = live_readiness(&Vec::new(), 0, &settings());
    assert_eq!(gate.status(), "NOT READY FOR LIVE");
    assert_eq!(
        gate.notice(),
        "Paper/replay evidence is not a guarantee of future results."
    );
}
