use pulsebook::config::Settings;
use pulsebook::double::Double;
use pulsebook::execution::{
    cost_aware_target_distance_pct, entry_fill, estimated_round_trip_cost_pct, exit_fill,
    net_reward_risk, stop_loss_per_unit, trade_pnl,
};
use pulsebook::models::Side;
use pulsebook::table::Table;

fn d(x: f64) -> Double {
    Double::from_bits(x.to_bits())
}

fn f(x: Double) -> f64 {
    f64::from_bits(x.to_bits())
}

fn settings() -> Settings {
    Settings::new(&Table::new())
}

#[test]
fn entry_is_worse_than_touch() {
    let s = settings();
    let long = entry_fill(&s, Side::Long, d(100.0), d(100.1), d(1.0));
    assert!(f(long.price) > 100.1);
    let short = entry_fill(&s, Side::Short, d(100.0), d(100.1), d(1.0));
    assert!(f(short.price) < 100.0);
}

#[test]
fn exit_is_worse_than_touch() {
    let s = settings();
    let long = exit_fill(&s, Side::Long, d(100.0), d(100.1), d(1.0));
    assert!(f(long.price) < 100.0);
    let short = exit_fill(&s, Side::Short, d(100.0), d(100.1), d(1.0));
    assert!(f(short.price) > 100.1);
}

#[test]
fn flat_round_trip_is_a_net_loss() {
    let s = settings();
    let entry = entry_fill(&s, Side::Long, d(100.0), d(100.05), d(2.0));
    let exit = exit_fill(&s, Side::Long, d(100.0), d(100.05), d(2.0));
    let (_, net) = trade_pnl(Side::Long, entry.price, exit.price, d(2.0), entry.fee, exit.fee);
    assert!(f(net) < 0.0, "crossing the spread twice must cost money");
}

#[test]
fn round_trip_cost_includes_safety_margin() {
    let cost = f(estimated_round_trip_cost_pct(&settings(), d(100.0), d(100.05)));
    let raw = 0.05 / 100.025 + 2.0 * (0.0005 + 0.0003);
    assert!(cost > raw, "safety multiplier must inflate the estimate");
}

#[test]
fn cost_aware_target_satisfies_net_reward_risk() {
    let stop = d(0.0027);
    let cost = d(0.0022);
    let target = cost_aware_target_distance_pct(stop, cost, d(1.8), d(1.35), d(0.01)).unwrap();
    assert!((f(target) - 0.008815).abs() < 1e-12);
    assert!(f(net_reward_risk(target, stop, cost)) >= 1.35 - 1e-12);
}

#[test]
fn zero_cost_keeps_the_base_target() {
    let target =
        cost_aware_target_distance_pct(d(0.003), d(0.0), d(1.8), d(1.35), d(0.01)).unwrap();
    assert!((f(target) - 0.0054).abs() < 1e-12);
}

#[test]
fn infeasible_target_is_rejected() {
    assert!(
        cost_aware_target_distance_pct(d(0.003), d(0.003), d(1.8), d(1.35), d(0.005)).is_none()
    );
}

#[test]
fn stop_loss_sizing_includes_costs() {
    let loss = f(stop_loss_per_unit(&settings(), Side::Long, d(100.0), d(100.05), d(99.5)));
    assert!(
        loss > 0.55,
        "fees and slippage must increase loss beyond the raw stop distance"
    );
}

#[test]
fn fills_have_exact_prices_and_fees() {
    let s = settings();
    let fee = f(s.taker_fee_pct);
    let slip = f(s.slippage_pct);
    let fill = entry_fill(&s, Side::Long, d(100.0), d(100.1), d(3.0));
    let price = 100.1 * (1.0 + slip);
    assert_eq!(f(fill.price), price);
    assert_eq!(f(fill.fee), price * 3.0 * fee);
    assert_eq!(f(fill.slippage_cost), (price - 100.1).abs() * 3.0);
}

#[test]
fn a_one_sided_quote_has_no_finite_cost() {
    assert_eq!(
        f(estimated_round_trip_cost_pct(&settings(), d(0.0), d(100.0))),
        f64::INFINITY
    );
}

#[test]
fn a_short_gains_when_the_price_falls() {
    let (gross, net) = trade_pnl(Side::Short, d(100.0), d(98.0), d(2.0), d(0.1), d(0.2));
    assert_eq!(f(gross), 4.0);
    assert_eq!(f(net), 4.0 - 0.1 - 0.2);
}
