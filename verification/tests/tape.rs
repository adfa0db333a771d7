use pulsebook::brain::directional_tape;
use pulsebook::double::Double;
use pulsebook::models::TradeTick;
use std::collections::VecDeque;

fn d(x: f64) -> Double {
    Double::from_bits(x.to_bits())
}

fn f(x: Double) -> f64 {
    f64::from_bits(x.to_bits())
}

fn tick(timestamp: f64, is_buy: bool, notional: f64) -> TradeTick {
    TradeTick { timestamp: d(timestamp), is_buy, price: d(1.0), size: d(notional) }
}

#[test]
fn empty_baseline_never_confirms_acceleration() {
    let ticks = VecDeque::from([tick(9.5, true, 10_000.0)]);
    let tape = directional_tape(&ticks, d(10.0));
    assert!(!tape.buy_baseline_valid);
    assert_eq!(f(tape.buy_acceleration), 0.0);
    assert!(!tape.buy_accelerating);
}

#[test]
fn valid_three_x_buy_acceleration_is_confirmed_with_dominance() {
    let ticks = VecDeque::from([
        tick(8.5, true, 1_000.0),
        tick(9.5, true, 3_200.0),
        tick(9.5, false, 300.0),
    ]);
    let tape = directional_tape(&ticks, d(10.0));
    assert!(tape.buy_baseline_valid);
    assert!(f(tape.buy_acceleration) >= 3.0);
    assert!(f(tape.buy_dominance) >= 0.70);
    assert!(tape.buy_accelerating);
    assert_eq!(f(tape.buy_acceleration), 3.2);
    assert_eq!(f(tape.buy_dominance), 3_200.0 / 3_500.0);
}

#[test]
fn microscopic_baseline_is_rejected() {
    let ticks = VecDeque::from([tick(8.5, true, 1.0), tick(9.5, true, 5_000.0)]);
    let tape = directional_tape(&ticks, d(10.0));
    assert!(!tape.buy_baseline_valid);
    assert!(!tape.buy_accelerating);
}

#[test]
fn acceleration_without_directional_dominance_is_rejected() {
    let ticks = VecDeque::from([
        tick(8.5, true, 1_000.0),
        tick(9.5, true, 3_100.0),
        tick(9.5, false, 2_000.0),
    ]);
    let tape = directional_tape(&ticks, d(10.0));
    assert!(tape.buy_baseline_valid);
    assert!(f(tape.buy_acceleration) >= 3.0);
    assert!(!tape.buy_accelerating);
}
