use pulsebook::double::Double;
use pulsebook::models::{Level, OrderBook, Side};

fn d(x: f64) -> Double {
    Double::from_bits(x.to_bits())
}

fn f(x: Double) -> f64 {
    f64::from_bits(x.to_bits())
}

fn levels(rows: &[(f64, f64)]) -> Vec<Level> {
    rows.iter().map(|(price, size)| (d(*price), d(*size))).collect()
}

#[test]
fn stale_delta_does_not_mutate_the_book() {
    let mut book = OrderBook::default();
    assert!(book.apply("snapshot", &levels(&[(100.0, 2.0)]), &levels(&[(101.0, 3.0)]), 10, d(1.0)));
    assert!(!book.apply("delta", &levels(&[(100.0, 9.0)]), &levels(&[]), 9, d(2.0)));
    assert_eq!(book.bids.get(d(100.0)).map(f), Some(2.0));
    assert_eq!(book.sequence, 10);
}

#[test]
fn snapshot_can_start_a_new_sequence() {
    let mut book = OrderBook::default();
    assert!(book.apply("snapshot", &levels(&[(100.0, 2.0)]), &levels(&[]), 10, d(1.0)));
    assert!(book.apply("snapshot", &levels(&[(99.0, 4.0)]), &levels(&[]), 1, d(2.0)));
    assert!(book.bids.get(d(100.0)).is_none());
    assert_eq!(book.bids.get(d(99.0)).map(f), Some(4.0));
    assert_eq!(book.sequence, 1);
}

#[test]
fn a_delta_sets_and_removes_levels() {
    let mut book = OrderBook::default();
    let bids = levels(&[(100.0, 2.0), (99.5, 1.0)]);
    let asks = levels(&[(101.0, 3.0), (100.5, 4.0)]);
    assert!(book.apply("snapshot", &bids, &asks, 10, d(1.0)));
    assert_eq!(book.quote(), (d(100.0), d(100.5)));
    let bids = levels(&[(100.0, 0.0), (99.75, 7.0)]);
    assert!(book.apply("delta", &bids, &levels(&[(100.5, 0.0)]), 11, d(2.0)));
    assert_eq!(book.quote(), (d(99.75), d(101.0)));
    assert_eq!(book.bids.len(), 2);
    assert_eq!(book.asks.len(), 1);
    assert_eq!(f(book.updated_at), 2.0);
}

#[test]
fn a_book_keeps_the_best_fifty_levels_of_each_side() {
    let mut book = OrderBook::default();
    let bids: Vec<Level> = (0..80).map(|i| (d(100.0 - i as f64), d(1.0))).collect();
    let asks: Vec<Level> = (0..80).map(|i| (d(200.0 + i as f64), d(1.0))).collect();
    assert!(book.apply("snapshot", &bids, &asks, 1, d(1.0)));
    assert_eq!(book.bids.len(), 50);
    assert_eq!(book.asks.len(), 50);
    assert_eq!(book.quote(), (d(100.0), d(200.0)));
    assert!(book.bids.get(d(50.0)).is_none());
    assert!(book.asks.get(d(249.0)).is_some());
}

#[test]
fn an_empty_book_quotes_zero() {
    assert_eq!(OrderBook::default().quote(), (d(0.0), d(0.0)));
}

#[test]
fn sides_have_names_and_directions() {
    assert_eq!(Side::Long.as_str(), "LONG");
    assert_eq!(Side::Short.as_str(), "SHORT");
    assert_eq!(f(Side::Long.direction()), 1.0);
    assert_eq!(f(Side::Short.direction()), -1.0);
    assert_eq!(Side::Long.inverted(), Side::Short);
}
