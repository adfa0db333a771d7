use pulsebook::double::Double;
use pulsebook::json::Json;
use pulsebook::replay::{walk_forward, ReplayEngine, ReplayEvent};
use pulsebook::table::Table;

fn d(x: f64) -> Double {
    Double::from_bits(x.to_bits())
}

fn f(x: Double) -> f64 {
    f64::from_bits(x.to_bits())
}

fn event(ts: f64, seq: i64, symbol: &str) -> ReplayEvent {
    ReplayEvent {
        timestamp: d(ts),
        sequence: seq,
        symbol: symbol.into(),
        kind: "book".into(),
        payload: Json::Object(Table::new()),
    }
}

#[test]
fn replay_never_goes_backwards_in_time() {
    let mut seen = Vec::new();
    let mut engine = ReplayEngine::new();
    let events = vec![event(3.0, 3, "A"), event(1.0, 1, "A"), event(2.0, 2, "A")];
    for e in engine.run(&events) {
        seen.push(f(e.timestamp));
    }
    assert_eq!(engine.data_quality_errors, 0);
    assert_eq!(seen, vec![1.0, 2.0, 3.0]);
}

#[test]
fn stale_sequences_count_as_data_quality_errors() {
    let mut engine = ReplayEngine::new();
    let events = vec![event(1.0, 5, "A"), event(2.0, 4, "A"), event(3.0, 6, "A")];
    let count = engine.run(&events).len();
    assert_eq!(engine.data_quality_errors, 1);
    assert_eq!(count, 2);
}

#[test]
fn walk_forward_folds_never_overlap() {
    let events: Vec<ReplayEvent> = (0..40).map(|i| event(i as f64, i as i64, "A")).collect();
    let folds = walk_forward(&events, 4).unwrap();
    assert_eq!(folds.len(), 3);
    for (train, test) in &folds {
        let train_max = train.iter().map(|e| f(e.timestamp)).fold(f64::MIN, f64::max);
        let test_min = test.iter().map(|e| f(e.timestamp)).fold(f64::MAX, f64::min);
        assert!(
            train_max < test_min,
            "test folds must be strictly after training data"
        );
    }
}

#[test]
fn walk_forward_rejects_tiny_samples() {
    let events: Vec<ReplayEvent> = (0..3).map(|i| event(i as f64, i as i64, "A")).collect();
    assert!(walk_forward(&events, 4).is_err());
}

#[test]
fn folds_cover_all_events() {
    let events: Vec<ReplayEvent> = (0..11).map(|i| event(i as f64, i as i64, "A")).collect();
    let folds = walk_forward(&events, 3).unwrap();
    let sizes: Vec<(usize, usize)> = folds.iter().map(|(a, b)| (a.len(), b.len())).collect();
    assert_eq!(sizes, vec![(3, 3), (6, 5)]);
    assert_eq!(
        walk_forward(&events, 1).unwrap_err(),
        "walk-forward requires at least two non-empty folds"
    );
}

#[test]
fn symbols_have_sequences_of_their_own() {
    let mut engine = ReplayEngine::new();
    let events = vec![event(1.0, 9, "A"), event(1.0, 2, "B"), event(2.0, 3, "B")];
    let seen: Vec<(String, i64)> =
        engine.run(&events).iter().map(|e| (e.symbol.clone(), e.sequence)).collect();
    assert_eq!(
        seen,
        vec![("B".to_string(), 2), ("A".to_string(), 9), ("B".to_string(), 3)]
    );
    let later = vec![event(1.5, 10, "A"), event(5.0, 11, "A")];
    assert_eq!(engine.run(&later).len(), 1);
    assert_eq!(engine.data_quality_errors, 1);
    assert_eq!(f(engine.now), 5.0);
}
