use pulsebook::decimal::fixed;
use pulsebook::double::Double;
use pulsebook::parsing::{parse_signed, parse_unsigned};
use pulsebook::reading::parse_double;
use pulsebook::scanner::find_whole_part;
use pulsebook::sorting::{falling_order, rising_order};

fn d(x: f64) -> Double {
    Double::from_bits(x.to_bits())
}

fn f(x: Double) -> f64 {
    f64::from_bits(x.to_bits())
}

/// A stream of bit patterns that meets all magnitudes.
struct Patterns(u64);

impl Patterns {
    fn next(&mut self) -> u64 {
        self.0 ^= self.0 << 13;
        self.0 ^= self.0 >> 7;
        self.0 ^= self.0 << 17;
        self.0
    }

    fn number(&mut self) -> f64 {
        let bits = self.next();
        match bits % 5 {
            0 => f64::from_bits(self.next()),
            1 => (self.next() % 2_000_001) as f64 / 1000.0 - 1000.0,
            2 => f64::from_bits(self.next() % 0x0030_0000_0000_0000),
            3 => f64::from_bits(0x3ff0_0000_0000_0000 ^ (self.next() % 0x0080_0000_0000_0000)),
            _ => (self.next() % 4096) as f64,
        }
    }
}

const SPECIAL: [f64; 14] = [
    0.0,
    -0.0,
    1.0,
    -1.0,
    0.1,
    1e308,
    -1e308,
    5e-324,
    2.2250738585072014e-308,
    f64::MAX,
    f64::INFINITY,
    f64::NEG_INFINITY,
    f64::NAN,
    9007199254740993.0,
];

fn same(a: Double, b: f64) -> bool {
    if b.is_nan() {
        a.is_nan()
    } else {
        a.to_bits() == b.to_bits()
    }
}

fn check_pair(a: f64, b: f64) {
    assert!(same(d(a).add(d(b)), a + b), "{a:e} + {b:e}");
    assert!(same(d(a).sub(d(b)), a - b), "{a:e} - {b:e}");
    assert!(same(d(a).mul(d(b)), a * b), "{a:e} * {b:e}");
    assert!(same(d(a).div(d(b)), a / b), "{a:e} / {b:e}");
    assert_eq!(d(a).lt(d(b)), a < b);
    assert_eq!(d(a).le(d(b)), a <= b);
    assert_eq!(d(a).gt(d(b)), a > b);
    assert_eq!(d(a).ge(d(b)), a >= b);
    assert_eq!(d(a).same(d(b)), a == b);
    assert_eq!(d(a).total_lt(d(b)), a.total_cmp(&b).is_lt());
    if a != b {
        assert!(same(d(a).max(d(b)), a.max(b)));
        assert!(same(d(a).min(d(b)), a.min(b)));
    }
}

fn check_one(a: f64) {
    assert!(same(d(a).sqrt(), a.sqrt()), "sqrt {a:e}");
    assert!(same(d(a).round(), a.round()), "round {a:e}");
    assert!(same(d(a).abs(), a.abs()));
    assert!(same(d(a).neg(), -a));
    assert_eq!(d(a).floor(), a.floor() as i64, "floor {a:e}");
    assert_eq!(find_whole_part(d(a)), a as i64, "whole part {a:e}");
    assert_eq!(d(a).is_nan(), a.is_nan());
    assert_eq!(d(a).is_finite(), a.is_finite());
}

#[test]
fn arithmetic_rounds_as_the_hardware_does() {
    let mut patterns = Patterns(0x9e37_79b9_7f4a_7c15);
    for a in SPECIAL {
        check_one(a);
        for b in SPECIAL {
            check_pair(a, b);
        }
    }
    for _ in 0..20_000 {
        let a = patterns.number();
        let b = patterns.number();
        check_pair(a, b);
        check_one(a);
    }
}

#[test]
fn whole_numbers_and_ratios_are_nearest() {
    for n in [0, 1, 7, 1 << 53, (1 << 53) + 1, u64::MAX, 123_456_789_012_345_678] {
        assert_eq!(f(Double::whole(n)), n as f64);
    }
    assert_eq!(f(Double::ratio(5, 1_000)), 0.005);
    assert_eq!(f(Double::ratio(6, 100_000)), 0.00006);
    assert_eq!(f(Double::ratio(196, 100)), 1.96);
    assert_eq!(f(Double::ratio(15, 100_000)), 0.00015);
    assert_eq!(f(Double::largest()), f64::MAX);
}

#[test]
fn numerals_are_read_as_the_nearest_number() {
    for s in [
        "0", "-0", "1", "+1.5", "0.1", "1e3", "1E-3", ".5", "5.", "123456789.987654321",
        "1e308", "1.8e308", "-1e400", "4.9e-324", "2e-324", "1e-400", "2.2250738585072011e-308",
        "9007199254740993", "0.000123", "66500.25", "inf", "-inf", "nan", "Infinity", "1e99999",
        "179769313486231580793728971405303415079934132710037826936173778980444968292764750946649017977587207096330286416692887910946555547851940402630657488671505820681908902000708383676273854845817711531764475730270069855571366959622842914819860834936475292719074168444365510704342711559699508093042880",
    ] {
        let expected: f64 = s.parse().unwrap();
        assert!(same(parse_double(s).unwrap(), expected), "{s}");
    }
    for s in ["", "-", ".", "e5", "1e", "1e+", " 1", "1 ", "1x", "0x1", "1_000", "++1", "infin"] {
        assert!(s.parse::<f64>().is_err());
        assert!(parse_double(s).is_none(), "{s}");
    }
    let mut patterns = Patterns(88_172_645_463_325_252);
    for _ in 0..1_000 {
        let x = patterns.number();
        let s = format!("{x}");
        assert!(same(parse_double(&s).unwrap(), s.parse().unwrap()), "{s}");
        let s = format!("{x:e}");
        assert!(same(parse_double(&s).unwrap(), s.parse().unwrap()), "{s}");
    }
}

#[test]
fn whole_numerals_are_read_exactly() {
    for s in ["0", "+7", "18446744073709551615", "18446744073709551616", "-1", "", "+", "07", "1a"] {
        assert_eq!(parse_unsigned(s), s.parse::<u64>().ok(), "{s}");
        assert_eq!(parse_signed(s), s.parse::<i64>().ok(), "{s}");
    }
    for s in ["-9223372036854775808", "9223372036854775807", "9223372036854775808"] {
        assert_eq!(parse_signed(s), s.parse::<i64>().ok(), "{s}");
    }
}

#[test]
fn numbers_are_written_with_fixed_decimals() {
    let mut patterns = Patterns(3_141_592_653);
    let mut numbers: Vec<f64> = SPECIAL.to_vec();
    numbers.extend([0.5, 1.5, 2.5, 0.125, 0.375, 1.005, 999.9995, -0.0004, 123456.789]);
    for _ in 0..300 {
        numbers.push(patterns.number());
    }
    for x in numbers {
        assert_eq!(fixed(d(x), 0, false), format!("{x:.0}"));
        assert_eq!(fixed(d(x), 2, true), format!("{x:+.2}"));
        assert_eq!(fixed(d(x), 6, false), format!("{x:.6}"));
    }
}

#[test]
fn orders_are_stable() {
    let xs: Vec<Double> = [2.0, -1.0, 2.0, f64::NAN, -0.0, 0.0].iter().map(|x| d(*x)).collect();
    assert_eq!(rising_order(&xs), vec![1, 4, 5, 0, 2, 3]);
    assert_eq!(falling_order(&xs), vec![3, 0, 2, 5, 4, 1]);
}
