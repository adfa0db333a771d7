//! What reading and writing of texts and numbers keep.
use vstd::prelude::*;
use vstd::arithmetic::power2::{lemma_pow2_pos, pow2};
use crate::decimal;
use crate::double;
use crate::double::{Double, UNIT};
use crate::json;
use crate::json::{Json, JsonNumber};
use crate::parsing;
use crate::reading;
use crate::rounding;
use crate::text;
use crate::text::Edge;

verus! {

proof fn lemma_without_start(s: Seq<char>, edge: Edge) -> (a: int)
    ensures
        0 <= a <= s.len(),
        text::without_start(s, edge) == s.skip(a),
        forall|i: int| 0 <= i < a ==> edge.has(#[trigger] s[i]),
        a < s.len() ==> !edge.has(s[a]),
    decreases s.len(),
{
    if s.len() > 0 && edge.has(s[0]) {
        let rest = s.drop_first();
        let b = lemma_without_start(rest, edge);
        assert(rest.skip(b) =~= s.skip(b + 1));
        assert forall|i: int| 0 <= i < b + 1 implies edge.has(#[trigger] s[i]) by {
            if i > 0 {
                assert(rest[i - 1] == s[i]);
            }
        }
        if b < rest.len() {
            assert(rest[b] == s[b + 1]);
        }
        b + 1
    } else {
        assert(s.skip(0) =~= s);
        0
    }
}

proof fn lemma_without_end(s: Seq<char>, edge: Edge) -> (b: int)
    ensures
        0 <= b <= s.len(),
        text::without_end(s, edge) == s.take(b),
        forall|i: int| b <= i < s.len() ==> edge.has(#[trigger] s[i]),
        b > 0 ==> !edge.has(s[b - 1]),
    decreases s.len(),
{
    if s.len() > 0 && edge.has(s.last()) {
        let rest = s.drop_last();
        let b = lemma_without_end(rest, edge);
        assert(rest.take(b) =~= s.take(b));
        assert forall|i: int| b <= i < s.len() implies edge.has(#[trigger] s[i]) by {
            if i < rest.len() {
                assert(rest[i] == s[i]);
            }
        }
        b
    } else {
        assert(s.take(s.len() as int) =~= s);
        s.len() as int
    }
}

/// A stripped text is the middle of the text: it neither begins nor ends with what is stripped,
/// and nothing else was taken off.
pub proof fn a_stripped_text_is_the_middle(s: Seq<char>, edge: Edge) -> (r: (int, int))
    ensures
        0 <= r.0 <= r.1 <= s.len(),
        text::stripped(s, edge) == s.subrange(r.0, r.1),
        forall|i: int| 0 <= i < r.0 ==> edge.has(#[trigger] s[i]),
        forall|i: int| r.1 <= i < s.len() ==> edge.has(#[trigger] s[i]),
        r.0 < r.1 ==> !edge.has(s[r.0]) && !edge.has(s[r.1 - 1]),
{
    let a = lemma_without_start(s, edge);
    let mid = s.skip(a);
    let b = lemma_without_end(mid, edge);
    assert(mid.take(b) =~= s.subrange(a, a + b));
    assert forall|i: int| a + b <= i < s.len() implies edge.has(#[trigger] s[i]) by {
        assert(mid[i - a] == s[i]);
    }
    if b > 0 {
        assert(mid[0] == s[a]);
        assert(mid[b - 1] == s[a + b - 1]);
    }
    (a, a + b)
}

proof fn lemma_first(s: Seq<char>, separator: char)
    ensures
        text::first_at(s, separator) <= s.len(),
        forall|i: int| 0 <= i < text::first_at(s, separator) ==> #[trigger] s[i] != separator,
        text::first_at(s, separator) < s.len() ==> s[text::first_at(s, separator) as int]
            == separator,
    decreases s.len(),
{
    if s.len() > 0 && s[0] != separator {
        let rest = s.drop_first();
        lemma_first(rest, separator);
        let n = text::first_at(rest, separator) as int;
        assert forall|i: int| 0 <= i < n + 1 implies #[trigger] s[i] != separator by {
            if i > 0 {
                assert(rest[i - 1] == s[i]);
            }
        }
        if n < rest.len() {
            assert(rest[n] == s[n + 1]);
        }
    }
}

/// The halves of a text are what stands before and behind its first separator; a text without
/// one has no halves.
pub proof fn halves_lie_around_the_first_separator(s: Seq<char>, separator: char)
    ensures
        match text::halves(s, separator) {
            Some((left, right)) => left + seq![separator] + right == s && !left.contains(separator),
            None => !s.contains(separator),
        },
{
    lemma_first(s, separator);
    match text::halves(s, separator) {
        Some((left, right)) => {
            assert(left + seq![separator] + right =~= s);
        },
        None => {},
    }
}

/// The pieces of a text put together again with its separator are the text, and no piece holds
/// the separator.
pub proof fn pieces_make_up_the_text(s: Seq<char>, separator: char, i: int)
    ensures
        text::joined(text::pieces(s, separator), seq![separator]) == s,
        text::pieces(s, separator).len() > 0,
        0 <= i < text::pieces(s, separator).len() ==> !text::pieces(s, separator)[i].contains(
            separator,
        ),
    decreases s.len(),
{
    lemma_first(s, separator);
    let n = text::first_at(s, separator) as int;
    let all = text::pieces(s, separator);
    if n < s.len() {
        let rest = s.skip(n + 1);
        pieces_make_up_the_text(rest, separator, i - 1);
        let tail = text::pieces(rest, separator);
        lemma_joined_front(s.take(n), tail, seq![separator]);
        assert(s.take(n) + seq![separator] + rest =~= s);
        if 0 < i < all.len() {
            assert(all[i] == tail[i - 1]);
        }
    } else {
        assert(all[0] == s);
    }
}

proof fn lemma_joined_front(first: Seq<char>, rest: Seq<Seq<char>>, separator: Seq<char>)
    requires
        rest.len() > 0,
    ensures
        text::joined(seq![first] + rest, separator) == first + separator + text::joined(
            rest,
            separator,
        ),
    decreases rest.len(),
{
    let all = seq![first] + rest;
    if rest.len() == 1 {
        assert(all.drop_last() =~= seq![first]);
        assert(all.last() == rest[0]);
        assert(text::joined(all.drop_last(), separator) == first);
    } else {
        lemma_joined_front(first, rest.drop_last(), separator);
        assert(all.drop_last() =~= seq![first] + rest.drop_last());
        assert(all.last() == rest.last());
        let before = text::joined(rest.drop_last(), separator);
        assert(first + separator + before + separator + rest.last() =~= first + separator + (before
            + separator + rest.last()));
    }
}

/// A clipped text is the beginning of the text, whole where it is short enough.
pub proof fn a_clipped_text_is_its_beginning(s: Seq<char>, most: nat)
    ensures
        text::clipped(s, most).is_prefix_of(s),
        text::clipped(s, most).len() == if s.len() > most {
            most
        } else {
            s.len()
        },
{
    let c = text::clipped(s, most);
    assert(c =~= s.subrange(0, c.len() as int));
}

proof fn lemma_digits(n: nat)
    ensures
        text::digits(n).len() > 0,
        parsing::all_digits(text::digits(n)),
        parsing::count(text::digits(n)) == n,
    decreases n,
{
    let d = text::digits(n);
    if n < 10 {
        assert(d.drop_last() =~= Seq::<char>::empty());
        assert(parsing::count(d.drop_last()) == 0);
        lemma_digit(n);
    } else {
        lemma_digits(n / 10);
        lemma_digit(n % 10);
        assert(d.drop_last() =~= text::digits(n / 10));
        let before = text::digits(n / 10);
        assert forall|i: int| 0 <= i < d.len() implies parsing::is_digit(#[trigger] d[i]) by {
            if i < before.len() {
                assert(d[i] == before[i]);
            }
        }
    }
}

proof fn lemma_digit(d: nat)
    requires
        d < 10,
    ensures
        parsing::is_digit(text::digit_char(d)),
        parsing::digit_of(text::digit_char(d)) == d,
        text::digit_char(d) != '+' && text::digit_char(d) != '-',
{
}

/// A count that was written is read back.
pub proof fn counts_are_read_back(n: u64)
    ensures
        parsing::unsigned_of(text::digits(n as nat)) == Some(n),
{
    lemma_digits(n as nat);
    let d = text::digits(n as nat);
    assert(parsing::is_digit(d[0]));
}

/// A whole number that was written is read back.
pub proof fn whole_numbers_are_read_back(n: i64)
    ensures
        parsing::signed_of(text::signed_digits(n as int)) == Some(n),
{
    if n < 0 {
        let d = text::digits((-n) as nat);
        lemma_digits((-n) as nat);
        let s = text::signed_digits(n as int);
        assert(s.drop_first() =~= d);
        assert(s[0] == '-');
    } else {
        let d = text::digits(n as nat);
        lemma_digits(n as nat);
        assert(parsing::is_digit(d[0]));
    }
}

/// A text is a count only if it is digits, with a plus before them or not; and it stands for the
/// number that they write.
pub proof fn counts_are_written_in_digits(s: Seq<char>)
    ensures
        match parsing::unsigned_of(s) {
            Some(n) => {
                let body = if s[0] == '+' {
                    s.drop_first()
                } else {
                    s
                };
                &&& s.len() > 0
                &&& body.len() > 0
                &&& parsing::count(body) == n
                &&& forall|i: int| 0 <= i < body.len() ==> '0' <= #[trigger] body[i] <= '9'
            },
            None => true,
        },
{
}

/// A digit more multiplies what was written before by ten.
pub proof fn digits_count_in_tens(s: Seq<char>, c: char)
    requires
        '0' <= c <= '9',
    ensures
        parsing::count(Seq::empty()) == 0,
        parsing::count(s.push(c)) == 10 * parsing::count(s) + (c as int - '0' as int),
{
    assert(s.push(c).drop_last() =~= s);
}

proof fn lemma_digit_run(a: Seq<char>, rest: Seq<char>)
    requires
        parsing::all_digits(a),
        rest.len() == 0 || !parsing::is_digit(rest[0]),
    ensures
        parsing::digit_run(a + rest) == a.len(),
    decreases a.len(),
{
    let s = a + rest;
    if a.len() > 0 {
        assert(parsing::is_digit(a[0]));
        assert(s[0] == a[0]);
        assert(s.drop_first() =~= a.drop_first() + rest);
        assert forall|i: int| 0 <= i < a.drop_first().len() implies parsing::is_digit(
            #[trigger] a.drop_first()[i],
        ) by {
            assert(parsing::is_digit(a[i + 1]));
        }
        lemma_digit_run(a.drop_first(), rest);
    } else {
        assert(s =~= rest);
    }
}

/// A minus before a text turns the number it stands for, and a plus leaves it.
pub proof fn a_sign_turns_a_number(s: Seq<char>)
    requires
        s.len() > 0,
        s[0] != '+' && s[0] != '-',
    ensures
        reading::double_of(seq!['+'] + s) == reading::double_of(s),
        match reading::double_of(s) {
            Some(x) => reading::double_of(seq!['-'] + s) == Some(x.neg()),
            None => reading::double_of(seq!['-'] + s) is None,
        },
{
    assert((seq!['+'] + s).drop_first() =~= s);
    assert((seq!['-'] + s).drop_first() =~= s);
    assert((seq!['+'] + s)[0] == '+');
    assert((seq!['-'] + s)[0] == '-');
}

/// Digits alone stand for the number that they count.
pub proof fn digits_are_read_as_their_count(s: Seq<char>)
    requires
        s.len() > 0,
        parsing::all_digits(s),
        parsing::count(s) <= u64::MAX,
    ensures
        reading::double_of(s) == Some(Double::whole(parsing::count(s) as u64)),
{
    let none = Seq::<char>::empty();
    assert(s + none =~= s);
    lemma_digit_run(s, none);
    assert(parsing::is_digit(s[0]));
    let n = s.len() as int;
    assert(s.skip(n) =~= none);
    assert(s.take(n) + none =~= s);
    assert(reading::number_of(s) == Some((s, 0int)));
    let d = parsing::count(s);
    reveal_with_fuel(decimal::tens, 1);
    assert(decimal::tens(0) == 1);
    assert(d * 1 == d);
    assert(reading::decimal_index(d, 0) == rounding::round_ratio(
        d * decimal::tens(0) * pow2(UNIT as nat),
        1,
    ));
}

/// Digits behind a point count in tenths, and digits behind an `e` in tens: both move the point
/// of the digits before them.
pub proof fn a_point_and_an_exponent_move_the_digits(a: Seq<char>, b: Seq<char>)
    requires
        a.len() > 0,
        parsing::all_digits(a),
        parsing::all_digits(b),
    ensures
        reading::double_of(a + seq!['.'] + b) == Some(
            reading::nearest_decimal(false, parsing::count(a + b), -(b.len() as int)),
        ),
        b.len() > 0 ==> reading::double_of(a + seq!['e'] + b) == Some(
            reading::nearest_decimal(false, parsing::count(a), parsing::count(b) as int),
        ),
        b.len() > 0 ==> reading::double_of(a + seq!['e', '-'] + b) == Some(
            reading::nearest_decimal(false, parsing::count(a), -(parsing::count(b) as int)),
        ),
{
    let n = a.len() as int;
    let none = Seq::<char>::empty();
    assert(parsing::is_digit(a[0]));
    let s = a + seq!['.'] + b;
    assert(s =~= a + (seq!['.'] + b));
    lemma_digit_run(a, seq!['.'] + b);
    assert(s.skip(n + 1) =~= b);
    assert(b + none =~= b);
    lemma_digit_run(b, none);
    assert(s.take(n) =~= a);
    assert(s.subrange(n + 1, n + 1 + b.len()) =~= b);
    assert(s.skip(n + 1 + b.len()) =~= none);
    assert(s[0] == a[0]);
    assert(reading::number_of(s) == Some((a + b, -(b.len() as int))));
    if b.len() > 0 {
        assert(parsing::is_digit(b[0]));
        let t = a + seq!['e'] + b;
        assert(t =~= a + (seq!['e'] + b));
        lemma_digit_run(a, seq!['e'] + b);
        assert(t.take(n) + none =~= a);
        let e = t.skip(n);
        assert(e =~= seq!['e'] + b);
        assert(e[1] == b[0]);
        assert(e.skip(1) =~= b);
        assert(t[0] == a[0]);
        assert(reading::exponent_of(e) == Some(parsing::count(b) as int));
        assert(reading::number_of(t) == Some((a, parsing::count(b) as int)));
        let u = a + seq!['e', '-'] + b;
        assert(u =~= a + (seq!['e', '-'] + b));
        lemma_digit_run(a, seq!['e', '-'] + b);
        assert(u.take(n) + none =~= a);
        let f = u.skip(n);
        assert(f =~= seq!['e', '-'] + b);
        assert(f[1] == '-');
        assert(f.skip(2) =~= b);
        assert(u[0] == a[0]);
        assert(reading::exponent_of(f) == Some(-(parsing::count(b) as int)));
        assert(reading::number_of(u) == Some((a, -(parsing::count(b) as int))));
    }
}

/// A zero behind the last decimal changes nothing.
pub proof fn a_last_zero_changes_nothing(negative: bool, d: nat, decimals: nat)
    ensures
        reading::nearest_decimal(negative, 10 * d, -(decimals as int) - 1)
            == reading::nearest_decimal(negative, d, -(decimals as int)),
{
    let unit = pow2(UNIT as nat);
    lemma_pow2_pos(UNIT as nat);
    decimal::lemma_tens_positive(decimals);
    let ten = decimal::tens(decimals);
    assert(decimal::tens((decimals + 1) as nat) == 10 * ten);
    rounding::lemma_round_scale(d * unit, ten, 10);
    assert((d * unit) * 10 == (10 * d) * unit) by (nonlinear_arith);
    assert(ten * 10 == 10 * ten);
    if decimals == 0 {
        assert(decimal::tens(0) == 1);
        assert(d * 1 * unit == d * unit) by (nonlinear_arith);
    }
}

/// What a number is rounded to for its decimals is a nearest one: twice the error is at most one
/// step.
pub proof fn decimals_are_nearest(x: Double, decimals: nat)
    requires
        x.finite(),
    ensures
        ({
            let unit = pow2(UNIT as nat) as int;
            let exact = x.units() * decimal::tens(decimals);
            let shown = decimal::steps(x, decimals) * unit;
            &&& 2 * (shown - exact) <= unit
            &&& 2 * (exact - shown) <= unit
        }),
{
    let unit = pow2(UNIT as nat);
    lemma_pow2_pos(UNIT as nat);
    let exact = x.units() * decimal::tens(decimals);
    let q = exact / unit;
    let r = exact % unit;
    assert(exact == unit * q + r && 0 <= r < unit) by {
        vstd::arithmetic::div_mod::lemma_fundamental_div_mod(exact as int, unit as int);
        vstd::arithmetic::div_mod::lemma_mod_bound(exact as int, unit as int);
    }
    assert((q + 1) * unit == unit * q + unit) by (nonlinear_arith);
    assert(q * unit == unit * q) by (nonlinear_arith);
}

/// A finite number is written with its sign, the whole part and as many digits behind the point
/// as asked for, of the number of steps that it is rounded to.
pub proof fn decimals_are_written_behind_the_point(x: Double, decimals: nat, plus: bool)
    requires
        x.finite(),
        decimals > 0,
    ensures
        ({
            let n = decimal::steps(x, decimals);
            let ten = decimal::tens(decimals);
            let body = text::digits(n / ten) + seq!['.'] + text::padded(n % ten, decimals);
            let shown = decimal::fixed_text(x, decimals, plus);
            &&& x.negative() ==> shown == seq!['-'] + body
            &&& !x.negative() && plus ==> shown == seq!['+'] + body
            &&& !x.negative() && !plus ==> shown == body
        }),
{
    let n = decimal::steps(x, decimals);
    let ten = decimal::tens(decimals);
    let a = text::digits(n / ten);
    let b = text::padded(n % ten, decimals);
    assert(seq!['-'] + a + seq!['.'] + b =~= seq!['-'] + (a + seq!['.'] + b));
    assert(seq!['+'] + a + seq!['.'] + b =~= seq!['+'] + (a + seq!['.'] + b));
    assert(Seq::<char>::empty() + a + seq!['.'] + b =~= a + seq!['.'] + b);
}

/// The larger of two numbers is one of them and not less than either, and the smaller one of them
/// and not more than either.
pub proof fn the_larger_is_not_less(a: Double, b: Double)
    requires
        !a.nan(),
        !b.nan(),
    ensures
        a.max(b) == a || a.max(b) == b,
        a.le(a.max(b)),
        b.le(a.max(b)),
        a.min(b) == a || a.min(b) == b,
        a.min(b).le(a),
        a.min(b).le(b),
{
}

/// A magnitude is not negative, and is the number itself or its opposite.
pub proof fn a_magnitude_is_not_negative(a: Double)
    requires
        !a.nan(),
    ensures
        Double::zero().le(a.abs()),
        Double::zero().le(a) && !a.negative() ==> a.abs() == a,
        a.negative() ==> a.abs() == a.neg(),
        a.neg().neg() == a,
{
}

/// The whole number below a number is at most that number, and the next one is more.
pub proof fn the_floor_lies_just_below(a: Double)
    requires
        a.finite(),
        i64::MIN < a.floor() < i64::MAX,
    ensures
        a.floor() * pow2(UNIT as nat) <= a.value() < (a.floor() + 1) * pow2(UNIT as nat),
{
    let unit = pow2(UNIT as nat) as int;
    lemma_pow2_pos(UNIT as nat);
    let v = a.value();
    let q = v / unit;
    vstd::arithmetic::div_mod::lemma_fundamental_div_mod(v, unit);
    vstd::arithmetic::div_mod::lemma_mod_bound(v, unit);
    assert(a.floor() == double::clamp64(q));
    assert(q * unit == unit * q) by (nonlinear_arith);
    assert((q + 1) * unit == unit * q + unit) by (nonlinear_arith);
}

/// A number of a value is read as it is: a count as such, a negative whole number as the opposite
/// of its magnitude, and only numbers are numbers.
pub proof fn values_are_read_by_their_kind(value: Json)
    ensures
        match value {
            Json::Number(JsonNumber::Unsigned(n)) => {
                &&& json::double_in(value) == Some(Double::whole(n))
                &&& json::unsigned_in(value) == Some(n)
                &&& n <= i64::MAX ==> json::signed_in(value) == Some(n as i64)
                &&& n > i64::MAX ==> json::signed_in(value) is None
            },
            Json::Number(JsonNumber::Negative(n)) => {
                &&& n < 0 ==> json::double_in(value) == Some(Double::whole((-n) as u64).neg())
                &&& json::unsigned_in(value) is None
                &&& json::signed_in(value) == Some(n)
            },
            Json::Number(JsonNumber::Real { value: x, .. }) => {
                &&& json::double_in(value) == Some(x)
                &&& json::unsigned_in(value) is None
                &&& json::signed_in(value) is None
            },
            _ => {
                &&& json::double_in(value) is None
                &&& json::unsigned_in(value) is None
                &&& json::signed_in(value) is None
            },
        },
        json::text_in(value) is Some <==> value is Text,
        json::items_in(value) is Some <==> value is List,
        !(value is Object) ==> forall|key: Seq<char>| #[trigger] json::member_of(value, key) is Null,
{
}

} // verus!
