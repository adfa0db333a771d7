//! Numbers from text.
use vstd::prelude::*;
use vstd::string::*;

verus! {

/// The characters of a text.
pub fn characters(s: &str) -> (r: Vec<char>)
    ensures
        r@ == s@,
{
    let mut r: Vec<char> = Vec::new();
    for c in it: s.chars()
        invariant
            r@ == it.seq().take(it.index()),
            it.seq() == s@,
    {
        r.push(c);
        assert(it.seq().take(it.index() + 1) =~= it.seq().take(it.index()).push(c));
    }
    assert(r@ =~= s@);
    r
}

pub open spec fn is_digit(c: char) -> bool {
    '0' <= c && c <= '9'
}

pub open spec fn digit_of(c: char) -> nat {
    (c as int - '0' as int) as nat
}

/// How many digits a text begins with.
pub open spec fn digit_run(s: Seq<char>) -> nat
    decreases s.len(),
{
    if s.len() > 0 && is_digit(s[0]) {
        1 + digit_run(s.drop_first())
    } else {
        0
    }
}

/// The number that some digits stand for.
pub open spec fn count(s: Seq<char>) -> nat
    decreases s.len(),
{
    if s.len() == 0 {
        0
    } else {
        10 * count(s.drop_last()) + digit_of(s.last())
    }
}

/// All characters are digits.
pub open spec fn all_digits(s: Seq<char>) -> bool {
    forall|i: int| 0 <= i < s.len() ==> is_digit(#[trigger] s[i])
}

/// The unsigned number that a text stands for: digits, with an optional plus, in range.
pub open spec fn unsigned_of(s: Seq<char>) -> Option<u64> {
    let body = if s.len() > 0 && s[0] == '+' {
        s.drop_first()
    } else {
        s
    };
    if body.len() > 0 && all_digits(body) && count(body) <= u64::MAX {
        Some(count(body) as u64)
    } else {
        None
    }
}

/// The signed number that a text stands for: digits, with an optional sign, in range.
pub open spec fn signed_of(s: Seq<char>) -> Option<i64> {
    let negative = s.len() > 0 && s[0] == '-';
    let body = if s.len() > 0 && (s[0] == '+' || s[0] == '-') {
        s.drop_first()
    } else {
        s
    };
    let n = if negative {
        -(count(body) as int)
    } else {
        count(body) as int
    };
    if body.len() > 0 && all_digits(body) && i64::MIN <= n <= i64::MAX {
        Some(n as i64)
    } else {
        None
    }
}

pub proof fn lemma_count_grows(s: Seq<char>, i: int)
    requires
        0 <= i <= s.len(),
    ensures
        count(s.take(i)) <= count(s),
    decreases s.len() - i,
{
    if i < s.len() {
        lemma_count_grows(s, i + 1);
        assert(s.take(i + 1).drop_last() =~= s.take(i));
    } else {
        assert(s.take(i) =~= s);
    }
}

/// The number that the digits from a place on stand for, if they are digits and it is in
/// range.
fn counted(s: &Vec<char>, from: usize, most: u64) -> (r: Option<u64>)
    requires
        from <= s@.len(),
        most >= 9,
    ensures
        ({
            let body = s@.skip(from as int);
            r == if body.len() > 0 && all_digits(body) && count(body) <= most {
                Some(count(body) as u64)
            } else {
                None
            }
        }),
{
    let ghost body = s@.skip(from as int);
    let n = s.len();
    if from == n {
        return None;
    }
    let mut total: u64 = 0;
    let mut i: usize = from;
    assert(body.take(0) =~= Seq::<char>::empty());
    while i < n
        invariant
            n == s@.len(),
            from <= i <= n,
            body == s@.skip(from as int),
            all_digits(body.take(i - from)),
            total == count(body.take(i - from)),
            total <= most,
            most >= 9,
        decreases n - i,
    {
        let c = s[i];
        assert(body[i - from] == c);
        assert(body.take(i - from + 1).drop_last() =~= body.take(i - from));
        if !('0' <= c && c <= '9') {
            return None;
        }
        let d: u64 = (c as u32 - '0' as u32) as u64;
        proof {
            lemma_count_grows(body, i - from + 1);
        }
        if total > most / 10 || 10 * total > most - d {
            return None;
        }
        assert(total * 10 + d <= most);
        total = 10 * total + d;
        i = i + 1;
    }
    assert(body.take(i - from) =~= body);
    Some(total)
}

/// Reads an unsigned number.
pub fn parse_unsigned(s: &str) -> (r: Option<u64>)
    ensures
        r == unsigned_of(s@),
{
    let cs = characters(s);
    let from: usize = if cs.len() > 0 && cs[0] == '+' {
        1
    } else {
        0
    };
    proof {
        assert(cs@.skip(0) =~= cs@);
        if cs@.len() > 0 {
            assert(cs@.skip(1) =~= cs@.drop_first());
        }
    }
    counted(&cs, from, u64::MAX)
}

/// Reads a signed number.
pub fn parse_signed(s: &str) -> (r: Option<i64>)
    ensures
        r == signed_of(s@),
{
    let cs = characters(s);
    let negative = cs.len() > 0 && cs[0] == '-';
    let from: usize = if cs.len() > 0 && (cs[0] == '+' || cs[0] == '-') {
        1
    } else {
        0
    };
    proof {
        assert(cs@.skip(0) =~= cs@);
        if cs@.len() > 0 {
            assert(cs@.skip(1) =~= cs@.drop_first());
        }
    }
    if negative {
        match counted(&cs, from, 0x8000_0000_0000_0000) {
            Some(n) => if n == 0x8000_0000_0000_0000 {
                Some(i64::MIN)
            } else {
                Some(-(n as i64))
            },
            None => None,
        }
    } else {
        match counted(&cs, from, 0x7fff_ffff_ffff_ffff) {
            Some(n) => Some(n as i64),
            None => None,
        }
    }
}

} // verus!
