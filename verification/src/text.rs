//! Text helpers: comparison, decimal digits and fixed-point numbers.
use vstd::prelude::*;
use vstd::string::*;
use crate::parsing;
use crate::sorting;


verus! {

/// Whether two texts hold the same characters.
pub fn text_eq(a: &str, b: &str) -> (r: bool)
    ensures
        r == (a@ == b@),
{
    a.to_owned() == b.to_owned()
}

pub open spec fn digit_char(d: nat) -> char {
    (48 + d) as u32 as char
}

/// The decimal digits of a whole number.
pub open spec fn digits(n: nat) -> Seq<char>
    decreases n,
{
    if n < 10 {
        seq![digit_char(n)]
    } else {
        digits(n / 10).push(digit_char(n % 10))
    }
}

/// The last `width` decimal digits of a whole number, zeros in front.
pub open spec fn padded(n: nat, width: nat) -> Seq<char>
    decreases width,
{
    if width == 0 {
        Seq::empty()
    } else {
        padded(n / 10, (width - 1) as nat).push(digit_char(n % 10))
    }
}

/// The decimal digits of a signed whole number.
pub open spec fn signed_digits(n: int) -> Seq<char> {
    if n < 0 {
        seq!['-'] + digits((-n) as nat)
    } else {
        digits(n as nat)
    }
}

pub fn digit(d: u64) -> (r: &'static str)
    requires
        d < 10,
    ensures
        r@ == seq![digit_char(d as nat)],
{
    proof {
        reveal_strlit("0");
        reveal_strlit("1");
        reveal_strlit("2");
        reveal_strlit("3");
        reveal_strlit("4");
        reveal_strlit("5");
        reveal_strlit("6");
        reveal_strlit("7");
        reveal_strlit("8");
        reveal_strlit("9");
    }
    let r = if d == 0 {
        "0"
    } else if d == 1 {
        "1"
    } else if d == 2 {
        "2"
    } else if d == 3 {
        "3"
    } else if d == 4 {
        "4"
    } else if d == 5 {
        "5"
    } else if d == 6 {
        "6"
    } else if d == 7 {
        "7"
    } else if d == 8 {
        "8"
    } else {
        "9"
    };
    assert(r@ =~= seq![digit_char(d as nat)]);
    r
}

/// The decimal digits of a whole number.
pub fn decimal(n: u64) -> (r: String)
    ensures
        r@ == digits(n as nat),
    decreases n,
{
    if n < 10 {
        digit(n).to_owned()
    } else {
        let mut r = decimal(n / 10);
        let ghost head = r@;
        r.append(digit(n % 10));
        assert(r@ =~= head.push(digit_char((n % 10) as nat)));
        r
    }
}

/// The decimal digits of a signed whole number.
pub fn signed_decimal(n: i64) -> (r: String)
    ensures
        r@ == signed_digits(n as int),
{
    if n >= 0 {
        decimal(n as u64)
    } else {
        proof {
            reveal_strlit("-");
        }
        let mut r = "-".to_owned();
        r.append(decimal((-(n + 1)) as u64 + 1).as_str());
        assert("-"@ =~= seq!['-']);
        r
    }
}

/// One text comes before another: at the first difference it has the smaller character, or
/// it ends first.
pub open spec fn precedes(a: Seq<char>, b: Seq<char>) -> bool
    decreases a.len(),
{
    if b.len() == 0 {
        false
    } else if a.len() == 0 {
        true
    } else if a[0] == b[0] {
        precedes(a.drop_first(), b.drop_first())
    } else {
        (a[0] as int) < (b[0] as int)
    }
}

/// The order of texts is strict and total.
pub proof fn text_order_is_total(a: Seq<char>, b: Seq<char>)
    ensures
        !(precedes(a, b) && precedes(b, a)),
        a == b || precedes(a, b) || precedes(b, a),
        a == b ==> !precedes(a, b),
    decreases a.len(),
{
    if a.len() > 0 && b.len() > 0 {
        text_order_is_total(a.drop_first(), b.drop_first());
        if a[0] == b[0] && a.drop_first() == b.drop_first() {
            assert(a =~= seq![a[0]] + a.drop_first());
            assert(b =~= seq![b[0]] + b.drop_first());
        }
    } else if a.len() == 0 && b.len() == 0 {
        assert(a =~= b);
    }
}

/// The order of texts is transitive.
pub proof fn text_order_is_transitive(a: Seq<char>, b: Seq<char>, c: Seq<char>)
    requires
        precedes(a, b),
        precedes(b, c),
    ensures
        precedes(a, c),
    decreases a.len(),
{
    if a.len() > 0 && b.len() > 0 && c.len() > 0 && a[0] == b[0] && b[0] == c[0] {
        text_order_is_transitive(a.drop_first(), b.drop_first(), c.drop_first());
    }
}

/// Whether one text comes before another.
pub fn text_precedes(a: &str, b: &str) -> (r: bool)
    ensures
        r == precedes(a@, b@),
{
    let n = a.unicode_len();
    let m = b.unicode_len();
    let mut i: usize = 0;
    assert(a@.skip(0) =~= a@);
    assert(b@.skip(0) =~= b@);
    while i < n && i < m
        invariant
            n == a@.len(),
            m == b@.len(),
            i <= n,
            i <= m,
            precedes(a@, b@) == precedes(a@.skip(i as int), b@.skip(i as int)),
        decreases n - i,
    {
        let x = a.get_char(i);
        let y = b.get_char(i);
        assert(a@.skip(i as int)[0] == x);
        assert(b@.skip(i as int)[0] == y);
        assert(a@.skip(i as int).drop_first() =~= a@.skip(i + 1));
        assert(b@.skip(i as int).drop_first() =~= b@.skip(i + 1));
        if x != y {
            return (x as u32) < (y as u32);
        }
        i = i + 1;
    }
    i < m
}

/// What is taken off the ends of a text.
#[derive(Clone, Copy, Debug, PartialEq, Eq, Structural)]
pub enum Edge {
    /// White space.
    Space,
    /// Quotation marks.
    Quote,
}

impl Edge {
    pub open spec fn spec_has(self, c: char) -> bool {
        match self {
            Edge::Space => {
                ||| '\u{9}' <= c && c <= '\u{d}'
                ||| c == '\u{20}'
                ||| c == '\u{85}'
                ||| c == '\u{a0}'
                ||| c == '\u{1680}'
                ||| '\u{2000}' <= c && c <= '\u{200a}'
                ||| c == '\u{2028}'
                ||| c == '\u{2029}'
                ||| c == '\u{202f}'
                ||| c == '\u{205f}'
                ||| c == '\u{3000}'
            },
            Edge::Quote => c == '"' || c == '\'',
        }
    }

    #[verifier::when_used_as_spec(spec_has)]
    pub fn has(self, c: char) -> (r: bool)
        ensures
            r == self.spec_has(c),
    {
        match self {
            Edge::Space => ('\u{9}' <= c && c <= '\u{d}') || c == '\u{20}' || c == '\u{85}' || c
                == '\u{a0}' || c == '\u{1680}' || ('\u{2000}' <= c && c <= '\u{200a}') || c
                == '\u{2028}' || c == '\u{2029}' || c == '\u{202f}' || c == '\u{205f}' || c
                == '\u{3000}',
            Edge::Quote => c == '"' || c == '\'',
        }
    }
}

/// A text without what stands at its beginning.
pub open spec fn without_start(s: Seq<char>, edge: Edge) -> Seq<char>
    decreases s.len(),
{
    if s.len() > 0 && edge.has(s[0]) {
        without_start(s.drop_first(), edge)
    } else {
        s
    }
}

/// A text without what stands at its end.
pub open spec fn without_end(s: Seq<char>, edge: Edge) -> Seq<char>
    decreases s.len(),
{
    if s.len() > 0 && edge.has(s.last()) {
        without_end(s.drop_last(), edge)
    } else {
        s
    }
}

/// A text without what stands at its ends.
pub open spec fn stripped(s: Seq<char>, edge: Edge) -> Seq<char> {
    without_end(without_start(s, edge), edge)
}

/// Takes off what stands at the ends of a text.
pub fn strip(s: &str, edge: Edge) -> (r: &str)
    ensures
        r@ == stripped(s@, edge),
{
    let cs = parsing::characters(s);
    let n = cs.len();
    let mut from: usize = 0;
    assert(s@.skip(0) =~= s@);
    while from < n && edge.has(cs[from])
        invariant
            n == cs@.len(),
            cs@ == s@,
            from <= n,
            without_start(s@, edge) == without_start(s@.skip(from as int), edge),
        decreases n - from,
    {
        assert(s@.skip(from as int).drop_first() =~= s@.skip(from + 1));
        from = from + 1;
    }
    let ghost rest = s@.skip(from as int);
    let mut to: usize = n;
    assert(s@.subrange(from as int, to as int) =~= rest);
    while to > from && edge.has(cs[to - 1])
        invariant
            n == cs@.len(),
            cs@ == s@,
            from <= to <= n,
            without_end(rest, edge) == without_end(s@.subrange(from as int, to as int), edge),
        decreases to,
    {
        assert(s@.subrange(from as int, to as int).drop_last() =~= s@.subrange(
            from as int,
            to - 1,
        ));
        to = to - 1;
    }
    s.substring_char(from, to)
}

/// The place of the first separator, or the length.
pub open spec fn first_at(s: Seq<char>, separator: char) -> nat
    decreases s.len(),
{
    if s.len() == 0 || s[0] == separator {
        0
    } else {
        1 + first_at(s.drop_first(), separator)
    }
}

/// The pieces between the separators of a text.
pub open spec fn pieces(s: Seq<char>, separator: char) -> Seq<Seq<char>>
    decreases s.len(),
{
    let i = first_at(s, separator) as int;
    if i < s.len() {
        seq![s.take(i)] + pieces(s.skip(i + 1), separator)
    } else {
        seq![s]
    }
}

proof fn lemma_first_at(s: Seq<char>, separator: char, n: int)
    requires
        0 <= n <= s.len(),
        forall|i: int| 0 <= i < n ==> #[trigger] s[i] != separator,
        n == s.len() || s[n] == separator,
    ensures
        first_at(s, separator) == n,
    decreases s.len(),
{
    if n > 0 {
        assert(s[0] != separator);
        assert forall|i: int| 0 <= i < n - 1 implies #[trigger] s.drop_first()[i] != separator by {
            assert(s[i + 1] != separator);
        }
        lemma_first_at(s.drop_first(), separator, n - 1);
    }
}

/// The place of the first separator from a place on, or the length.
fn find(cs: &Vec<char>, from: usize, separator: char) -> (i: usize)
    requires
        from <= cs@.len(),
    ensures
        from <= i <= cs@.len(),
        i - from == first_at(cs@.skip(from as int), separator),
{
    let mut i: usize = from;
    while i < cs.len() && cs[i] != separator
        invariant
            from <= i <= cs@.len(),
            forall|j: int| from <= j < i ==> #[trigger] cs@[j] != separator,
        decreases cs@.len() - i,
    {
        i = i + 1;
    }
    proof {
        let rest = cs@.skip(from as int);
        assert forall|j: int| 0 <= j < i - from implies #[trigger] rest[j] != separator by {
            assert(cs@[from + j] != separator);
        }
        lemma_first_at(rest, separator, i - from);
    }
    i
}

/// Splits a text at a separator.
pub fn split(s: &str, separator: char) -> (r: Vec<String>)
    ensures
        sorting::texts(r@) == pieces(s@, separator),
{
    let cs = parsing::characters(s);
    let n = cs.len();
    let mut r: Vec<String> = Vec::new();
    let mut from: usize = 0;
    assert(s@.skip(0) =~= s@);
    assert(sorting::texts(r@) + pieces(s@, separator) =~= pieces(s@, separator));
    loop
        invariant
            n == cs@.len(),
            cs@ == s@,
            from <= n,
            sorting::texts(r@) + pieces(s@.skip(from as int), separator) == pieces(s@, separator),
        decreases n - from,
    {
        let ghost rest = s@.skip(from as int);
        let ghost before = sorting::texts(r@);
        let i = find(&cs, from, separator);
        let piece = s.substring_char(from, i);
        assert(piece@ =~= rest.take(i - from));
        r.push(piece.to_owned());
        assert(sorting::texts(r@) =~= before.push(piece@));
        if i == n {
            assert(rest.take(i - from) =~= rest);
            assert(before + seq![rest] =~= before.push(rest));
            return r;
        }
        proof {
            let next = s@.skip(i + 1);
            assert(rest.skip(i - from + 1) =~= next);
            assert(before + (seq![piece@] + pieces(next, separator)) =~= before.push(piece@)
                + pieces(next, separator));
        }
        from = i + 1;
    }
}

/// A text without the carriage return that ends it.
pub open spec fn without_return(s: Seq<char>) -> Seq<char> {
    if s.len() > 0 && s.last() == '\r' {
        s.drop_last()
    } else {
        s
    }
}

/// The lines of a text: line feeds end them, with or without a carriage return before, and
/// no empty line stands behind the last line feed.
pub open spec fn lines_of(s: Seq<char>) -> Seq<Seq<char>> {
    let all = pieces(s, '\n');
    let ended = all.drop_last().map_values(|l: Seq<char>| without_return(l));
    if all.last().len() == 0 {
        ended
    } else {
        ended.push(all.last())
    }
}

proof fn lemma_pieces_exist(s: Seq<char>, separator: char)
    ensures
        pieces(s, separator).len() > 0,
{
}

/// Splits a text into lines.
pub fn lines(s: &str) -> (r: Vec<String>)
    ensures
        sorting::texts(r@) == lines_of(s@),
{
    let all = split(s, '\n');
    let ghost parts = pieces(s@, '\n');
    proof {
        lemma_pieces_exist(s@, '\n');
    }
    let n = all.len();
    let mut r: Vec<String> = Vec::new();
    let mut i: usize = 0;
    let ghost ended = parts.drop_last().map_values(|l: Seq<char>| without_return(l));
    assert(sorting::texts(r@) =~= ended.take(0));
    while i < n - 1
        invariant
            n == all@.len(),
            n > 0,
            i <= n - 1,
            parts == sorting::texts(all@),
            ended == parts.drop_last().map_values(|l: Seq<char>| without_return(l)),
            sorting::texts(r@) == ended.take(i as int),
        decreases n - i,
    {
        let line = all[i].as_str();
        assert(parts[i as int] == line@);
        let k = line.unicode_len();
        let kept = if k > 0 && line.get_char(k - 1) == '\r' {
            line.substring_char(0, k - 1)
        } else {
            line
        };
        assert(kept@ =~= without_return(line@));
        let ghost before = sorting::texts(r@);
        r.push(kept.to_owned());
        proof {
            assert(sorting::texts(r@) =~= before.push(kept@));
            assert(parts.drop_last()[i as int] == line@);
            assert(ended[i as int] == kept@);
            assert(ended.take(i + 1) =~= ended.take(i as int).push(ended[i as int]));
        }
        i = i + 1;
    }
    let last = all[n - 1].as_str();
    assert(parts.last() == last@);
    assert(ended.take(i as int) =~= ended);
    if last.unicode_len() > 0 {
        r.push(last.to_owned());
        assert(sorting::texts(r@) =~= ended.push(last@));
    }
    r
}

/// The parts before and behind the first separator, if there is one.
pub open spec fn halves(s: Seq<char>, separator: char) -> Option<(Seq<char>, Seq<char>)> {
    let i = first_at(s, separator) as int;
    if i < s.len() {
        Some((s.take(i), s.skip(i + 1)))
    } else {
        None
    }
}

/// Splits a text at the first separator.
pub fn split_once(s: &str, separator: char) -> (r: Option<(&str, &str)>)
    ensures
        match r {
            Some((a, b)) => halves(s@, separator) == Some((a@, b@)),
            None => halves(s@, separator) is None,
        },
{
    let cs = parsing::characters(s);
    let n = cs.len();
    assert(s@.skip(0) =~= s@);
    let i = find(&cs, 0, separator);
    if i == n {
        return None;
    }
    let a = s.substring_char(0, i);
    let b = s.substring_char(i + 1, n);
    assert(a@ =~= s@.take(i as int));
    assert(b@ =~= s@.skip(i + 1));
    Some((a, b))
}

/// Whether a text begins with another.
pub fn starts_with(s: &str, start: &str) -> (r: bool)
    ensures
        r == (start@.len() <= s@.len() && s@.take(start@.len() as int) == start@),
{
    let n = start.unicode_len();
    if n > s.unicode_len() {
        return false;
    }
    let head = s.substring_char(0, n);
    assert(head@ =~= s@.take(n as int));
    text_eq(head, start)
}

/// The first characters of a text, at most so many.
pub open spec fn clipped(s: Seq<char>, most: nat) -> Seq<char> {
    if s.len() > most {
        s.take(most as int)
    } else {
        s
    }
}

/// The first characters of a text, at most so many.
pub fn clip(s: &str, most: usize) -> (r: &str)
    ensures
        r@ == clipped(s@, most as nat),
{
    if s.unicode_len() > most {
        let r = s.substring_char(0, most);
        assert(r@ =~= s@.take(most as int));
        r
    } else {
        s
    }
}

/// Texts joined by a separator.
pub open spec fn joined(items: Seq<Seq<char>>, separator: Seq<char>) -> Seq<char>
    decreases items.len(),
{
    if items.len() == 0 {
        Seq::empty()
    } else if items.len() == 1 {
        items[0]
    } else {
        joined(items.drop_last(), separator) + separator + items.last()
    }
}

/// Joins texts by a separator.
pub fn join(items: &Vec<String>, separator: &str) -> (r: String)
    ensures
        r@ == joined(sorting::texts(items@), separator@),
{
    let ghost all = sorting::texts(items@);
    let n = items.len();
    if n == 0 {
        let r = String::new();
        assert(r@ =~= joined(all, separator@));
        return r;
    }
    let mut r = items[0].clone();
    let mut i: usize = 1;
    assert(all.take(1)[0] == items@[0]@);
    while i < n
        invariant
            n == items@.len(),
            1 <= i <= n,
            all == sorting::texts(items@),
            r@ == joined(all.take(i as int), separator@),
        decreases n - i,
    {
        r.append(separator);
        r.append(items[i].as_str());
        assert(all.take(i + 1).drop_last() =~= all.take(i as int));
        assert(all.take(i + 1).last() == items@[i as int]@);
        i = i + 1;
    }
    assert(all.take(n as int) =~= all);
    r
}

/// The capital of a small ASCII letter; any other character stays.
pub open spec fn capital(c: char) -> char {
    if 'a' as int <= c as int <= 'z' as int {
        (c as int - 32) as char
    } else {
        c
    }
}

/// A text with capitals for its small ASCII letters.
pub open spec fn capitals(s: Seq<char>) -> Seq<char> {
    s.map_values(|c: char| capital(c))
}

fn capital_letter(c: char) -> (r: &'static str)
    requires
        'a' as int <= c as int <= 'z' as int,
    ensures
        r@ == seq![capital(c)],
{
    proof {
        reveal_strlit("A");
        reveal_strlit("B");
        reveal_strlit("C");
        reveal_strlit("D");
        reveal_strlit("E");
        reveal_strlit("F");
        reveal_strlit("G");
        reveal_strlit("H");
        reveal_strlit("I");
        reveal_strlit("J");
        reveal_strlit("K");
        reveal_strlit("L");
        reveal_strlit("M");
        reveal_strlit("N");
        reveal_strlit("O");
        reveal_strlit("P");
        reveal_strlit("Q");
        reveal_strlit("R");
        reveal_strlit("S");
        reveal_strlit("T");
        reveal_strlit("U");
        reveal_strlit("V");
        reveal_strlit("W");
        reveal_strlit("X");
        reveal_strlit("Y");
        reveal_strlit("Z");
    }
    let r = if c == 'a' {
        "A"
    } else if c == 'b' {
        "B"
    } else if c == 'c' {
        "C"
    } else if c == 'd' {
        "D"
    } else if c == 'e' {
        "E"
    } else if c == 'f' {
        "F"
    } else if c == 'g' {
        "G"
    } else if c == 'h' {
        "H"
    } else if c == 'i' {
        "I"
    } else if c == 'j' {
        "J"
    } else if c == 'k' {
        "K"
    } else if c == 'l' {
        "L"
    } else if c == 'm' {
        "M"
    } else if c == 'n' {
        "N"
    } else if c == 'o' {
        "O"
    } else if c == 'p' {
        "P"
    } else if c == 'q' {
        "Q"
    } else if c == 'r' {
        "R"
    } else if c == 's' {
        "S"
    } else if c == 't' {
        "T"
    } else if c == 'u' {
        "U"
    } else if c == 'v' {
        "V"
    } else if c == 'w' {
        "W"
    } else if c == 'x' {
        "X"
    } else if c == 'y' {
        "Y"
    } else {
        "Z"
    };
    assert(r@ =~= seq![capital(c)]);
    r
}

/// Writes the small ASCII letters of a text as capitals.
pub fn capitalize(s: &str) -> (r: String)
    ensures
        r@ == capitals(s@),
{
    let n = s.unicode_len();
    let ghost all = capitals(s@);
    let mut r = String::new();
    let mut i: usize = 0;
    assert(r@ =~= all.take(0));
    while i < n
        invariant
            n == s@.len(),
            i <= n,
            all == capitals(s@),
            r@ == all.take(i as int),
        decreases n - i,
    {
        let c = s.get_char(i);
        if 'a' <= c && c <= 'z' {
            r.append(capital_letter(c));
        } else {
            let rest = s.substring_char(i, i + 1);
            assert(rest@ =~= seq![capital(c)]);
            r.append(rest);
        }
        assert(r@ =~= all.take(i + 1));
        i = i + 1;
    }
    assert(all.take(i as int) =~= all);
    r
}

/// A text of ASCII characters.
pub open spec fn ascii(s: Seq<char>) -> bool {
    forall|i: int| 0 <= i < s.len() ==> (#[trigger] s[i]) as int <= 127
}

/// The small letter of an ASCII capital; any other character stays.
pub open spec fn small(c: char) -> char {
    if 'A' as int <= c as int <= 'Z' as int {
        (c as int + 32) as char
    } else {
        c
    }
}

/// A text with small letters for its ASCII capitals.
pub open spec fn smalls(s: Seq<char>) -> Seq<char> {
    s.map_values(|c: char| small(c))
}

/// What `str::to_uppercase` makes of a text.
pub uninterp spec fn uppercased(s: Seq<char>) -> Seq<char>;

/// The text in capital letters, by `str::to_uppercase`: a function of the text alone, by the
/// Unicode mapping of letters to capitals, which takes `a` to `z` to `A` to `Z` and leaves other
/// ASCII characters as they are.
#[verifier::external_body]
pub(crate) fn to_uppercase(s: &str) -> (r: String)
    ensures
        r@ == uppercased(s@),
        ascii(s@) ==> r@ == capitals(s@),
{
    s.to_uppercase()
}

/// What `str::to_lowercase` makes of a text.
pub uninterp spec fn lowercased(s: Seq<char>) -> Seq<char>;

/// The text in small letters, by `str::to_lowercase`: a function of the text alone, by the
/// Unicode mapping of letters to small ones, which takes `A` to `Z` to `a` to `z` and leaves
/// other ASCII characters as they are.
#[verifier::external_body]
pub(crate) fn to_lowercase(s: &str) -> (r: String)
    ensures
        r@ == lowercased(s@),
        ascii(s@) ==> r@ == smalls(s@),
{
    s.to_lowercase()
}

} // verus!
