//! Stable ordering by integer keys.
use vstd::prelude::*;
use crate::double;
use crate::double::{Double, SIGN};
use crate::table;
use crate::table::Table;
use crate::text;

verus! {

/// Index `a` comes before index `b`: a smaller key, or the same key and an earlier place.
pub open spec fn before(keys: Seq<i128>, a: usize, b: usize) -> bool {
    keys[a as int] < keys[b as int] || (keys[a as int] == keys[b as int] && a < b)
}

/// `p` lists every place of `keys` once, by ascending key, equal keys in their old order.
pub open spec fn is_stable_order(keys: Seq<i128>, p: Seq<usize>) -> bool {
    &&& p.len() == keys.len()
    &&& forall|i: int| 0 <= i < p.len() ==> #[trigger] p[i] < keys.len()
    &&& forall|i: int, j: int| 0 <= i < j < p.len() ==> before(keys, #[trigger] p[i], #[trigger] p[j])
    &&& forall|x: usize| x < keys.len() ==> #[trigger] p.contains(x)
}

/// The stable ascending order of `keys`, as a list of places.
pub open spec fn order(keys: Seq<i128>) -> Seq<usize> {
    choose|p: Seq<usize>| is_stable_order(keys, p)
}

/// The items at the listed places.
pub open spec fn picked<T>(items: Seq<T>, p: Seq<usize>) -> Seq<T> {
    Seq::new(p.len(), |i: int| items[p[i] as int])
}

/// There is only one stable order.
pub proof fn stable_order_is_unique(keys: Seq<i128>, p: Seq<usize>, q: Seq<usize>)
    requires
        is_stable_order(keys, p),
        is_stable_order(keys, q),
    ensures
        p == q,
{
    lemma_same_prefix(keys, p, q, p.len() as int);
    assert(p =~= q);
}

proof fn lemma_same_prefix(keys: Seq<i128>, p: Seq<usize>, q: Seq<usize>, n: int)
    requires
        is_stable_order(keys, p),
        is_stable_order(keys, q),
        0 <= n <= p.len(),
    ensures
        forall|i: int| 0 <= i < n ==> p[i] == q[i],
    decreases n,
{
    if n > 0 {
        lemma_same_prefix(keys, p, q, n - 1);
        let i = n - 1;
        if p[i] != q[i] {
            assert(p.contains(q[i]));
            let j = choose|j: int| 0 <= j < p.len() && p[j] == q[i];
            if j < i {
                assert(before(keys, q[j], q[i]));
            } else {
                assert(before(keys, p[i], p[j]));
            }
            assert(q.contains(p[i]));
            let k = choose|k: int| 0 <= k < q.len() && q[k] == p[i];
            if k < i {
                assert(before(keys, p[k], p[i]));
            } else {
                assert(before(keys, q[i], q[k]));
            }
        }
    }
}

proof fn lemma_insert_place(keys: Seq<i128>, p: Seq<usize>, n: usize, at: int)
    requires
        n < keys.len(),
        is_stable_order(keys.take(n as int), p),
        0 <= at <= p.len(),
        forall|i: int| 0 <= i < at ==> keys[#[trigger] p[i] as int] <= keys[n as int],
        forall|i: int| at <= i < p.len() ==> keys[#[trigger] p[i] as int] > keys[n as int],
    ensures
        is_stable_order(keys.take(n + 1), p.insert(at, n)),
{
    let old_keys = keys.take(n as int);
    let new_keys = keys.take(n + 1);
    let q = p.insert(at, n);
    assert forall|i: int| 0 <= i < q.len() implies #[trigger] q[i] < new_keys.len() by {
        if i < at {
            assert(q[i] == p[i]);
        } else if i > at {
            assert(q[i] == p[i - 1]);
        }
    }
    assert forall|i: int, j: int| 0 <= i < j < q.len() implies before(
        new_keys,
        #[trigger] q[i],
        #[trigger] q[j],
    ) by {
        if j < at {
            assert(before(old_keys, p[i], p[j]));
        } else if i > at {
            assert(before(old_keys, p[i - 1], p[j - 1]));
        } else if i < at && j > at {
            assert(before(old_keys, p[i], p[j - 1]));
        } else if j == at {
            assert(q[i] == p[i]);
            assert(p[i] < old_keys.len());
        } else {
            assert(q[j] == p[j - 1]);
        }
    }
    assert forall|x: usize| x < new_keys.len() implies #[trigger] q.contains(x) by {
        if x == n {
            assert(q[at] == n);
        } else {
            assert(p.contains(x));
            let i = choose|i: int| 0 <= i < p.len() && p[i] == x;
            if i < at {
                assert(q[i] == x);
            } else {
                assert(q[i + 1] == x);
            }
        }
    }
}

proof fn lemma_place(keys: Seq<i128>, p: Seq<usize>, n: usize, at: int) -> (r: int)
    requires
        n < keys.len(),
        is_stable_order(keys.take(n as int), p),
        0 <= at <= p.len(),
        forall|i: int| at <= i < p.len() ==> keys[#[trigger] p[i] as int] > keys[n as int],
    ensures
        0 <= r <= p.len(),
        forall|i: int| 0 <= i < r ==> keys[#[trigger] p[i] as int] <= keys[n as int],
        forall|i: int| r <= i < p.len() ==> keys[#[trigger] p[i] as int] > keys[n as int],
    decreases at,
{
    if at > 0 && keys[p[at - 1] as int] > keys[n as int] {
        lemma_place(keys, p, n, at - 1)
    } else {
        assert forall|i: int| 0 <= i < at implies keys[#[trigger] p[i] as int]
            <= keys[n as int] by {
            if i < at - 1 {
                assert(before(keys.take(n as int), p[i], p[at - 1]));
            }
        }
        at
    }
}

proof fn lemma_order_of_beginning(keys: Seq<i128>, n: usize) -> (p: Seq<usize>)
    requires
        n <= keys.len(),
    ensures
        is_stable_order(keys.take(n as int), p),
    decreases n,
{
    if n == 0 {
        Seq::empty()
    } else {
        let m = (n - 1) as usize;
        let before = lemma_order_of_beginning(keys, m);
        let at = lemma_place(keys, before, m, before.len() as int);
        lemma_insert_place(keys, before, m, at);
        before.insert(at, m)
    }
}

/// Every list of keys has a stable order.
pub proof fn every_list_has_an_order(keys: Seq<i128>)
    requires
        keys.len() <= usize::MAX,
    ensures
        is_stable_order(keys, order(keys)),
{
    let p = lemma_order_of_beginning(keys, keys.len() as usize);
    assert(keys.take(keys.len() as int) =~= keys);
    assert(is_stable_order(keys, p));
}

/// The stable ascending order of `keys`, as a list of places. Linear on keys that are
/// already in order.
pub fn stable_order(keys: &Vec<i128>) -> (p: Vec<usize>)
    ensures
        is_stable_order(keys@, p@),
        p@ == order(keys@),
{
    let mut p: Vec<usize> = Vec::new();
    let mut n: usize = 0;
    while n < keys.len()
        invariant
            n <= keys@.len(),
            is_stable_order(keys@.take(n as int), p@),
        decreases keys@.len() - n,
    {
        let mut at = p.len();
        assert(at == n);
        while at > 0 && keys[p[at - 1]] > keys[n]
            invariant
                at <= p@.len() == n < keys@.len(),
                is_stable_order(keys@.take(n as int), p@),
                forall|i: int|
                    at <= i < p@.len() ==> keys@[#[trigger] p@[i] as int] > keys@[n as int],
            decreases at,
        {
            at = at - 1;
        }
        proof {
            assert forall|i: int| 0 <= i < at implies keys@[#[trigger] p@[i] as int]
                <= keys@[n as int] by {
                if i < at - 1 {
                    assert(before(keys@.take(n as int), p@[i], p@[at - 1]));
                }
            }
            lemma_insert_place(keys@, p@, n, at as int);
        }
        p.insert(at, n);
        n = n + 1;
    }
    proof {
        assert(keys@.take(n as int) =~= keys@);
        stable_order_is_unique(keys@, p@, order(keys@));
    }
    p
}

/// The place of a number in the total order, as an integer.
pub fn rank_key(x: Double) -> (k: i128)
    ensures
        k == double::rank(x),
        -0x8000_0000_0000_0000 <= k < 0x8000_0000_0000_0000,
{
    let i = (x.bits % SIGN) as i128;
    if x.bits >= SIGN {
        -i - 1
    } else {
        i
    }
}

/// Keys that order numbers by the total order.
pub open spec fn rank_keys(xs: Seq<Double>) -> Seq<i128> {
    Seq::new(xs.len(), |i: int| double::rank(xs[i]) as i128)
}

/// Keys that order numbers against the total order.
pub open spec fn falling_keys(xs: Seq<Double>) -> Seq<i128> {
    Seq::new(xs.len(), |i: int| (-double::rank(xs[i])) as i128)
}

/// The places of `xs` by ascending total order.
pub fn rising_order(xs: &Vec<Double>) -> (p: Vec<usize>)
    ensures
        is_stable_order(rank_keys(xs@), p@),
        p@ == order(rank_keys(xs@)),
{
    let mut keys: Vec<i128> = Vec::new();
    let mut i: usize = 0;
    while i < xs.len()
        invariant
            i <= xs@.len(),
            keys@ == rank_keys(xs@.take(i as int)),
        decreases xs@.len() - i,
    {
        keys.push(rank_key(xs[i]));
        i = i + 1;
        assert(keys@ =~= rank_keys(xs@.take(i as int)));
    }
    assert(xs@.take(i as int) =~= xs@);
    stable_order(&keys)
}

/// The places of `xs` by descending total order.
pub fn falling_order(xs: &Vec<Double>) -> (p: Vec<usize>)
    ensures
        is_stable_order(falling_keys(xs@), p@),
        p@ == order(falling_keys(xs@)),
{
    let mut keys: Vec<i128> = Vec::new();
    let mut i: usize = 0;
    while i < xs.len()
        invariant
            i <= xs@.len(),
            keys@ == falling_keys(xs@.take(i as int)),
        decreases xs@.len() - i,
    {
        keys.push(-rank_key(xs[i]));
        i = i + 1;
        assert(keys@ =~= falling_keys(xs@.take(i as int)));
    }
    assert(xs@.take(i as int) =~= xs@);
    stable_order(&keys)
}

/// A list of texts, each once, in their order.
pub open spec fn ascending(list: Seq<Seq<char>>) -> bool {
    forall|i: int, j: int|
        0 <= i < j < list.len() ==> text::precedes(#[trigger] list[i], #[trigger] list[j])
}

/// The list names every text of a set once, in their order.
pub open spec fn is_listing(set: Set<Seq<char>>, list: Seq<Seq<char>>) -> bool {
    &&& ascending(list)
    &&& forall|t: Seq<char>| #[trigger] list.contains(t) <==> set.contains(t)
}

/// The texts of a set in their order.
pub open spec fn listing(set: Set<Seq<char>>) -> Seq<Seq<char>> {
    choose|list: Seq<Seq<char>>| is_listing(set, list)
}

/// There is only one listing of a set.
pub proof fn listing_is_unique(set: Set<Seq<char>>, a: Seq<Seq<char>>, b: Seq<Seq<char>>)
    requires
        is_listing(set, a),
        is_listing(set, b),
    ensures
        a == b,
{
    lemma_same_beginning(set, a, b, a.len() as int);
    lemma_same_beginning(set, b, a, b.len() as int);
    assert(a =~= b);
}

proof fn lemma_same_beginning(set: Set<Seq<char>>, a: Seq<Seq<char>>, b: Seq<Seq<char>>, n: int)
    requires
        is_listing(set, a),
        is_listing(set, b),
        0 <= n <= a.len(),
    ensures
        n <= b.len(),
        forall|i: int| 0 <= i < n ==> a[i] == b[i],
    decreases n,
{
    if n > 0 {
        lemma_same_beginning(set, a, b, n - 1);
        let i = n - 1;
        assert(a.contains(a[i]));
        assert(b.contains(a[i]));
        let k = choose|k: int| 0 <= k < b.len() && b[k] == a[i];
        if k < i {
            assert(a[k] == b[k]);
            text::text_order_is_total(a[k], a[i]);
            assert(text::precedes(a[k], a[i]));
        }
        assert(i < b.len());
        if a[i] != b[i] {
            assert(text::precedes(b[i], b[k]));
            assert(b.contains(b[i]));
            assert(a.contains(b[i]));
            let l = choose|l: int| 0 <= l < a.len() && a[l] == b[i];
            if l < i {
                assert(a[l] == b[l]);
                text::text_order_is_total(b[l], b[i]);
                assert(text::precedes(b[l], b[i]));
            } else {
                assert(text::precedes(a[i], a[l]));
                text::text_order_is_total(a[i], b[i]);
            }
        }
    }
}

/// Texts by their characters.
pub open spec fn texts(items: Seq<String>) -> Seq<Seq<char>> {
    items.map_values(|s: String| s@)
}

proof fn lemma_put(list: Seq<Seq<char>>, x: Seq<char>, at: int)
    requires
        ascending(list),
        0 <= at <= list.len(),
        forall|i: int| 0 <= i < at ==> text::precedes(#[trigger] list[i], x),
        forall|i: int| at <= i < list.len() ==> text::precedes(x, #[trigger] list[i]),
    ensures
        ascending(list.insert(at, x)),
        forall|t: Seq<char>|
            #[trigger] list.insert(at, x).contains(t) <==> list.contains(t) || t == x,
{
    let next = list.insert(at, x);
    assert forall|i: int, j: int| 0 <= i < j < next.len() implies text::precedes(
        #[trigger] next[i],
        #[trigger] next[j],
    ) by {
        let a = if i < at {
            i
        } else {
            i - 1
        };
        let b = if j < at {
            j
        } else {
            j - 1
        };
        if i != at && j != at {
            assert(next[i] == list[a] && next[j] == list[b]);
        } else if i == at {
            assert(next[j] == list[b]);
        } else {
            assert(next[i] == list[a]);
        }
    }
    assert forall|t: Seq<char>|
        #[trigger] next.contains(t) <==> list.contains(t) || t == x by {
        if next.contains(t) {
            let i = choose|i: int| 0 <= i < next.len() && next[i] == t;
            if i < at {
                assert(list[i] == t);
            } else if i > at {
                assert(list[i - 1] == t);
            }
        }
        if list.contains(t) {
            let i = choose|i: int| 0 <= i < list.len() && list[i] == t;
            if i < at {
                assert(next[i] == t);
            } else {
                assert(next[i + 1] == t);
            }
        }
        if t == x {
            assert(next[at] == t);
        }
    }
}

/// Puts a text into an ascending list unless it is there.
pub fn put_text(list: &mut Vec<String>, item: &str)
    requires
        ascending(texts(old(list)@)),
    ensures
        ascending(texts(final(list)@)),
        forall|t: Seq<char>|
            #[trigger] texts(final(list)@).contains(t) <==> texts(old(list)@).contains(t) || t
                == item@,
{
    let ghost all = texts(list@);
    let mut at = list.len();
    while at > 0 && text::text_precedes(item, list[at - 1].as_str())
        invariant
            at <= list@.len(),
            list@ == old(list)@,
            all == texts(list@),
            forall|i: int| at <= i < all.len() ==> text::precedes(item@, #[trigger] all[i]),
        decreases at,
    {
        at = at - 1;
        assert(all[at as int] == list@[at as int]@);
    }
    if at > 0 && text::text_eq(item, list[at - 1].as_str()) {
        assert(all[at - 1] == item@);
        return;
    }
    proof {
        assert forall|i: int| 0 <= i < at implies text::precedes(#[trigger] all[i], item@) by {
            assert(all[at - 1] == list@[at - 1]@);
            text::text_order_is_total(all[at - 1], item@);
            if i < at - 1 {
                assert(text::precedes(all[i], all[at - 1]));
                text::text_order_is_transitive(all[i], all[at - 1], item@);
            }
        }
        lemma_put(all, item@, at as int);
    }
    list.insert(at, item.to_owned());
    assert(texts(list@) =~= all.insert(at as int, item@));
}

/// The keys of a table in their order.
pub fn names_of<V>(items: &Table<V>) -> (r: Vec<String>)
    ensures
        texts(r@) == listing(items@.dom()),
        is_listing(items@.dom(), texts(r@)),
{
    let mut names: Vec<String> = Vec::new();
    let n = items.len();
    let ghost rows = items.rows();
    let mut i: usize = 0;
    assert(texts(names@) =~= Seq::empty());
    while i < n
        invariant
            n == rows.len(),
            rows == items.rows(),
            i <= n,
            ascending(texts(names@)),
            forall|t: Seq<char>|
                #[trigger] texts(names@).contains(t) <==> exists|j: int|
                    0 <= j < i && #[trigger] table::is_entry(rows, t, j),
        decreases n - i,
    {
        let ghost before = texts(names@);
        let name = items.key_at(i);
        put_text(&mut names, name);
        proof {
            let after = texts(names@);
            assert forall|t: Seq<char>|
                #[trigger] after.contains(t) <==> exists|j: int|
                    0 <= j < i + 1 && #[trigger] table::is_entry(rows, t, j) by {
                if after.contains(t) {
                    if before.contains(t) {
                        let j = choose|j: int| 0 <= j < i && table::is_entry(rows, t, j);
                        assert(table::is_entry(rows, t, j));
                    } else {
                        assert(table::is_entry(rows, t, i as int));
                    }
                }
                if exists|j: int| 0 <= j < i + 1 && table::is_entry(rows, t, j) {
                    let j = choose|j: int| 0 <= j < i + 1 && table::is_entry(rows, t, j);
                    if j < i {
                        assert(table::is_entry(rows, t, j));
                        assert(before.contains(t));
                    }
                }
            }
        }
        i = i + 1;
    }
    proof {
        let set = items@.dom();
        assert forall|t: Seq<char>|
            #[trigger] texts(names@).contains(t) <==> set.contains(t) by {
            if set.contains(t) {
                let j = choose|j: int| table::is_entry(rows, t, j);
                assert(0 <= j < i && table::is_entry(rows, t, j));
            }
        }
        assert(is_listing(set, texts(names@)));
        listing_is_unique(set, texts(names@), listing(set));
    }
    names
}

} // verus!
