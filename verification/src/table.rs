//! A map from texts to values.
use vstd::prelude::*;
use crate::text;

verus! {

/// Entry `i` stands under `key`.
pub open spec fn is_entry<V>(rows: Seq<(String, V)>, key: Seq<char>, i: int) -> bool {
    0 <= i < rows.len() && rows[i].0@ == key
}

/// No key stands twice.
pub open spec fn distinct<V>(rows: Seq<(String, V)>) -> bool {
    forall|i: int, j: int|
        0 <= i < j < rows.len() ==> (#[trigger] rows[i]).0@ != (#[trigger] rows[j]).0@
}

/// The map that some rows make up.
pub open spec fn as_map<V>(rows: Seq<(String, V)>) -> Map<Seq<char>, V> {
    Map::new(
        |key: Seq<char>| exists|i: int| is_entry(rows, key, i),
        |key: Seq<char>| rows[choose|i: int| is_entry(rows, key, i)].1,
    )
}

proof fn lemma_entry<V>(rows: Seq<(String, V)>, key: Seq<char>, i: int)
    requires
        distinct(rows),
        is_entry(rows, key, i),
    ensures
        as_map(rows).dom().contains(key),
        as_map(rows)[key] == rows[i].1,
{
    let j = choose|j: int| is_entry(rows, key, j);
    if j < i {
        assert(rows[j].0@ != rows[i].0@);
    } else if i < j {
        assert(rows[i].0@ != rows[j].0@);
    }
}

proof fn lemma_replaced<V>(rows: Seq<(String, V)>, key: Seq<char>, i: int, row: (String, V))
    requires
        distinct(rows),
        is_entry(rows, key, i),
        row.0@ == key,
    ensures
        distinct(rows.update(i, row)),
        as_map(rows.update(i, row)) =~= as_map(rows).insert(key, row.1),
{
    let next = rows.update(i, row);
    assert forall|a: int, b: int| 0 <= a < b < next.len() implies (#[trigger] next[a]).0@ != (
    #[trigger] next[b]).0@ by {
        assert(rows[a].0@ != rows[b].0@);
    }
    lemma_entry(next, key, i);
    lemma_entry(rows, key, i);
    let a = as_map(next);
    let b = as_map(rows).insert(key, row.1);
    assert forall|k: Seq<char>| #[trigger] a.dom().contains(k) == b.dom().contains(k) && (
    a.dom().contains(k) ==> a[k] == b[k]) by {
        if as_map(rows).dom().contains(k) {
            let j = choose|j: int| is_entry(rows, k, j);
            assert(is_entry(next, k, j));
            lemma_entry(next, k, j);
            lemma_entry(rows, k, j);
        }
        if as_map(next).dom().contains(k) {
            let j = choose|j: int| is_entry(next, k, j);
            assert(is_entry(rows, k, j));
        }
    }
}

proof fn lemma_added<V>(rows: Seq<(String, V)>, row: (String, V))
    requires
        distinct(rows),
        !as_map(rows).dom().contains(row.0@),
    ensures
        distinct(rows.push(row)),
        as_map(rows.push(row)) =~= as_map(rows).insert(row.0@, row.1),
{
    let next = rows.push(row);
    let n = rows.len() as int;
    assert forall|a: int, b: int| 0 <= a < b < next.len() implies (#[trigger] next[a]).0@ != (
    #[trigger] next[b]).0@ by {
        if b == n {
            if next[a].0@ == row.0@ {
                assert(is_entry(rows, row.0@, a));
            }
        } else {
            assert(rows[a].0@ != rows[b].0@);
        }
    }
    assert(is_entry(next, row.0@, n));
    lemma_entry(next, row.0@, n);
    let a = as_map(next);
    let b = as_map(rows).insert(row.0@, row.1);
    assert forall|k: Seq<char>| #[trigger] a.dom().contains(k) == b.dom().contains(k) && (
    a.dom().contains(k) ==> a[k] == b[k]) by {
        if as_map(rows).dom().contains(k) {
            let j = choose|j: int| is_entry(rows, k, j);
            assert(is_entry(next, k, j));
            lemma_entry(next, k, j);
            lemma_entry(rows, k, j);
        }
        if as_map(next).dom().contains(k) {
            let j = choose|j: int| is_entry(next, k, j);
            if j != n {
                assert(is_entry(rows, k, j));
            }
        }
    }
}

proof fn lemma_removed<V>(rows: Seq<(String, V)>, key: Seq<char>, i: int)
    requires
        distinct(rows),
        is_entry(rows, key, i),
    ensures
        distinct(rows.remove(i)),
        as_map(rows.remove(i)) =~= as_map(rows).remove(key),
{
    let next = rows.remove(i);
    assert forall|a: int, b: int| 0 <= a < b < next.len() implies (#[trigger] next[a]).0@ != (
    #[trigger] next[b]).0@ by {
        let x = if a < i {
            a
        } else {
            a + 1
        };
        let y = if b < i {
            b
        } else {
            b + 1
        };
        assert(rows[x].0@ != rows[y].0@);
    }
    if as_map(next).dom().contains(key) {
        let j = choose|j: int| is_entry(next, key, j);
        let x = if j < i {
            j
        } else {
            j + 1
        };
        assert(rows[x].0@ == key);
        if x < i {
            assert(rows[x].0@ != rows[i].0@);
        } else {
            assert(rows[i].0@ != rows[x].0@);
        }
    }
    let a = as_map(next);
    let b = as_map(rows).remove(key);
    assert forall|k: Seq<char>| #[trigger] a.dom().contains(k) == b.dom().contains(k) && (
    a.dom().contains(k) ==> a[k] == b[k]) by {
        if k != key && as_map(rows).dom().contains(k) {
            let j = choose|j: int| is_entry(rows, k, j);
            let x = if j < i {
                j
            } else {
                j - 1
            };
            assert(next[x] == rows[j]);
            assert(is_entry(next, k, x));
            lemma_entry(next, k, x);
            lemma_entry(rows, k, j);
        }
        if as_map(next).dom().contains(k) {
            let j = choose|j: int| is_entry(next, k, j);
            let x = if j < i {
                j
            } else {
                j + 1
            };
            assert(is_entry(rows, k, x));
        }
    }
}

/// What a table holds under a key.
pub open spec fn entry<V>(table: Map<Seq<char>, V>, key: Seq<char>) -> Option<V> {
    if table.dom().contains(key) {
        Some(table[key])
    } else {
        None
    }
}

/// The table with a value put under a key, or with the key taken out.
pub open spec fn with_entry<V>(
    table: Map<Seq<char>, V>,
    key: Seq<char>,
    value: Option<V>,
) -> Map<Seq<char>, V> {
    match value {
        Some(v) => table.insert(key, v),
        None => table.remove(key),
    }
}

/// What a table holds under a key, or a default.
pub open spec fn entry_or<V>(table: Map<Seq<char>, V>, key: Seq<char>, missing: V) -> V {
    if table.dom().contains(key) {
        table[key]
    } else {
        missing
    }
}

proof fn lemma_count<V>(rows: Seq<(String, V)>)
    requires
        distinct(rows),
    ensures
        as_map(rows).dom().finite(),
        as_map(rows).dom().len() == rows.len(),
    decreases rows.len(),
{
    if rows.len() == 0 {
        assert forall|k: Seq<char>| !#[trigger] as_map(rows).dom().contains(k) by {
            if as_map(rows).dom().contains(k) {
                let j = choose|j: int| is_entry(rows, k, j);
            }
        }
        assert(as_map(rows).dom() =~= Set::empty());
    } else {
        let before = rows.drop_last();
        assert(distinct(before)) by {
            assert forall|i: int, j: int| 0 <= i < j < before.len() implies (
            #[trigger] before[i]).0@ != (#[trigger] before[j]).0@ by {
                assert(rows[i].0@ != rows[j].0@);
            }
        }
        lemma_count(before);
        let key = rows.last().0@;
        if as_map(before).dom().contains(key) {
            let j = choose|j: int| is_entry(before, key, j);
            assert(rows[j].0@ != rows[rows.len() - 1].0@);
        }
        lemma_added(before, rows.last());
        assert(before.push(rows.last()) =~= rows);
        assert(as_map(rows).dom() =~= as_map(before).dom().insert(key));
    }
}

/// A map from texts to values, each key once. Rows keep the order in which their keys
/// came.
#[derive(Debug)]
pub struct Table<V> {
    rows: Vec<(String, V)>,
}

impl<V> Table<V> {
    #[verifier::type_invariant]
    spec fn inv(self) -> bool {
        distinct(self.rows@)
    }

    /// The rows in the order in which their keys came.
    pub closed spec fn rows(&self) -> Seq<(String, V)> {
        self.rows@
    }

    pub open spec fn view(&self) -> Map<Seq<char>, V> {
        as_map(self.rows())
    }

    pub fn new() -> (r: Table<V>)
        ensures
            r@ == Map::<Seq<char>, V>::empty(),
            r.rows() == Seq::<(String, V)>::empty(),
    {
        let r = Table { rows: Vec::new() };
        proof {
            assert forall|k: Seq<char>| !as_map(r.rows@).dom().contains(k) by {
                if as_map(r.rows@).dom().contains(k) {
                    let j = choose|j: int| is_entry(r.rows@, k, j);
                }
            }
            assert(r@ =~= Map::<Seq<char>, V>::empty());
        }
        r
    }

    pub fn len(&self) -> (n: usize)
        ensures
            n == self.rows().len(),
            n == self@.dom().len(),
            self@.dom().finite(),
            distinct(self.rows()),
    {
        proof {
            use_type_invariant(self);
            lemma_count(self.rows@);
        }
        self.rows.len()
    }

    fn find(&self, key: &str) -> (r: Option<usize>)
        ensures
            match r {
                Some(i) => is_entry(self.rows(), key@, i as int) && self@.dom().contains(key@)
                    && self@[key@] == self.rows()[i as int].1,
                None => !self@.dom().contains(key@),
            },
    {
        proof {
            use_type_invariant(self);
        }
        let mut i: usize = 0;
        while i < self.rows.len()
            invariant
                distinct(self.rows@),
                i <= self.rows@.len(),
                forall|j: int| 0 <= j < i ==> (#[trigger] self.rows@[j]).0@ != key@,
            decreases self.rows@.len() - i,
        {
            if text::text_eq(self.rows[i].0.as_str(), key) {
                proof {
                    lemma_entry(self.rows@, key@, i as int);
                }
                return Some(i);
            }
            i = i + 1;
        }
        proof {
            if self@.dom().contains(key@) {
                let j = choose|j: int| is_entry(self.rows@, key@, j);
                assert(self.rows@[j].0@ != key@);
            }
        }
        None
    }

    pub fn get(&self, key: &str) -> (r: Option<&V>)
        ensures
            match r {
                Some(v) => self@.dom().contains(key@) && *v == self@[key@],
                None => !self@.dom().contains(key@),
            },
    {
        match self.find(key) {
            Some(i) => Some(&self.rows[i].1),
            None => None,
        }
    }

    pub fn contains(&self, key: &str) -> (r: bool)
        ensures
            r == self@.dom().contains(key@),
    {
        self.find(key).is_some()
    }

    /// Puts a value under a key, in place of what stands there.
    pub fn insert(&mut self, key: &str, value: V)
        ensures
            final(self)@ == old(self)@.insert(key@, value),
    {
        proof {
            use_type_invariant(&*self);
        }
        let found = self.find(key);
        let mut rows: Vec<(String, V)> = Vec::new();
        std::mem::swap(&mut rows, &mut self.rows);
        let name = key.to_owned();
        match found {
            Some(i) => {
                proof {
                    lemma_replaced(rows@, key@, i as int, (name, value));
                }
                rows.set(i, (name, value));
            },
            None => {
                proof {
                    lemma_added(rows@, (name, value));
                }
                rows.push((name, value));
            },
        }
        self.rows = rows;
    }

    /// Takes the value under a key out.
    pub fn remove(&mut self, key: &str) -> (r: Option<V>)
        ensures
            final(self)@ == old(self)@.remove(key@),
            match r {
                Some(v) => old(self)@.dom().contains(key@) && v == old(self)@[key@],
                None => !old(self)@.dom().contains(key@),
            },
    {
        proof {
            use_type_invariant(&*self);
        }
        match self.find(key) {
            Some(i) => {
                let mut rows: Vec<(String, V)> = Vec::new();
                std::mem::swap(&mut rows, &mut self.rows);
                proof {
                    lemma_removed(rows@, key@, i as int);
                }
                let (_, value) = rows.remove(i);
                self.rows = rows;
                Some(value)
            },
            None => {
                assert(self@ =~= self@.remove(key@));
                None
            },
        }
    }

    /// The key of a row.
    pub fn key_at(&self, i: usize) -> (r: &str)
        requires
            i < self.rows().len(),
        ensures
            r@ == self.rows()[i as int].0@,
            self@.dom().contains(r@),
    {
        proof {
            use_type_invariant(self);
            assert(is_entry(self.rows@, self.rows@[i as int].0@, i as int));
        }
        self.rows[i].0.as_str()
    }
}

} // verus!
