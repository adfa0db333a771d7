//! What is saved is what the next start reads.
use vstd::prelude::*;
use crate::config;
use crate::config::Settings;
use crate::json::Json;
use crate::saving;
use crate::setting_names;
use crate::text;
use crate::text::Edge;

verus! {

/// A name that a line can set: not empty, without space around it, without an equals sign or
/// a line feed, and no comment.
pub open spec fn proper(name: Seq<char>) -> bool {
    &&& name.len() > 0
    &&& name[0] != '#'
    &&& !Edge::Space.has(name[0])
    &&& !Edge::Space.has(name.last())
    &&& forall|i: int| 0 <= i < name.len() ==> #[trigger] name[i] != '=' && name[i] != '\n'
}

/// A value that a line keeps: without a line feed, and without space or quotes around it.
pub open spec fn plain(value: Seq<char>) -> bool {
    &&& text::stripped(text::stripped(value, Edge::Space), Edge::Quote) == value
    &&& forall|i: int| 0 <= i < value.len() ==> #[trigger] value[i] != '\n'
}

proof fn lemma_start(s: Seq<char>, edge: Edge) -> (a: int)
    ensures
        0 <= a <= s.len(),
        text::without_start(s, edge) == s.skip(a),
        forall|i: int| 0 <= i < a ==> edge.has(#[trigger] s[i]),
        a < s.len() ==> !edge.has(s[a]),
    decreases s.len(),
{
    if s.len() > 0 && edge.has(s[0]) {
        let rest = s.drop_first();
        let b = lemma_start(rest, edge);
        assert(rest.skip(b) =~= s.skip(b + 1));
        assert forall|i: int| 0 <= i < b + 1 implies edge.has(#[trigger] s[i]) by {
            if i > 0 {
                assert(rest[i - 1] == s[i]);
            }
        }
        b + 1
    } else {
        assert(s.skip(0) =~= s);
        0
    }
}

proof fn lemma_end(s: Seq<char>, edge: Edge) -> (b: int)
    ensures
        0 <= b <= s.len(),
        text::without_end(s, edge) == s.take(b),
        forall|i: int| b <= i < s.len() ==> edge.has(#[trigger] s[i]),
        b > 0 ==> !edge.has(s[b - 1]),
    decreases s.len(),
{
    if s.len() > 0 && edge.has(s.last()) {
        let rest = s.drop_last();
        let b = lemma_end(rest, edge);
        assert(rest.take(b) =~= s.take(b));
        assert forall|i: int| b <= i < s.len() implies edge.has(#[trigger] s[i]) by {
            if i < rest.len() {
                assert(rest[i] == s[i]);
            }
        }
        b
    } else {
        assert(s.take(s.len() as int) =~= s);
        s.len() as int
    }
}

/// What is left of a text when its edges are stripped is a part of it between edges.
proof fn lemma_stripped(s: Seq<char>, edge: Edge) -> (r: (int, int))
    ensures
        0 <= r.0 <= r.1 <= s.len(),
        text::stripped(s, edge) == s.subrange(r.0, r.1),
        forall|i: int| 0 <= i < r.0 ==> edge.has(#[trigger] s[i]),
        forall|i: int| r.1 <= i < s.len() ==> edge.has(#[trigger] s[i]),
        r.0 < r.1 ==> !edge.has(s[r.0]) && !edge.has(s[r.1 - 1]),
{
    let a = lemma_start(s, edge);
    let rest = s.skip(a);
    let b = lemma_end(rest, edge);
    assert(rest.take(b) =~= s.subrange(a, a + b));
    assert forall|i: int| a + b <= i < s.len() implies edge.has(#[trigger] s[i]) by {
        assert(rest[i - a] == s[i]);
    }
    if b > 0 {
        assert(rest[b - 1] == s[a + b - 1]);
    }
    (a, a + b)
}

/// The part of a text between its edges is unique.
proof fn lemma_stripped_is(s: Seq<char>, edge: Edge, a: int, b: int)
    requires
        0 <= a < b <= s.len(),
        forall|i: int| 0 <= i < a ==> edge.has(#[trigger] s[i]),
        forall|i: int| b <= i < s.len() ==> edge.has(#[trigger] s[i]),
        !edge.has(s[a]),
        !edge.has(s[b - 1]),
    ensures
        text::stripped(s, edge) == s.subrange(a, b),
{
    let (x, y) = lemma_stripped(s, edge);
    if x < a {
        assert(edge.has(s[x]));
        if x == y {
            assert(edge.has(s[a]));
        }
    } else if x > a {
        assert(edge.has(s[a]));
    }
    if y < b {
        assert(edge.has(s[b - 1]));
    } else if y > b {
        assert(edge.has(s[y - 1]));
    }
}

/// A text of edges alone is stripped of everything.
proof fn lemma_stripped_empty(s: Seq<char>, edge: Edge)
    requires
        forall|i: int| 0 <= i < s.len() ==> edge.has(#[trigger] s[i]),
    ensures
        text::stripped(s, edge).len() == 0,
{
    let (x, y) = lemma_stripped(s, edge);
    if x < y {
        assert(edge.has(s[x]));
    }
}

proof fn lemma_unstripped(s: Seq<char>, edge: Edge)
    requires
        text::stripped(s, edge).len() >= s.len(),
    ensures
        text::stripped(s, edge) == s,
        s.len() > 0 ==> !edge.has(s[0]) && !edge.has(s.last()),
{
    let (x, y) = lemma_stripped(s, edge);
    assert(s.subrange(0, s.len() as int) =~= s);
}

proof fn lemma_plain(value: Seq<char>)
    requires
        plain(value),
    ensures
        text::stripped(value, Edge::Space) == value,
        text::stripped(value, Edge::Quote) == value,
        value.len() > 0 ==> !Edge::Space.has(value[0]) && !Edge::Space.has(value.last()),
{
    let inner = text::stripped(value, Edge::Space);
    let (x, y) = lemma_stripped(value, Edge::Space);
    let (a, b) = lemma_stripped(inner, Edge::Quote);
    lemma_unstripped(value, Edge::Space);
}

proof fn lemma_first_at(s: Seq<char>, separator: char, n: int)
    requires
        0 <= n <= s.len(),
        forall|i: int| 0 <= i < n ==> #[trigger] s[i] != separator,
        n == s.len() || s[n] == separator,
    ensures
        text::first_at(s, separator) == n,
    decreases s.len(),
{
    if n > 0 {
        let rest = s.drop_first();
        assert(s[0] != separator);
        assert forall|i: int| 0 <= i < n - 1 implies #[trigger] rest[i] != separator by {
            assert(s[i + 1] != separator);
        }
        lemma_first_at(rest, separator, n - 1);
    }
}

proof fn lemma_found(s: Seq<char>, separator: char)
    ensures
        text::first_at(s, separator) <= s.len(),
        forall|i: int| 0 <= i < text::first_at(s, separator) ==> #[trigger] s[i] != separator,
        text::first_at(s, separator) < s.len() ==> s[text::first_at(s, separator) as int]
            == separator,
    decreases s.len(),
{
    if s.len() > 0 && s[0] != separator {
        let rest = s.drop_first();
        lemma_found(rest, separator);
        assert forall|i: int| 0 <= i < text::first_at(s, separator) implies #[trigger] s[i]
            != separator by {
            if i > 0 {
                assert(rest[i - 1] == s[i]);
            }
        }
    }
}

/// A line that was written for a variable sets it to its value.
proof fn lemma_written_line(name: Seq<char>, value: Seq<char>)
    requires
        proper(name),
        plain(value),
    ensures
        config::assignment(name + "="@ + value) == Some((name, value)),
        forall|i: int|
            0 <= i < (name + "="@ + value).len() ==> #[trigger] (name + "="@ + value)[i] != '\n',
{
    reveal_strlit("=");
    let line = name + "="@ + value;
    let n = name.len() as int;
    assert(line[n] == '=');
    assert forall|i: int| 0 <= i < line.len() implies #[trigger] line[i] != '\n' by {
        if i < n {
            assert(line[i] == name[i]);
        } else if i > n {
            assert(line[i] == value[i - n - 1]);
        }
    }
    lemma_plain(value);
    assert(line[0] == name[0]);
    assert(line.last() == if value.len() > 0 {
        value.last()
    } else {
        '='
    });
    lemma_stripped_is(line, Edge::Space, 0, line.len() as int);
    assert(line.subrange(0, line.len() as int) =~= line);
    assert forall|i: int| 0 <= i < n implies #[trigger] line[i] != '=' by {
        assert(line[i] == name[i]);
    }
    lemma_first_at(line, '=', n);
    assert(line.take(n) =~= name);
    assert(line.skip(n + 1) =~= value);
    lemma_stripped_is(name, Edge::Space, 0, n);
    assert(name.subrange(0, n) =~= name);
}

/// A line of the environment file sets a proper name exactly if reading the line assigns to
/// it.
proof fn lemma_sets(line: Seq<char>, name: Seq<char>)
    requires
        proper(name),
    ensures
        saving::sets(line, name) <==> (config::assignment(line) is Some && (config::assignment(
            line,
        )->0).0 == name),
{
    let (a, b) = lemma_stripped(line, Edge::Space);
    let t = line.subrange(a, b);
    lemma_found(t, '=');
    let k = text::first_at(t, '=') as int;
    if k < t.len() {
        assert(t[k] == line[a + k]);
        assert forall|i: int| 0 <= i < a + k implies #[trigger] line[i] != '=' by {
            if i < a {
                assert(Edge::Space.has(line[i]));
            } else {
                assert(t[i - a] == line[i]);
            }
        }
        lemma_first_at(line, '=', a + k);
        let left = line.take(a + k);
        let inner = t.take(k);
        assert(inner =~= left.skip(a));
        // Space in front of the left part does not count.
        if k == 0 {
            assert forall|i: int| 0 <= i < left.len() implies Edge::Space.has(#[trigger] left[i]) by {
                assert(left[i] == line[i]);
            }
            lemma_stripped_empty(left, Edge::Space);
            lemma_stripped_empty(inner, Edge::Space);
        } else {
            assert(!Edge::Space.has(t[0])) by {
                assert(t[0] == line[a]);
            }
            let (x, y) = lemma_stripped(inner, Edge::Space);
            assert(inner[0] == t[0]);
            assert(x == 0) by {
                if x > 0 {
                    assert(Edge::Space.has(inner[0]));
                }
            }
            assert(y > 0) by {
                if y == 0 {
                    assert(Edge::Space.has(inner[0]));
                }
            }
            assert forall|i: int| 0 <= i < a implies Edge::Space.has(#[trigger] left[i]) by {
                assert(left[i] == line[i]);
            }
            assert forall|i: int| a + y <= i < left.len() implies Edge::Space.has(
                #[trigger] left[i],
            ) by {
                assert(left[i] == inner[i - a]);
            }
            assert(left[a] == inner[0]);
            assert(left[a + y - 1] == inner[y - 1]);
            lemma_stripped_is(left, Edge::Space, a, a + y);
            assert(left.subrange(a, a + y) =~= inner.subrange(0, y));
            let found = text::stripped(inner, Edge::Space);
            assert(found[0] == t[0]);
        }
    } else {
        assert forall|i: int| 0 <= i < line.len() implies #[trigger] line[i] != '=' by {
            if a <= i < b {
                assert(t[i - a] == line[i]);
            } else {
                assert(Edge::Space.has(line[i]));
            }
        }
        lemma_first_at(line, '=', line.len() as int);
    }
}

/// No variable is set by two lines.
pub open spec fn set_once(lines: Seq<Seq<char>>, name: Seq<char>) -> bool {
    forall|i: int, j: int|
        0 <= i < j < lines.len() ==> !(saving::sets(#[trigger] lines[i], name) && saving::sets(
            #[trigger] lines[j],
            name,
        ))
}

proof fn lemma_setting_line(lines: Seq<Seq<char>>, name: Seq<char>)
    ensures
        saving::setting_line(lines, name) <= lines.len(),
        forall|i: int|
            0 <= i < saving::setting_line(lines, name) ==> !saving::sets(#[trigger] lines[i], name),
        saving::setting_line(lines, name) < lines.len() ==> saving::sets(
            lines[saving::setting_line(lines, name) as int],
            name,
        ),
    decreases lines.len(),
{
    if lines.len() > 0 && !saving::sets(lines[0], name) {
        let rest = lines.drop_first();
        lemma_setting_line(rest, name);
        assert forall|i: int| 0 <= i < saving::setting_line(lines, name) implies !saving::sets(
            #[trigger] lines[i],
            name,
        ) by {
            if i > 0 {
                assert(rest[i - 1] == lines[i]);
            }
        }
    }
}

/// Lines that do not set a variable leave it as it was; others do not matter to it.
proof fn lemma_unset(env: Map<Seq<char>, Seq<char>>, lines: Seq<Seq<char>>, name: Seq<char>)
    requires
        proper(name),
        forall|i: int| 0 <= i < lines.len() ==> !saving::sets(#[trigger] lines[i], name),
    ensures
        config::loaded(env, lines).dom().contains(name) == env.dom().contains(name),
        config::loaded(env, lines)[name] == env[name],
    decreases lines.len(),
{
    if lines.len() > 0 {
        let rest = lines.drop_last();
        assert forall|i: int| 0 <= i < rest.len() implies !saving::sets(
            #[trigger] rest[i],
            name,
        ) by {
            assert(lines[i] == rest[i]);
        }
        lemma_unset(env, rest, name);
        assert(!saving::sets(lines[lines.len() - 1], name));
        lemma_sets(lines.last(), name);
    }
}

/// A variable that one line sets has that line's value.
proof fn lemma_set(
    env: Map<Seq<char>, Seq<char>>,
    lines: Seq<Seq<char>>,
    name: Seq<char>,
    value: Seq<char>,
    at: int,
)
    requires
        proper(name),
        0 <= at < lines.len(),
        config::assignment(lines[at]) == Some((name, value)),
        forall|i: int| at < i < lines.len() ==> !saving::sets(#[trigger] lines[i], name),
    ensures
        config::loaded(env, lines).dom().contains(name),
        config::loaded(env, lines)[name] == value,
    decreases lines.len(),
{
    let rest = lines.drop_last();
    if at < lines.len() - 1 {
        assert(rest[at] == lines[at]);
        assert forall|i: int| at < i < rest.len() implies !saving::sets(
            #[trigger] rest[i],
            name,
        ) by {
            assert(lines[i] == rest[i]);
        }
        lemma_set(env, rest, name, value, at);
        assert(!saving::sets(lines[lines.len() - 1], name));
        lemma_sets(lines.last(), name);
    }
}

/// Where the line that sets a variable stands.
pub open spec fn holds(lines: Seq<Seq<char>>, name: Seq<char>, value: Seq<char>, at: int) -> bool {
    &&& 0 <= at < lines.len()
    &&& config::assignment(lines[at]) == Some((name, value))
    &&& forall|i: int| 0 <= i < lines.len() && i != at ==> !saving::sets(#[trigger] lines[i], name)
}

/// Every line stands on its own.
pub open spec fn unbroken(lines: Seq<Seq<char>>) -> bool {
    forall|i: int, j: int|
        0 <= i < lines.len() && 0 <= j < lines[i].len() ==> #[trigger] lines[i][j] != '\n'
}

/// Setting one variable: it has its value then, other variables keep theirs, and still no
/// variable is set twice.
proof fn lemma_with_setting(lines: Seq<Seq<char>>, name: Seq<char>, value: Seq<char>) -> (at: int)
    requires
        proper(name),
        plain(value),
        set_once(lines, name),
        unbroken(lines),
    ensures
        holds(saving::with_setting(lines, name, value), name, value, at),
        unbroken(saving::with_setting(lines, name, value)),
        forall|other: Seq<char>|
            #![trigger set_once(saving::with_setting(lines, name, value), other)]
            proper(other) && set_once(lines, other) ==> set_once(
                saving::with_setting(lines, name, value),
                other,
            ),
        forall|other: Seq<char>, v: Seq<char>, i: int|
            #![trigger holds(lines, other, v, i)]
            proper(other) && other != name && holds(lines, other, v, i) ==> holds(
                saving::with_setting(lines, name, value),
                other,
                v,
                i,
            ),
{
    let i = saving::setting_line(lines, name) as int;
    let line = name + "="@ + value;
    let next = saving::with_setting(lines, name, value);
    lemma_setting_line(lines, name);
    lemma_written_line(name, value);
    lemma_sets(line, name);
    assert(next[i] == line);
    assert forall|k: int| 0 <= k < next.len() && k != i implies !saving::sets(
        #[trigger] next[k],
        name,
    ) by {
        assert(next[k] == lines[k]);
        if k > i {
            assert(saving::sets(lines[i], name));
        }
    }
    assert forall|k: int, j: int| 0 <= k < next.len() && 0 <= j < next[k].len() implies #[trigger] next[k][j]
        != '\n' by {
        if k != i {
            assert(next[k] == lines[k]);
            assert(lines[k][j] != '\n');
        }
    }
    assert forall|other: Seq<char>|
        #![trigger set_once(next, other)]
        proper(other) && set_once(lines, other) implies set_once(next, other) by {
        lemma_sets(line, other);
        if i < lines.len() {
            lemma_sets(lines[i], other);
            lemma_sets(lines[i], name);
        }
        assert forall|x: int, y: int| 0 <= x < y < next.len() implies !(saving::sets(
            #[trigger] next[x],
            other,
        ) && saving::sets(#[trigger] next[y], other)) by {
            if other == name {
                if x == i {
                    assert(!saving::sets(next[y], name));
                } else {
                    assert(!saving::sets(next[x], name));
                }
            } else if x != i && y != i {
                assert(next[x] == lines[x]);
                assert(next[y] == lines[y]);
            }
        }
    }
    assert forall|other: Seq<char>, v: Seq<char>, k: int|
        #![trigger holds(lines, other, v, k)]
        proper(other) && other != name && holds(lines, other, v, k) implies holds(
        next,
        other,
        v,
        k,
    ) by {
        lemma_sets(line, other);
        if i < lines.len() {
            lemma_sets(lines[i], name);
            assert(k != i);
        }
        assert(next[k] == lines[k]);
        assert forall|x: int| 0 <= x < next.len() && x != k implies !saving::sets(
            #[trigger] next[x],
            other,
        ) by {
            if x != i {
                assert(next[x] == lines[x]);
            }
        }
    }
    i
}

/// Every given setting of a list is written as a plain value.
pub open spec fn all_plain(keys: Seq<Seq<char>>, values: Map<Seq<char>, Json>) -> bool {
    forall|i: int|
        0 <= i < keys.len() && values.dom().contains(#[trigger] keys[i]) ==> (
        saving::written_value(values[keys[i]]) matches Ok(value) ==> plain(value))
}

/// The variables of a list of settings can be set, each by a name of its own.
pub open spec fn all_proper(keys: Seq<Seq<char>>) -> bool {
    &&& forall|i: int| 0 <= i < keys.len() ==> proper(text::capitals(#[trigger] keys[i]))
    &&& forall|i: int, j: int|
        0 <= i < keys.len() && 0 <= j < keys.len() && text::capitals(#[trigger] keys[i])
            == text::capitals(#[trigger] keys[j]) ==> keys[i] == keys[j]
}

/// No variable of a list of settings is set by two lines.
pub open spec fn all_set_once(keys: Seq<Seq<char>>, lines: Seq<Seq<char>>) -> bool {
    forall|i: int| 0 <= i < keys.len() ==> set_once(lines, text::capitals(#[trigger] keys[i]))
}

proof fn lemma_settings_once(
    all: Seq<Seq<char>>,
    keys: Seq<Seq<char>>,
    values: Map<Seq<char>, Json>,
    lines: Seq<Seq<char>>,
)
    requires
        all_proper(all),
        forall|i: int| 0 <= i < keys.len() ==> all.contains(#[trigger] keys[i]),
        all_plain(all, values),
        all_set_once(all, lines),
        unbroken(lines),
        saving::with_settings(keys, values, lines) is Ok,
    ensures
        unbroken(saving::with_settings(keys, values, lines)->Ok_0),
        all_set_once(all, saving::with_settings(keys, values, lines)->Ok_0),
    decreases keys.len(),
{
    if keys.len() > 0 {
        let rest = keys.drop_last();
        assert forall|i: int| 0 <= i < rest.len() implies all.contains(#[trigger] rest[i]) by {
            assert(keys[i] == rest[i]);
        }
        lemma_settings_once(all, rest, values, lines);
        let done = saving::with_settings(rest, values, lines)->Ok_0;
        let key = keys.last();
        if values.dom().contains(key) {
            assert(all.contains(keys[keys.len() - 1]));
            let k = choose|k: int| 0 <= k < all.len() && all[k] == key;
            assert(all[k] == key);
            let name = text::capitals(key);
            let value = saving::written_value(values[key])->Ok_0;
            let _ = lemma_with_setting(done, name, value);
            let next = saving::with_setting(done, name, value);
            assert forall|i: int| 0 <= i < all.len() implies set_once(
                next,
                text::capitals(#[trigger] all[i]),
            ) by {
                assert(proper(text::capitals(all[i])));
                assert(set_once(done, text::capitals(all[i])));
                assert(set_once(saving::with_setting(done, name, value), text::capitals(all[i])));
            }
        }
    }
}

/// Every given setting has a line of its own once all are set.
proof fn lemma_settings_hold(
    all: Seq<Seq<char>>,
    keys: Seq<Seq<char>>,
    values: Map<Seq<char>, Json>,
    lines: Seq<Seq<char>>,
    n: int,
) -> (at: int)
    requires
        all_proper(all),
        forall|i: int| 0 <= i < keys.len() ==> all.contains(#[trigger] keys[i]),
        all_plain(all, values),
        all_set_once(all, lines),
        unbroken(lines),
        saving::with_settings(keys, values, lines) is Ok,
        0 <= n < keys.len(),
        values.dom().contains(keys[n]),
    ensures
        saving::written_value(values[keys[n]]) is Ok,
        holds(
            saving::with_settings(keys, values, lines)->Ok_0,
            text::capitals(keys[n]),
            saving::written_value(values[keys[n]])->Ok_0,
            at,
        ),
    decreases keys.len(),
{
    let rest = keys.drop_last();
    assert forall|i: int| 0 <= i < rest.len() implies all.contains(#[trigger] rest[i]) by {
        assert(keys[i] == rest[i]);
    }
    lemma_settings_once(all, rest, values, lines);
    let done = saving::with_settings(rest, values, lines)->Ok_0;
    let key = keys.last();
    assert(all.contains(keys[keys.len() - 1]));
    let k = choose|k: int| 0 <= k < all.len() && all[k] == key;
    assert(all[k] == key);
    assert(all.contains(keys[n]));
    let m = choose|m: int| 0 <= m < all.len() && all[m] == keys[n];
    assert(all[m] == keys[n]);
    let name = text::capitals(key);
    if keys[n] == key {
        let value = saving::written_value(values[key])->Ok_0;
        lemma_with_setting(done, name, value)
    } else {
        assert(rest[n] == keys[n]);
        let at = lemma_settings_hold(all, rest, values, lines, n);
        if values.dom().contains(key) {
            let value = saving::written_value(values[key])->Ok_0;
            let _ = lemma_with_setting(done, name, value);
            assert(text::capitals(all[k]) != text::capitals(all[m]));
            assert(holds(
                done,
                text::capitals(keys[n]),
                saving::written_value(values[keys[n]])->Ok_0,
                at,
            ));
        }
        at
    }
}

/// A character of a setting's name.
pub open spec fn name_char(c: char) -> bool {
    ('a' as int <= c as int <= 'z' as int) || ('0' as int <= c as int <= '9' as int) || c == '_'
}

/// A setting's name: small letters, digits and underscores.
pub open spec fn plain_name(s: Seq<char>) -> bool {
    s.len() > 0 && forall|i: int| 0 <= i < s.len() ==> name_char(#[trigger] s[i])
}

proof fn lemma_names_1()
    ensures
        forall|i: int|
            0 <= i < 9 ==> plain_name(#[trigger] setting_names::admin_keys()[i]),
{
    let keys = setting_names::admin_keys();
    reveal_strlit("force_demo");
    assert(plain_name(keys[0]));
    reveal_strlit("invert_sides");
    assert(plain_name(keys[1]));
    reveal_strlit("demo_fallback");
    assert(plain_name(keys[2]));
    reveal_strlit("scan_interval");
    assert(plain_name(keys[3]));
    reveal_strlit("max_symbols");
    assert(plain_name(keys[4]));
    reveal_strlit("min_turnover");
    assert(plain_name(keys[5]));
    reveal_strlit("min_price");
    assert(plain_name(keys[6]));
    reveal_strlit("max_spread_pct");
    assert(plain_name(keys[7]));
    reveal_strlit("ws_chunk_size");
    assert(plain_name(keys[8]));
}

proof fn lemma_names_2()
    ensures
        forall|i: int|
            9 <= i < 18 ==> plain_name(#[trigger] setting_names::admin_keys()[i]),
{
    let keys = setting_names::admin_keys();
    reveal_strlit("wall_multiplier");
    assert(plain_name(keys[9]));
    reveal_strlit("demo_symbols");
    assert(plain_name(keys[10]));
    reveal_strlit("trading_mode");
    assert(plain_name(keys[11]));
    reveal_strlit("strategy_mode");
    assert(plain_name(keys[12]));
    reveal_strlit("settings_profile");
    assert(plain_name(keys[13]));
    reveal_strlit("account_equity");
    assert(plain_name(keys[14]));
    reveal_strlit("risk_per_trade_pct");
    assert(plain_name(keys[15]));
    reveal_strlit("max_position_notional");
    assert(plain_name(keys[16]));
    reveal_strlit("max_open_positions");
    assert(plain_name(keys[17]));
}

proof fn lemma_names_3()
    ensures
        forall|i: int|
            18 <= i < 27 ==> plain_name(#[trigger] setting_names::admin_keys()[i]),
{
    let keys = setting_names::admin_keys();
    reveal_strlit("max_daily_loss_pct");
    assert(plain_name(keys[18]));
    reveal_strlit("max_consecutive_losses");
    assert(plain_name(keys[19]));
    reveal_strlit("cooldown_seconds");
    assert(plain_name(keys[20]));
    reveal_strlit("loss_cooldown_seconds");
    assert(plain_name(keys[21]));
    reveal_strlit("taker_fee_pct");
    assert(plain_name(keys[22]));
    reveal_strlit("slippage_pct");
    assert(plain_name(keys[23]));
    reveal_strlit("cost_safety_multiplier");
    assert(plain_name(keys[24]));
    reveal_strlit("max_holding_seconds");
    assert(plain_name(keys[25]));
    reveal_strlit("trail_arm_r");
    assert(plain_name(keys[26]));
}

proof fn lemma_names_4()
    ensures
        forall|i: int|
            27 <= i < 36 ==> plain_name(#[trigger] setting_names::admin_keys()[i]),
{
    let keys = setting_names::admin_keys();
    reveal_strlit("trail_giveback_r");
    assert(plain_name(keys[27]));
    reveal_strlit("breakeven_arm_r");
    assert(plain_name(keys[28]));
    reveal_strlit("reversal_confirm_ticks");
    assert(plain_name(keys[29]));
    reveal_strlit("reversal_confirm_seconds");
    assert(plain_name(keys[30]));
    reveal_strlit("reversal_min_hold_seconds");
    assert(plain_name(keys[31]));
    reveal_strlit("alternative_wall_multiplier");
    assert(plain_name(keys[32]));
    reveal_strlit("alternative_signal_expiry_seconds");
    assert(plain_name(keys[33]));
    reveal_strlit("alternative_retest_tolerance_pct");
    assert(plain_name(keys[34]));
    reveal_strlit("alternative_retest_hold_ticks");
    assert(plain_name(keys[35]));
}

proof fn lemma_names_5()
    ensures
        forall|i: int|
            36 <= i < 45 ==> plain_name(#[trigger] setting_names::admin_keys()[i]),
{
    let keys = setting_names::admin_keys();
    reveal_strlit("alternative_min_confluence_score");
    assert(plain_name(keys[36]));
    reveal_strlit("alternative_min_net_reward_risk");
    assert(plain_name(keys[37]));
    reveal_strlit("alternative_target_r_multiple");
    assert(plain_name(keys[38]));
    reveal_strlit("alternative_max_target_pct");
    assert(plain_name(keys[39]));
    reveal_strlit("alternative_min_stop_pct");
    assert(plain_name(keys[40]));
    reveal_strlit("alternative_max_stop_pct");
    assert(plain_name(keys[41]));
    reveal_strlit("alternative_structure_buffer_pct");
    assert(plain_name(keys[42]));
    reveal_strlit("fvg_candle_seconds");
    assert(plain_name(keys[43]));
    reveal_strlit("fvg_min_gap_pct");
    assert(plain_name(keys[44]));
}

proof fn lemma_names_6()
    ensures
        forall|i: int|
            45 <= i < 54 ==> plain_name(#[trigger] setting_names::admin_keys()[i]),
{
    let keys = setting_names::admin_keys();
    reveal_strlit("fvg_signal_expiry_seconds");
    assert(plain_name(keys[45]));
    reveal_strlit("fvg_entry_depth");
    assert(plain_name(keys[46]));
    reveal_strlit("fvg_min_confluence_score");
    assert(plain_name(keys[47]));
    reveal_strlit("fvg_min_net_reward_risk");
    assert(plain_name(keys[48]));
    reveal_strlit("fvg_target_r_multiple");
    assert(plain_name(keys[49]));
    reveal_strlit("fvg_max_target_pct");
    assert(plain_name(keys[50]));
    reveal_strlit("fvg_min_stop_pct");
    assert(plain_name(keys[51]));
    reveal_strlit("fvg_max_stop_pct");
    assert(plain_name(keys[52]));
    reveal_strlit("fvg_stop_buffer_pct");
    assert(plain_name(keys[53]));
}

proof fn lemma_names_7()
    ensures
        forall|i: int|
            54 <= i < 63 ==> plain_name(#[trigger] setting_names::admin_keys()[i]),
{
    let keys = setting_names::admin_keys();
    reveal_strlit("fvg_m15_min_gap_atr");
    assert(plain_name(keys[54]));
    reveal_strlit("fvg_m15_min_displacement_atr");
    assert(plain_name(keys[55]));
    reveal_strlit("fvg_m15_min_body_ratio");
    assert(plain_name(keys[56]));
    reveal_strlit("fvg_m15_max_age_bars");
    assert(plain_name(keys[57]));
    reveal_strlit("fvg_m1_min_gap_atr");
    assert(plain_name(keys[58]));
    reveal_strlit("fvg_m1_min_displacement_atr");
    assert(plain_name(keys[59]));
    reveal_strlit("fvg_m1_min_body_ratio");
    assert(plain_name(keys[60]));
    reveal_strlit("fvg_m1_confirmation_bars");
    assert(plain_name(keys[61]));
    reveal_strlit("fvg_s5_min_gap_pct");
    assert(plain_name(keys[62]));
}

proof fn lemma_names_8()
    ensures
        forall|i: int|
            63 <= i < 71 ==> plain_name(#[trigger] setting_names::admin_keys()[i]),
{
    let keys = setting_names::admin_keys();
    reveal_strlit("fvg_s5_min_body_ratio");
    assert(plain_name(keys[63]));
    reveal_strlit("fvg_s5_inversion_bars");
    assert(plain_name(keys[64]));
    reveal_strlit("fvg_s5_retest_bars");
    assert(plain_name(keys[65]));
    reveal_strlit("fvg_s5_entry_depth");
    assert(plain_name(keys[66]));
    reveal_strlit("min_live_trades");
    assert(plain_name(keys[67]));
    reveal_strlit("min_live_profit_factor");
    assert(plain_name(keys[68]));
    reveal_strlit("min_live_expectancy");
    assert(plain_name(keys[69]));
    reveal_strlit("max_live_drawdown_pct");
    assert(plain_name(keys[70]));
}

/// The names of all settings are small letters, digits and underscores.
pub proof fn setting_names_are_plain(i: int)
    requires
        0 <= i < setting_names::admin_keys().len(),
    ensures
        plain_name(setting_names::admin_keys()[i]),
{
    lemma_names_1();
    lemma_names_2();
    lemma_names_3();
    lemma_names_4();
    lemma_names_5();
    lemma_names_6();
    lemma_names_7();
    lemma_names_8();
}

proof fn lemma_capitals(a: Seq<char>)
    requires
        plain_name(a),
    ensures
        proper(text::capitals(a)),
{
    let name = text::capitals(a);
    assert forall|i: int| 0 <= i < name.len() implies #[trigger] name[i] != '=' && name[i] != '\n'
        && name[i] != '#' && !Edge::Space.has(name[i]) by {
        assert(name_char(a[i]));
    }
}

proof fn lemma_distinct_capitals(a: Seq<char>, b: Seq<char>)
    requires
        plain_name(a),
        plain_name(b),
        text::capitals(a) == text::capitals(b),
    ensures
        a == b,
{
    let x = text::capitals(a);
    let y = text::capitals(b);
    assert(a.len() == x.len() && b.len() == y.len());
    assert forall|i: int| 0 <= i < a.len() implies a[i] == b[i] by {
        assert(name_char(a[i]));
        assert(name_char(b[i]));
        assert(x[i] == text::capital(a[i]) && y[i] == text::capital(b[i]));
        assert(a[i] as int - text::capital(a[i]) as int == if 'a' as int <= a[i] as int {
            32int
        } else {
            0int
        });
        assert(b[i] as int - text::capital(b[i]) as int == if 'a' as int <= b[i] as int {
            32int
        } else {
            0int
        });
        assert(x[i] == y[i]);
        assert(a[i] as int == b[i] as int);
    }
    assert(a =~= b);
}

proof fn lemma_admin_keys_proper()
    ensures
        all_proper(setting_names::admin_keys()),
{
    let keys = setting_names::admin_keys();
    assert forall|i: int| 0 <= i < keys.len() implies proper(
        text::capitals(#[trigger] keys[i]),
    ) by {
        setting_names_are_plain(i);
        lemma_capitals(keys[i]);
    }
    assert forall|i: int, j: int|
        0 <= i < keys.len() && 0 <= j < keys.len() && text::capitals(#[trigger] keys[i])
            == text::capitals(#[trigger] keys[j]) implies keys[i] == keys[j] by {
        setting_names_are_plain(i);
        setting_names_are_plain(j);
        lemma_distinct_capitals(keys[i], keys[j]);
    }
}

proof fn lemma_joined_from_front(items: Seq<Seq<char>>, separator: Seq<char>)
    requires
        items.len() >= 2,
    ensures
        text::joined(items, separator) == items[0] + separator + text::joined(
            items.drop_first(),
            separator,
        ),
    decreases items.len(),
{
    let rest = items.drop_first();
    if items.len() == 2 {
        assert(items.drop_last().len() == 1);
        assert(items.drop_last()[0] == items[0]);
        assert(rest[0] == items.last());
        assert(text::joined(items.drop_last(), separator) == items[0]);
        assert(text::joined(rest, separator) == items.last());
    } else {
        let front = items.drop_last();
        lemma_joined_from_front(front, separator);
        assert(front.drop_first() =~= rest.drop_last());
        assert(front[0] == items[0]);
        assert(rest.last() == items.last());
        assert(items[0] + separator + text::joined(rest.drop_last(), separator) + separator
            + items.last() =~= items[0] + separator + (text::joined(rest.drop_last(), separator)
            + separator + items.last()));
        assert(text::joined(rest, separator) == text::joined(rest.drop_last(), separator)
            + separator + items.last());
        assert(text::joined(items, separator) == text::joined(front, separator) + separator
            + items.last());
    }
}

/// The text of a file of lines.
pub open spec fn file_of(lines: Seq<Seq<char>>) -> Seq<char> {
    text::joined(lines, "\n"@) + "\n"@
}

proof fn lemma_pieces(lines: Seq<Seq<char>>)
    requires
        lines.len() > 0,
        unbroken(lines),
    ensures
        text::pieces(file_of(lines), '\n') == lines.push(Seq::empty()),
    decreases lines.len(),
{
    reveal_strlit("\n");
    let first = lines[0];
    let rest = lines.drop_first();
    let all = file_of(lines);
    let n = first.len() as int;
    let tail = if lines.len() == 1 {
        Seq::<char>::empty()
    } else {
        file_of(rest)
    };
    if lines.len() > 1 {
        lemma_joined_from_front(lines, "\n"@);
        assert(all =~= first + "\n"@ + tail);
    } else {
        assert(all =~= first + "\n"@ + tail);
    }
    assert(all[n] == '\n');
    assert forall|i: int| 0 <= i < n implies #[trigger] all[i] != '\n' by {
        assert(all[i] == lines[0][i]);
    }
    lemma_first_at(all, '\n', n);
    assert(all.take(n) =~= first);
    assert(all.skip(n + 1) =~= tail);
    if lines.len() > 1 {
        assert forall|i: int, j: int|
            0 <= i < rest.len() && 0 <= j < rest[i].len() implies #[trigger] rest[i][j] != '\n' by {
            assert(rest[i] == lines[i + 1]);
            assert(lines[i + 1][j] != '\n');
        }
        lemma_pieces(rest);
        assert(seq![first] + rest.push(Seq::empty()) =~= lines.push(Seq::empty()));
    } else {
        lemma_first_at(tail, '\n', 0);
        assert(text::pieces(tail, '\n') =~= seq![Seq::<char>::empty()]);
        assert(seq![first] + seq![Seq::<char>::empty()] =~= lines.push(Seq::empty()));
    }
}

proof fn lemma_pieces_unbroken(s: Seq<char>)
    ensures
        unbroken(text::pieces(s, '\n')),
        text::pieces(s, '\n').len() > 0,
    decreases s.len(),
{
    lemma_found(s, '\n');
    let n = text::first_at(s, '\n') as int;
    let all = text::pieces(s, '\n');
    if n < s.len() {
        let rest = text::pieces(s.skip(n + 1), '\n');
        lemma_pieces_unbroken(s.skip(n + 1));
        assert forall|i: int, j: int| 0 <= i < all.len() && 0 <= j < all[i].len() implies #[trigger] all[i][j]
            != '\n' by {
            if i == 0 {
                assert(all[0] == s.take(n));
                assert(s[j] != '\n');
            } else {
                assert(all[i] == rest[i - 1]);
                assert(rest[i - 1][j] != '\n');
            }
        }
    } else {
        assert forall|i: int, j: int| 0 <= i < all.len() && 0 <= j < all[i].len() implies #[trigger] all[i][j]
            != '\n' by {
            assert(all[i] == s);
            assert(s[j] != '\n');
        }
    }
}

proof fn lemma_lines_unbroken(s: Seq<char>)
    ensures
        unbroken(text::lines_of(s)),
{
    lemma_pieces_unbroken(s);
    let all = text::pieces(s, '\n');
    let lines = text::lines_of(s);
    assert forall|i: int, j: int| 0 <= i < lines.len() && 0 <= j < lines[i].len() implies #[trigger] lines[i][j]
        != '\n' by {
        if i < all.len() - 1 {
            assert(lines[i] == text::without_return(all[i]));
            assert(lines[i][j] == all[i][j]);
        } else {
            assert(lines[i] == all[i]);
            assert(all[i][j] != '\n');
        }
    }
}

/// A carriage return at the end of a line does not matter.
proof fn lemma_without_return(line: Seq<char>)
    ensures
        config::assignment(text::without_return(line)) == config::assignment(line),
{
    if line.len() > 0 && line.last() == '\r' {
        let short = line.drop_last();
        let (a, b) = lemma_stripped(short, Edge::Space);
        if a < b {
            assert forall|i: int| 0 <= i < a implies Edge::Space.has(#[trigger] line[i]) by {
                assert(line[i] == short[i]);
            }
            assert forall|i: int| b <= i < line.len() implies Edge::Space.has(
                #[trigger] line[i],
            ) by {
                if i < short.len() {
                    assert(line[i] == short[i]);
                }
            }
            assert(line[a] == short[a] && line[b - 1] == short[b - 1]);
            lemma_stripped_is(line, Edge::Space, a, b);
            assert(line.subrange(a, b) =~= short.subrange(a, b));
        } else {
            assert forall|i: int| 0 <= i < line.len() implies Edge::Space.has(
                #[trigger] line[i],
            ) by {
                if i < short.len() {
                    assert(line[i] == short[i]);
                }
            }
            lemma_stripped_empty(line, Edge::Space);
        }
    }
}

proof fn lemma_loaded_without_returns(env: Map<Seq<char>, Seq<char>>, lines: Seq<Seq<char>>)
    ensures
        config::loaded(env, lines.map_values(|l: Seq<char>| text::without_return(l)))
            == config::loaded(env, lines),
    decreases lines.len(),
{
    let bare = lines.map_values(|l: Seq<char>| text::without_return(l));
    if lines.len() > 0 {
        lemma_loaded_without_returns(env, lines.drop_last());
        assert(bare.drop_last() =~= lines.drop_last().map_values(
            |l: Seq<char>| text::without_return(l),
        ));
        assert(bare.last() == text::without_return(lines.last()));
        lemma_without_return(lines.last());
    } else {
        assert(bare =~= lines);
    }
}

/// Reading a file of lines comes to reading the lines.
proof fn lemma_file(env: Map<Seq<char>, Seq<char>>, lines: Seq<Seq<char>>)
    requires
        lines.len() > 0,
        unbroken(lines),
    ensures
        config::loaded(env, text::lines_of(file_of(lines))) == config::loaded(env, lines),
{
    lemma_pieces(lines);
    let all = lines.push(Seq::<char>::empty());
    assert(all.drop_last() =~= lines);
    lemma_loaded_without_returns(env, lines);
}

/// What is saved is what the next start reads: after new settings were saved, every one of
/// them that is given stands in the file, and loading the file sets its variable to the value
/// that was given. The file that was there must not set a variable twice, and the values must
/// be of one line without space or quotes around them.
pub proof fn saved_settings_are_read_back(
    settings: Settings,
    values: Map<Seq<char>, Json>,
    existing: Seq<char>,
    env: Map<Seq<char>, Seq<char>>,
    n: int,
)
    requires
        saving::saved_file(settings, values, existing) is Ok,
        all_set_once(setting_names::admin_keys(), text::lines_of(existing)),
        all_plain(setting_names::admin_keys(), saving::chosen(settings, values)),
        0 <= n < setting_names::admin_keys().len(),
        saving::chosen(settings, values).dom().contains(setting_names::admin_keys()[n]),
    ensures
        ({
            let file = saving::saved_file(settings, values, existing)->Ok_0;
            let key = setting_names::admin_keys()[n];
            let read = config::loaded(env, text::lines_of(file));
            &&& read.dom().contains(text::capitals(key))
            &&& saving::written_value(saving::chosen(settings, values)[key]) == Ok::<
                Seq<char>,
                Seq<char>,
            >(read[text::capitals(key)])
        }),
{
    let keys = setting_names::admin_keys();
    let chosen = saving::chosen(settings, values);
    let before = text::lines_of(existing);
    let lines = saving::with_settings(keys, chosen, before)->Ok_0;
    lemma_admin_keys_proper();
    lemma_lines_unbroken(existing);
    assert forall|i: int| 0 <= i < keys.len() implies keys.contains(#[trigger] keys[i]) by {}
    let at = lemma_settings_hold(keys, keys, chosen, before, n);
    lemma_settings_once(keys, keys, chosen, before);
    let name = text::capitals(keys[n]);
    let value = saving::written_value(chosen[keys[n]])->Ok_0;
    assert(proper(name));
    lemma_set(env, lines, name, value, at);
    lemma_file(env, lines);
}

} // verus!
