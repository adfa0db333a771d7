//! Writing changed settings into the environment file.
use vstd::prelude::*;
use crate::admin;
use crate::config::Settings;
use crate::json;
use crate::json::{Json, JsonNumber};
use crate::setting_names;
use crate::sorting;
use crate::table;
use crate::table::Table;
use crate::text;
use crate::text::Edge;

verus! {

/// The texts of a list of texts.
pub open spec fn texts_in(items: Seq<Json>) -> Seq<Seq<char>> {
    items.map_values(|item: Json| json::text_in(item)->0)
}

/// How the environment file writes a value, or why it cannot.
pub open spec fn written_value(value: Json) -> Result<Seq<char>, Seq<char>> {
    match value {
        Json::Bool(b) => Ok(
            if b {
                "true"@
            } else {
                "false"@
            },
        ),
        Json::Number(JsonNumber::Unsigned(n)) => Ok(text::digits(n as nat)),
        Json::Number(JsonNumber::Negative(n)) => Ok(text::signed_digits(n as int)),
        Json::Number(JsonNumber::Real { text, .. }) => Ok(text@),
        Json::Text(s) => Ok(s@),
        Json::List(items) => if admin::is_text_list(value) {
            Ok(text::joined(texts_in(items@), ","@))
        } else {
            Err("List settings must contain strings"@)
        },
        _ => Err("Settings must contain booleans, numbers, or string lists"@),
    }
}

fn collect_texts(items: &Vec<Json>) -> (r: Option<Vec<String>>)
    ensures
        match r {
            Some(v) => sorting::texts(v@) == texts_in(items@) && forall|i: int|
                0 <= i < items@.len() ==> json::text_in(#[trigger] items@[i]) is Some,
            None => exists|i: int|
                0 <= i < items@.len() && json::text_in(#[trigger] items@[i]) is None,
        },
{
    let ghost all = texts_in(items@);
    let mut r: Vec<String> = Vec::new();
    let mut i: usize = 0;
    assert(sorting::texts(r@) =~= all.take(0));
    while i < items.len()
        invariant
            i <= items@.len(),
            all == texts_in(items@),
            sorting::texts(r@) == all.take(i as int),
            forall|j: int| 0 <= j < i ==> json::text_in(#[trigger] items@[j]) is Some,
        decreases items@.len() - i,
    {
        match items[i].as_text() {
            Some(s) => {
                let ghost before = sorting::texts(r@);
                r.push(s.to_owned());
                assert(sorting::texts(r@) =~= before.push(s@));
                assert(all.take(i + 1) =~= all.take(i as int).push(all[i as int]));
            },
            None => {
                assert(json::text_in(items@[i as int]) is None);
                return None;
            },
        }
        i = i + 1;
    }
    assert(all.take(i as int) =~= all);
    Some(r)
}

/// Writes a value for the environment file.
pub fn env_value(value: &Json) -> (r: Result<String, String>)
    ensures
        match r {
            Ok(s) => written_value(*value) == Ok::<Seq<char>, Seq<char>>(s@),
            Err(why) => written_value(*value) == Err::<Seq<char>, Seq<char>>(why@),
        },
{
    match value {
        Json::Bool(b) => if *b {
            Ok("true".to_owned())
        } else {
            Ok("false".to_owned())
        },
        Json::Number(JsonNumber::Unsigned(n)) => Ok(text::decimal(*n)),
        Json::Number(JsonNumber::Negative(n)) => Ok(text::signed_decimal(*n)),
        Json::Number(JsonNumber::Real { text, .. }) => Ok(text.clone()),
        Json::Text(s) => Ok(s.clone()),
        Json::List(items) => match collect_texts(items) {
            Some(v) => {
                assert(admin::is_text_list(*value));
                Ok(text::join(&v, ","))
            },
            None => Err("List settings must contain strings".to_owned()),
        },
        _ => Err("Settings must contain booleans, numbers, or string lists".to_owned()),
    }
}

/// A line of the environment file that sets a variable.
pub open spec fn sets(line: Seq<char>, name: Seq<char>) -> bool {
    match text::halves(line, '=') {
        Some((left, _)) => text::stripped(left, Edge::Space) == name,
        None => false,
    }
}

fn does_set(line: &str, name: &str) -> (r: bool)
    ensures
        r == sets(line@, name@),
{
    match text::split_once(line, '=') {
        Some((left, _)) => text::text_eq(text::strip(left, Edge::Space), name),
        None => false,
    }
}

/// The place of the first line that sets a variable, or the number of lines.
pub open spec fn setting_line(lines: Seq<Seq<char>>, name: Seq<char>) -> nat
    decreases lines.len(),
{
    if lines.len() == 0 || sets(lines[0], name) {
        0
    } else {
        1 + setting_line(lines.drop_first(), name)
    }
}

/// Lines with a variable set: the first line that sets it is replaced; without one, a line is
/// added at the end.
pub open spec fn with_setting(
    lines: Seq<Seq<char>>,
    name: Seq<char>,
    value: Seq<char>,
) -> Seq<Seq<char>> {
    let i = setting_line(lines, name);
    let line = name + "="@ + value;
    if i < lines.len() {
        lines.update(i as int, line)
    } else {
        lines.push(line)
    }
}

/// Sets a variable in the lines of the environment file.
pub fn put_setting(lines: &mut Vec<String>, name: &str, value: &str)
    ensures
        sorting::texts(final(lines)@) == with_setting(sorting::texts(old(lines)@), name@, value@),
{
    let ghost all = sorting::texts(lines@);
    let mut line = name.to_owned();
    line.append("=");
    line.append(value);
    let mut i: usize = 0;
    assert(all.skip(0) =~= all);
    while i < lines.len() && !does_set(lines[i].as_str(), name)
        invariant
            i <= lines@.len(),
            lines@ == old(lines)@,
            all == sorting::texts(lines@),
            setting_line(all, name@) == i + setting_line(all.skip(i as int), name@),
        decreases lines@.len() - i,
    {
        assert(all.skip(i as int)[0] == lines@[i as int]@);
        assert(all.skip(i as int).drop_first() =~= all.skip(i + 1));
        i = i + 1;
    }
    if i < lines.len() {
        assert(all.skip(i as int)[0] == lines@[i as int]@);
        let ghost added = line@;
        lines.set(i, line);
        assert(sorting::texts(lines@) =~= all.update(i as int, added));
    } else {
        let ghost added = line@;
        lines.push(line);
        assert(sorting::texts(lines@) =~= all.push(added));
    }
}

/// Lines with every given setting of a list set, or why a value cannot be written.
pub open spec fn with_settings(
    keys: Seq<Seq<char>>,
    values: Map<Seq<char>, Json>,
    lines: Seq<Seq<char>>,
) -> Result<Seq<Seq<char>>, Seq<char>>
    decreases keys.len(),
{
    if keys.len() == 0 {
        Ok(lines)
    } else {
        let key = keys.last();
        match with_settings(keys.drop_last(), values, lines) {
            Ok(done) => if values.dom().contains(key) {
                match written_value(values[key]) {
                    Ok(value) => Ok(with_setting(done, text::capitals(key), value)),
                    Err(why) => Err(why),
                }
            } else {
                Ok(done)
            },
            Err(why) => Err(why),
        }
    }
}

proof fn lemma_failure_stays(
    keys: Seq<Seq<char>>,
    values: Map<Seq<char>, Json>,
    lines: Seq<Seq<char>>,
    n: int,
)
    requires
        0 <= n <= keys.len(),
        with_settings(keys.take(n), values, lines) is Err,
    ensures
        with_settings(keys, values, lines) == with_settings(keys.take(n), values, lines),
    decreases keys.len() - n,
{
    if n < keys.len() {
        assert(keys.take(n + 1).drop_last() =~= keys.take(n));
        lemma_failure_stays(keys, values, lines, n + 1);
    } else {
        assert(keys.take(n) =~= keys);
    }
}

/// A given setting that there is not.
pub open spec fn unsupported(values: Map<Seq<char>, Json>, key: Seq<char>) -> bool {
    values.dom().contains(key) && !setting_names::admin_keys().contains(key)
}

/// The first, by name, of the given settings that there are not.
pub open spec fn first_unsupported(values: Map<Seq<char>, Json>, key: Seq<char>) -> bool {
    unsupported(values, key) && forall|other: Seq<char>| #[trigger]
        unsupported(values, other) ==> other == key || text::precedes(key, other)
}

fn find_unsupported(values: &Table<Json>) -> (r: Option<&str>)
    ensures
        match r {
            Some(key) => first_unsupported(values@, key@),
            None => forall|key: Seq<char>| !#[trigger] unsupported(values@, key),
        },
{
    let keys = setting_names::admin_setting_keys();
    let n = values.len();
    let ghost rows = values.rows();
    let mut found: Option<&str> = None;
    let mut i: usize = 0;
    while i < n
        invariant
            i <= n,
            n == rows.len(),
            rows == values.rows(),
            setting_names::names(keys@) == setting_names::admin_keys(),
            match found {
                Some(key) => unsupported(values@, key@) && forall|j: int|
                    0 <= j < i && unsupported(values@, #[trigger] rows[j].0@) ==> rows[j].0@ == key@
                        || text::precedes(key@, rows[j].0@),
                None => forall|j: int| 0 <= j < i ==> !unsupported(values@, #[trigger] rows[j].0@),
            },
        decreases n - i,
    {
        let key = values.key_at(i);
        if !setting_names::has_name(&keys, key) {
            assert(unsupported(values@, key@));
            match found {
                Some(best) => {
                    proof {
                        text::text_order_is_total(key@, best@);
                    }
                    if text::text_precedes(key, best) {
                        proof {
                            assert forall|j: int|
                                0 <= j < i && unsupported(
                                    values@,
                                    #[trigger] rows[j].0@,
                                ) implies rows[j].0@ == key@ || text::precedes(
                                key@,
                                rows[j].0@,
                            ) by {
                                if rows[j].0@ != best@ {
                                    text::text_order_is_transitive(key@, best@, rows[j].0@);
                                }
                            }
                        }
                        found = Some(key);
                    }
                },
                None => {
                    found = Some(key);
                },
            }
        }
        i = i + 1;
    }
    proof {
        assert forall|other: Seq<char>| #[trigger] unsupported(values@, other) implies exists|j: int|
            0 <= j < n && (#[trigger] rows[j]).0@ == other by {
            let j = choose|j: int| table::is_entry(rows, other, j);
            assert(rows[j].0@ == other);
        }
    }
    found
}

/// The profile that some new settings ask for: their own, or the one in use.
pub open spec fn requested_profile(settings: Settings, values: Map<Seq<char>, Json>) -> Seq<char> {
    if values.dom().contains("settings_profile"@) && json::text_in(
        values["settings_profile"@],
    ) is Some {
        json::text_in(values["settings_profile"@])->0
    } else {
        settings.settings_profile@
    }
}

/// The new settings that are checked and written.
pub open spec fn chosen(settings: Settings, values: Map<Seq<char>, Json>) -> Map<Seq<char>, Json> {
    admin::considered(values, requested_profile(settings, values) == "ai_recommended"@)
}

/// The environment file with new settings.
pub open spec fn saved_file(
    settings: Settings,
    values: Map<Seq<char>, Json>,
    existing: Seq<char>,
) -> Result<Seq<char>, Seq<char>> {
    match admin::fault(chosen(settings, values)) {
        Some(why) => Err(why),
        None => match with_settings(
            setting_names::admin_keys(),
            chosen(settings, values),
            text::lines_of(existing),
        ) {
            Ok(lines) => Ok(text::joined(lines, "\n"@) + "\n"@),
            Err(why) => Err(why),
        },
    }
}

/// What saving new settings comes to.
pub open spec fn is_saved(
    settings: Settings,
    values: Json,
    existing: Seq<char>,
    r: Result<Seq<char>, Seq<char>>,
) -> bool {
    match json::members_in(values) {
        None => r == Err::<Seq<char>, Seq<char>>("Settings payload must be a JSON object"@),
        Some(members) => if exists|key: Seq<char>| unsupported(members, key) {
            exists|key: Seq<char>|
                first_unsupported(members, key) && r == Err::<Seq<char>, Seq<char>>(
                    "Unsupported setting: "@ + key,
                )
        } else {
            r == saved_file(settings, members, existing)
        },
    }
}

/// A result of texts by its characters.
pub open spec fn result_view(r: Result<String, String>) -> Result<Seq<char>, Seq<char>> {
    match r {
        Ok(s) => Ok(s@),
        Err(s) => Err(s@),
    }
}

impl Settings {
    /// The text of the environment file with new settings in it, or why they are refused.
    pub fn save_admin_settings(&self, values: &Json, existing: &str) -> (r: Result<String, String>)
        ensures
            is_saved(*self, *values, existing@, result_view(r)),
    {
        let members = match values {
            Json::Object(members) => members,
            _ => {
                return Err("Settings payload must be a JSON object".to_owned());
            },
        };
        match find_unsupported(members) {
            Some(key) => {
                let mut why = "Unsupported setting: ".to_owned();
                why.append(key);
                assert(unsupported(members@, key@));
                assert(first_unsupported(members@, key@));
                return Err(why);
            },
            None => {},
        }
        let preset = match values.text_at("settings_profile") {
            Some(profile) => text::text_eq(profile, "ai_recommended"),
            None => text::text_eq(self.settings_profile.as_str(), "ai_recommended"),
        };
        let ghost kept = chosen(*self, members@);
        assert(kept == admin::considered(members@, preset));
        match admin::find_fault(members, preset) {
            Some(why) => {
                return Err(why);
            },
            None => {},
        }
        let ghost before = text::lines_of(existing@);
        let mut lines = text::lines(existing);
        let keys = setting_names::admin_setting_keys();
        let ghost all = setting_names::admin_keys();
        let mut i: usize = 0;
        while i < keys.len()
            invariant
                i <= keys@.len(),
                all == setting_names::names(keys@),
                all == setting_names::admin_keys(),
                json::members_in(*values) == Some(members@),
                forall|key: Seq<char>| !#[trigger] unsupported(members@, key),
                kept == chosen(*self, members@),
                kept == admin::considered(members@, preset),
                admin::fault(kept) is None,
                before == text::lines_of(existing@),
                with_settings(all.take(i as int), kept, before) == Ok::<Seq<Seq<char>>, Seq<char>>(
                    sorting::texts(lines@),
                ),
            decreases keys@.len() - i,
        {
            let key = keys[i];
            assert(all.take(i + 1).drop_last() =~= all.take(i as int));
            assert(all.take(i + 1).last() == key@);
            match admin::look_up(members, preset, key) {
                Some(value) => match env_value(value) {
                    Ok(encoded) => {
                        let name = text::capitalize(key);
                        put_setting(&mut lines, name.as_str(), encoded.as_str());
                    },
                    Err(why) => {
                        proof {
                            lemma_failure_stays(all, kept, before, i + 1);
                        }
                        return Err(why);
                    },
                },
                None => {},
            }
            i = i + 1;
        }
        assert(all.take(i as int) =~= all);
        let mut content = text::join(&lines, "\n");
        content.append("\n");
        Ok(content)
    }
}

proof fn lemma_fits_are_written(keys: Seq<Seq<char>>, values: Map<Seq<char>, Json>, lines: Seq<Seq<char>>)
    requires
        forall|i: int|
            0 <= i < keys.len() && values.dom().contains(keys[i]) ==> admin::fits(
                admin::rule_of(#[trigger] keys[i]),
                values[keys[i]],
            ),
    ensures
        with_settings(keys, values, lines) is Ok,
    decreases keys.len(),
{
    if keys.len() > 0 {
        let rest = keys.drop_last();
        assert forall|i: int|
            0 <= i < rest.len() && values.dom().contains(rest[i]) implies admin::fits(
            admin::rule_of(#[trigger] rest[i]),
            values[rest[i]],
        ) by {
            assert(keys[i] == rest[i]);
        }
        lemma_fits_are_written(rest, values, lines);
        let n = keys.len() - 1;
        assert(keys[n] == keys.last());
    }
}

/// Settings that pass the checks can all be written.
pub proof fn checked_settings_can_be_written(
    values: Map<Seq<char>, Json>,
    lines: Seq<Seq<char>>,
)
    requires
        admin::fault(values) is None,
    ensures
        with_settings(setting_names::admin_keys(), values, lines) is Ok,
{
    let keys = setting_names::admin_keys();
    assert forall|i: int|
        0 <= i < keys.len() && values.dom().contains(keys[i]) implies admin::fits(
        admin::rule_of(#[trigger] keys[i]),
        values[keys[i]],
    ) by {
        admin::lemma_fit(keys, values, i);
    }
    lemma_fits_are_written(keys, values, lines);
}

} // verus!
