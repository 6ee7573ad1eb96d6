//! Granting panko's commands in a coding agent's JSON settings file.
use vstd::prelude::*;

use crate::app::strs_v;
use crate::cli::{missing_permissions, panko_permissions_spec};
use crate::text::{chars_eq, chars_of, chars_of_string, string_from};

verus! {

/// A JSON value as plain values (a number kept as its text).
#[derive(Debug)]
pub enum JsonValue {
    Null,
    Bool(bool),
    Number(String),
    Str(String),
    Array(Vec<JsonValue>),
    Object(Vec<(String, JsonValue)>),
}

/// A JSON value in specifications.
pub ghost enum JsonV {
    Null,
    Bool(bool),
    Number(Seq<char>),
    Str(Seq<char>),
    Array(Seq<JsonV>),
    Object(Seq<(Seq<char>, JsonV)>),
}

pub open spec fn json_v(v: JsonValue) -> JsonV
    decreases v, 1nat,
{
    match v {
        JsonValue::Null => JsonV::Null,
        JsonValue::Bool(b) => JsonV::Bool(b),
        JsonValue::Number(s) => JsonV::Number(s@),
        JsonValue::Str(s) => JsonV::Str(s@),
        JsonValue::Array(items) => JsonV::Array(json_items(items@)),
        JsonValue::Object(es) => JsonV::Object(json_entries(es@)),
    }
}

pub open spec fn json_items(s: Seq<JsonValue>) -> Seq<JsonV>
    decreases s, 0nat,
{
    if s.len() == 0 {
        seq![]
    } else {
        json_items(s.drop_last()).push(json_v(s.last()))
    }
}

pub open spec fn json_entries(s: Seq<(String, JsonValue)>) -> Seq<(Seq<char>, JsonV)>
    decreases s, 0nat,
{
    if s.len() == 0 {
        seq![]
    } else {
        json_entries(s.drop_last()).push((s.last().0@, json_v(s.last().1)))
    }
}

#[verifier::external_type_specification]
#[verifier::external_body]
pub struct ExJsonValue(serde_json::Value);

/// The JSON document `serde_json` reads from a text (`None` where the
/// text is not JSON).
pub uninterp spec fn serde_read(text: Seq<char>) -> Option<JsonV>;

/// The text `serde_json::to_string_pretty` writes for a JSON value.
pub uninterp spec fn serde_pretty(v: JsonV) -> Option<Seq<char>>;

/// Converts a `serde_json::Value` to plain values, one variant for one.
#[verifier::external_body]
fn plain_json(v: serde_json::Value) -> JsonValue {
    match v {
        serde_json::Value::Null => JsonValue::Null,
        serde_json::Value::Bool(b) => JsonValue::Bool(b),
        serde_json::Value::Number(n) => JsonValue::Number(n.to_string()),
        serde_json::Value::String(s) => JsonValue::Str(s),
        serde_json::Value::Array(a) => JsonValue::Array(a.into_iter().map(plain_json).collect()),
        serde_json::Value::Object(m) => JsonValue::Object(m.into_iter().map(|(k, x)| (k, plain_json(x))).collect()),
    }
}

/// Converts plain values back to a `serde_json::Value`, one variant for one
/// (a number's text is read back as the number it was).
#[verifier::external_body]
fn serde_value(v: &JsonValue) -> serde_json::Value {
    match v {
        JsonValue::Null => serde_json::Value::Null,
        JsonValue::Bool(b) => serde_json::Value::Bool(*b),
        JsonValue::Number(s) => serde_json::from_str(s).unwrap_or(serde_json::Value::Null),
        JsonValue::Str(s) => serde_json::Value::String(s.clone()),
        JsonValue::Array(a) => serde_json::Value::Array(a.iter().map(serde_value).collect()),
        JsonValue::Object(es) => serde_json::Value::Object(es.iter().map(|(k, x)| (k.clone(), serde_value(x))).collect()),
    }
}

/// Calls `serde_json::from_str` for a `Value` and converts it to plain
/// values; the result is named `serde_read`.
#[verifier::external_body]
fn read_json(text: &str) -> (r: Option<JsonValue>)
    ensures
        match r {
            Some(v) => serde_read(text@) == Some(json_v(v)),
            None => serde_read(text@) is None,
        },
{
    serde_json::from_str::<serde_json::Value>(text).ok().map(plain_json)
}

/// Calls `serde_json::to_string_pretty` on the value; the result is named
/// `serde_pretty`.
#[verifier::external_body]
fn write_json(v: &JsonValue) -> (r: Option<String>)
    ensures
        match r {
            Some(t) => serde_pretty(json_v(*v)) == Some(t@),
            None => serde_pretty(json_v(*v)) is None,
        },
{
    serde_json::to_string_pretty(&serde_value(v)).ok()
}

// ───────────────────────── the merge ─────────────────────────

/// The value of the first entry named `key`.
pub open spec fn entry_of(es: Seq<(Seq<char>, JsonV)>, key: Seq<char>) -> Option<JsonV>
    decreases es.len(),
{
    if es.len() == 0 {
        None
    } else if es[0].0 == key {
        Some(es[0].1)
    } else {
        entry_of(es.drop_first(), key)
    }
}

/// The entries with the first one named `key` given `value`, or the entry
/// added at the end where there is none.
pub open spec fn with_entry(es: Seq<(Seq<char>, JsonV)>, key: Seq<char>, value: JsonV) -> Seq<(Seq<char>, JsonV)>
    decreases es.len(),
{
    if es.len() == 0 {
        seq![(key, value)]
    } else if es[0].0 == key {
        es.update(0, (key, value))
    } else {
        seq![es[0]] + with_entry(es.drop_first(), key, value)
    }
}

/// The strings among JSON values, in order.
pub open spec fn strings_in(items: Seq<JsonV>) -> Seq<Seq<char>>
    decreases items.len(),
{
    if items.len() == 0 {
        seq![]
    } else {
        match items.last() {
            JsonV::Str(s) => strings_in(items.drop_last()).push(s),
            _ => strings_in(items.drop_last()),
        }
    }
}

/// The settings with panko's permissions added to `permissions.allow`
/// (made where missing), each one not already there, in panko's order; or
/// the error for a document of the wrong shape.
pub open spec fn merged_settings(doc: JsonV) -> Result<JsonV, Seq<char>> {
    match doc {
        JsonV::Object(es) => {
            let perms = match entry_of(es, "permissions"@) {
                Some(p) => p,
                None => JsonV::Object(seq![]),
            };
            match perms {
                JsonV::Object(pes) => {
                    let allow = match entry_of(pes, "allow"@) {
                        Some(a) => a,
                        None => JsonV::Array(seq![]),
                    };
                    match allow {
                        JsonV::Array(items) => {
                            let added = panko_permissions_spec().filter(
                                |p: Seq<char>| !strings_in(items).contains(p),
                            ).map_values(|p: Seq<char>| JsonV::Str(p));
                            Ok(
                                JsonV::Object(
                                    with_entry(
                                        es,
                                        "permissions"@,
                                        JsonV::Object(with_entry(pes, "allow"@, JsonV::Array(items + added))),
                                    ),
                                ),
                            )
                        },
                        _ => Err("permissions.allow must be an array"@),
                    }
                },
                _ => Err("permissions must be an object"@),
            }
        },
        _ => Err("Settings must be a JSON object"@),
    }
}

/// What merging panko's permissions into a settings text gives: the
/// pretty-printed merged settings, or the error.
pub open spec fn merge_result(text: Seq<char>) -> Result<Seq<char>, Seq<char>> {
    match serde_read(text) {
        None => Err("Failed to parse settings JSON"@),
        Some(doc) => match merged_settings(doc) {
            Err(m) => Err(m),
            Ok(v) => match serde_pretty(v) {
                Some(t) => Ok(t),
                None => Err("Failed to write settings JSON"@),
            },
        },
    }
}

fn key_is(k: &String, lit: &str) -> (r: bool)
    ensures
        r == (k@ == lit@),
{
    chars_eq(&chars_of_string(k), &chars_of(lit))
}

/// The position of the first entry named `key`.
fn find_entry(es: &Vec<(String, JsonValue)>, key: &str) -> (r: Option<usize>)
    ensures
        match r {
            Some(i) => {
                &&& i < es@.len()
                &&& es@[i as int].0@ == key@
                &&& entry_of(json_entries(es@), key@) == Some(json_v(es@[i as int].1))
                &&& forall|v: JsonV| #[trigger] with_entry(json_entries(es@), key@, v) == json_entries(es@).update(
                    i as int,
                    (key@, v),
                )
            },
            None => {
                &&& entry_of(json_entries(es@), key@) is None
                &&& forall|v: JsonV| #[trigger] with_entry(json_entries(es@), key@, v) == json_entries(es@).push(
                    (key@, v),
                )
            },
        },
{
    let ghost ev = json_entries(es@);
    proof {
        lemma_entries_index(es@);
    }
    let mut i: usize = 0;
    while i < es.len()
        invariant
            i <= es@.len(),
            ev == json_entries(es@),
            ev.len() == es@.len(),
            forall|k: int| 0 <= k < es@.len() ==> #[trigger] ev[k] == (es@[k].0@, json_v(es@[k].1)),
            forall|k: int| 0 <= k < i ==> ev[k].0 != key@,
        decreases es.len() - i,
    {
        if key_is(&es[i].0, key) {
            proof {
                assert(ev[i as int].0 == key@);
                lemma_entry_first(ev, key@, i as int);
            }
            return Some(i);
        }
        assert(ev[i as int].0 != key@);
        i = i + 1;
    }
    proof {
        lemma_entry_none(ev, key@);
    }
    None
}

proof fn lemma_entries_index(s: Seq<(String, JsonValue)>)
    ensures
        json_entries(s).len() == s.len(),
        forall|k: int| 0 <= k < s.len() ==> #[trigger] json_entries(s)[k] == (s[k].0@, json_v(s[k].1)),
    decreases s.len(),
{
    if s.len() > 0 {
        lemma_entries_index(s.drop_last());
    }
}

proof fn lemma_items_index(s: Seq<JsonValue>)
    ensures
        json_items(s).len() == s.len(),
        forall|k: int| 0 <= k < s.len() ==> #[trigger] json_items(s)[k] == json_v(s[k]),
    decreases s.len(),
{
    if s.len() > 0 {
        lemma_items_index(s.drop_last());
    }
}

proof fn lemma_entry_first(es: Seq<(Seq<char>, JsonV)>, key: Seq<char>, i: int)
    requires
        0 <= i < es.len(),
        es[i].0 == key,
        forall|k: int| 0 <= k < i ==> es[k].0 != key,
    ensures
        entry_of(es, key) == Some(es[i].1),
        with_entry(es, key, es[i].1) == es,
        forall|v: JsonV| #[trigger] with_entry(es, key, v) == es.update(i, (key, v)),
    decreases i,
{
    if i > 0 {
        lemma_entry_first(es.drop_first(), key, i - 1);
        assert forall|v: JsonV| #[trigger] with_entry(es, key, v) == es.update(i, (key, v)) by {
            assert(with_entry(es.drop_first(), key, v) == es.drop_first().update(i - 1, (key, v)));
            assert(seq![es[0]] + es.drop_first().update(i - 1, (key, v)) =~= es.update(i, (key, v)));
        }
        assert(seq![es[0]] + es.drop_first() =~= es);
    } else {
        assert(es.update(0, (key, es[0].1)) =~= es);
    }
}

proof fn lemma_entry_none(es: Seq<(Seq<char>, JsonV)>, key: Seq<char>)
    requires
        forall|k: int| 0 <= k < es.len() ==> es[k].0 != key,
    ensures
        entry_of(es, key) is None,
        forall|v: JsonV| #[trigger] with_entry(es, key, v) == es.push((key, v)),
    decreases es.len(),
{
    if es.len() > 0 {
        lemma_entry_none(es.drop_first(), key);
        assert forall|v: JsonV| #[trigger] with_entry(es, key, v) == es.push((key, v)) by {
            assert(with_entry(es.drop_first(), key, v) == es.drop_first().push((key, v)));
            assert(seq![es[0]] + es.drop_first().push((key, v)) =~= es.push((key, v)));
        }
    } else {
        assert forall|v: JsonV| #[trigger] with_entry(es, key, v) == es.push((key, v)) by {
            assert(seq![(key, v)] =~= es.push((key, v)));
        }
    }
}

/// Takes the value of entry `i` out, leaving `Null` in its place.
fn take_entry(es: &mut Vec<(String, JsonValue)>, i: usize) -> (r: JsonValue)
    requires
        i < old(es)@.len(),
    ensures
        r == old(es)@[i as int].1,
        final(es)@ == old(es)@.update(i as int, (old(es)@[i as int].0, JsonValue::Null)),
{
    let (k, v) = es.remove(i);
    let ghost mid = es@;
    es.insert(i, (k, JsonValue::Null));
    assert(es@ =~= old(es)@.update(i as int, (old(es)@[i as int].0, JsonValue::Null)));
    v
}

/// Puts `v` as the value of entry `i`.
fn put_entry(es: &mut Vec<(String, JsonValue)>, i: usize, v: JsonValue)
    requires
        i < old(es)@.len(),
    ensures
        final(es)@ == old(es)@.update(i as int, (old(es)@[i as int].0, v)),
{
    let (k, _old) = es.remove(i);
    es.insert(i, (k, v));
    assert(es@ =~= old(es)@.update(i as int, (old(es)@[i as int].0, v)));
}

proof fn lemma_entries_update(s: Seq<(String, JsonValue)>, i: int, e: (String, JsonValue))
    requires
        0 <= i < s.len(),
    ensures
        json_entries(s.update(i, e)) == json_entries(s).update(i, (e.0@, json_v(e.1))),
{
    lemma_entries_index(s);
    lemma_entries_index(s.update(i, e));
    assert(json_entries(s.update(i, e)) =~= json_entries(s).update(i, (e.0@, json_v(e.1))));
}

proof fn lemma_entries_push(s: Seq<(String, JsonValue)>, e: (String, JsonValue))
    ensures
        json_entries(s.push(e)) == json_entries(s).push((e.0@, json_v(e.1))),
{
    assert(s.push(e).drop_last() =~= s);
}

proof fn lemma_items_push(s: Seq<JsonValue>, e: JsonValue)
    ensures
        json_items(s.push(e)) == json_items(s).push(json_v(e)),
{
    assert(s.push(e).drop_last() =~= s);
}

/// The strings among the items, as `String`s.
fn item_strings(items: &Vec<JsonValue>) -> (r: Vec<String>)
    ensures
        strs_v(r@) == strings_in(json_items(items@)),
{
    let mut r: Vec<String> = Vec::new();
    let mut i: usize = 0;
    proof {
        lemma_items_index(items@);
    }
    assert(json_items(items@).take(0) =~= Seq::<JsonV>::empty());
    assert(strs_v(r@) =~= Seq::<Seq<char>>::empty());
    while i < items.len()
        invariant
            i <= items@.len(),
            json_items(items@).len() == items@.len(),
            forall|k: int| 0 <= k < items@.len() ==> #[trigger] json_items(items@)[k] == json_v(items@[k]),
            strs_v(r@) == strings_in(json_items(items@).take(i as int)),
        decreases items.len() - i,
    {
        let ghost t = json_items(items@).take(i + 1);
        assert(t.drop_last() =~= json_items(items@).take(i as int));
        assert(t.last() == json_v(items@[i as int]));
        match &items[i] {
            JsonValue::Str(s) => {
                let ghost before = r@;
                r.push(s.clone());
                assert(strs_v(r@) =~= strs_v(before).push(s@));
            },
            _ => {},
        }
        i = i + 1;
    }
    assert(json_items(items@).take(i as int) =~= json_items(items@));
    r
}

/// Adds panko's permissions to a settings document (see `merged_settings`).
fn merge_doc(doc: JsonValue) -> (r: Result<JsonValue, String>)
    ensures
        match (r, merged_settings(json_v(doc))) {
            (Ok(v), Ok(w)) => json_v(v) == w,
            (Err(m), Err(n)) => m@ == n,
            _ => false,
        },
{
    let mut es = match doc {
        JsonValue::Object(es) => es,
        _ => {
            return Err(string_from("Settings must be a JSON object"));
        },
    };
    let ghost es0 = es@;
    let ghost ev = json_entries(es@);
    assert(json_v(doc) == JsonV::Object(ev));
    proof {
        lemma_entries_index(es0);
    }
    let pi = find_entry(&es, "permissions");
    let (mut pes, pslot) = match pi {
        Some(i) => match take_entry(&mut es, i) {
            JsonValue::Object(p) => (p, Some(i)),
            _ => {
                return Err(string_from("permissions must be an object"));
            },
        },
        None => (Vec::new(), None),
    };
    let ghost pes0 = pes@;
    let ghost pv = json_entries(pes@);
    proof {
        lemma_entries_index(pes0);
        if pi is None {
            assert(pv =~= Seq::<(Seq<char>, JsonV)>::empty());
        }
        assert(pv.len() == 0 ==> with_entry(pv, "allow"@, JsonV::Null) == seq![("allow"@, JsonV::Null)]);
    }
    let ai = find_entry(&pes, "allow");
    let (mut items, aslot) = match ai {
        Some(i) => match take_entry(&mut pes, i) {
            JsonValue::Array(a) => (a, Some(i)),
            _ => {
                return Err(string_from("permissions.allow must be an array"));
            },
        },
        None => (Vec::new(), None),
    };
    let ghost iv = json_items(items@);
    proof {
        if ai is None {
            assert(iv =~= Seq::<JsonV>::empty());
        }
    }
    let present = item_strings(&items);
    let missing = missing_permissions(&present);
    let ghost added = panko_permissions_spec().filter(|p: Seq<char>| !strings_in(iv).contains(p)).map_values(
        |p: Seq<char>| JsonV::Str(p),
    );
    assert(added =~= strs_v(missing@).map_values(|p: Seq<char>| JsonV::Str(p)));
    let mut j: usize = 0;
    assert(json_items(items@) =~= iv + added.take(0));
    while j < missing.len()
        invariant
            j <= missing@.len(),
            added.len() == missing@.len(),
            added == strs_v(missing@).map_values(|p: Seq<char>| JsonV::Str(p)),
            json_items(items@) == iv + added.take(j as int),
        decreases missing.len() - j,
    {
        let ghost before = items@;
        items.push(JsonValue::Str(missing[j].clone()));
        proof {
            lemma_items_push(before, JsonValue::Str(missing@[j as int]));
            assert(added[j as int] == JsonV::Str(missing@[j as int]@));
            assert(iv + added.take(j + 1) =~= (iv + added.take(j as int)).push(added[j as int]));
        }
        j = j + 1;
    }
    assert(added.take(j as int) =~= added);
    let allow = JsonValue::Array(items);
    let ghost allow_v = json_v(allow);
    assert(allow_v == JsonV::Array(iv + added));
    match aslot {
        Some(i) => {
            put_entry(&mut pes, i, allow);
            proof {
                assert(pes@ =~= pes0.update(i as int, (pes0[i as int].0, allow)));
                lemma_entries_update(pes0, i as int, (pes0[i as int].0, allow));
                assert(json_entries(pes@) == with_entry(pv, "allow"@, allow_v));
            }
        },
        None => {
            let ghost before = pes@;
            pes.push((string_from("allow"), allow));
            proof {
                lemma_entries_push(before, pes@.last());
                assert(json_entries(pes@) == with_entry(pv, "allow"@, allow_v));
            }
        },
    }
    let perms = JsonValue::Object(pes);
    let ghost perms_v = json_v(perms);
    match pslot {
        Some(i) => {
            put_entry(&mut es, i, perms);
            proof {
                assert(es@ =~= es0.update(i as int, (es0[i as int].0, perms)));
                lemma_entries_update(es0, i as int, (es0[i as int].0, perms));
                assert(json_entries(es@) == with_entry(ev, "permissions"@, perms_v));
            }
        },
        None => {
            let ghost before = es@;
            es.push((string_from("permissions"), perms));
            proof {
                lemma_entries_push(before, es@.last());
                assert(json_entries(es@) == with_entry(ev, "permissions"@, perms_v));
            }
        },
    }
    Ok(JsonValue::Object(es))
}

/// Adds panko's permissions to the text of a coding agent's settings file:
/// the pretty-printed settings with each missing permission appended to
/// `permissions.allow` (made where missing), or the error for a text that
/// is not JSON or a document of the wrong shape.
pub fn merge_panko_permissions(settings_text: &str) -> (r: Result<String, String>)
    ensures
        match (r, merge_result(settings_text@)) {
            (Ok(t), Ok(u)) => t@ == u,
            (Err(m), Err(n)) => m@ == n,
            _ => false,
        },
{
    let doc = match read_json(settings_text) {
        Some(d) => d,
        None => {
            return Err(string_from("Failed to parse settings JSON"));
        },
    };
    let merged = match merge_doc(doc) {
        Ok(v) => v,
        Err(m) => {
            return Err(m);
        },
    };
    match write_json(&merged) {
        Some(t) => Ok(t),
        None => Err(string_from("Failed to write settings JSON")),
    }
}

} // verus!
