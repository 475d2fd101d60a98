//! Verified helpers over the JSON bindings: the encodings shared by the
//! module schemas, each specified against a spec-level mirror written over
//! the named observations of a JSON value.

use vstd::prelude::*;

use super::json;
use super::json::{json_array_elems, json_object_fields, json_string_of};
use crate::common::{curld_view, CurldAbs, CurldCommand};
use crate::value_map::ValueMap;

verus! {

/// The value of the first field of that name, if any.
pub open spec fn find_field_spec(
    fields: Seq<(Seq<char>, serde_json::Value)>,
    name: Seq<char>,
) -> Option<serde_json::Value>
    decreases fields.len(),
{
    if fields.len() == 0 {
        None
    } else if fields[0].0 == name {
        Some(fields[0].1)
    } else {
        find_field_spec(fields.drop_first(), name)
    }
}

/// The entry pairs of a vector of fields, keys as views.
pub open spec fn fields_view(entries: Seq<(String, serde_json::Value)>) -> Seq<
    (Seq<char>, serde_json::Value),
> {
    Seq::new(entries.len(), |i: int| (entries[i].0@, entries[i].1))
}

/// The field of that name among an object's entries, if any: exactly what
/// [`find_field_spec`] says.
pub(crate) fn get_field<'a>(
    entries: &'a Vec<(String, serde_json::Value)>,
    name: &str,
) -> (r: Option<&'a serde_json::Value>)
    ensures
        match r {
            Some(f) => find_field_spec(fields_view(entries@), name@) == Some(*f),
            None => find_field_spec(fields_view(entries@), name@) is None,
        },
{
    let ghost fields = fields_view(entries@);
    proof {
        assert(fields.skip(0) =~= fields);
    }
    let mut i: usize = 0;
    while i < entries.len()
        invariant
            i <= entries@.len(),
            fields == fields_view(entries@),
            find_field_spec(fields.skip(i as int), name@) == find_field_spec(fields, name@),
        decreases entries@.len() - i,
    {
        proof {
            assert(fields.skip(i as int)[0] == fields[i as int]);
        }
        if crate::strutil::str_eq(entries[i].0.as_str(), name) {
            assert(fields[i as int].0 == name@);
            assert(find_field_spec(fields.skip(i as int), name@) == Some(fields[i as int].1));
            return Some(&entries[i].1);
        }
        proof {
            assert(fields.skip(i as int).drop_first() =~= fields.skip(i + 1));
        }
        i += 1;
    }
    proof {
        assert(fields.skip(entries@.len() as int) =~= Seq::<(Seq<char>, serde_json::Value)>::empty());
    }
    None
}

/// The texts of the items from position `i` on, provided every one of them
/// is a JSON string.
pub open spec fn strings_from(items: Seq<serde_json::Value>, i: int) -> Option<Seq<Seq<char>>>
    decreases items.len() - i,
        when 0 <= i <= items.len()
{
    if i == items.len() {
        Some(Seq::empty())
    } else {
        match json_string_of(items[i]) {
            None => None,
            Some(s) => match strings_from(items, i + 1) {
                None => None,
                Some(rest) => Some(seq![s] + rest),
            },
        }
    }
}

/// A suffix whose texts are known is decoded to exactly those texts.
proof fn lemma_strings_from(items: Seq<serde_json::Value>, out: Seq<Seq<char>>, k: int)
    requires
        0 <= k <= items.len(),
        out.len() == items.len() - k,
        forall|j: int| 0 <= j < out.len() ==> json_string_of(items[k + j]) == Some(out[j]),
    ensures
        strings_from(items, k) == Some(out),
    decreases items.len() - k,
{
    if k < items.len() {
        lemma_strings_from(items, out.drop_first(), k + 1);
        assert(json_string_of(items[k + 0]) == Some(out[0]));
        assert(seq![out[0]] + out.drop_first() =~= out);
    } else {
        assert(out =~= Seq::<Seq<char>>::empty());
    }
}

/// One non-string item anywhere after `k` makes the suffix undecodable.
proof fn lemma_strings_from_none(items: Seq<serde_json::Value>, k: int, j: int)
    requires
        0 <= k <= j < items.len(),
        json_string_of(items[j]) is None,
    ensures
        strings_from(items, k) is None,
    decreases j - k,
{
    if k < j {
        lemma_strings_from_none(items, k + 1, j);
    }
}

/// The strings of a JSON array of strings; `None` for any other value.
pub open spec fn string_vec_spec(v: serde_json::Value) -> Option<Seq<Seq<char>>> {
    match json_array_elems(v) {
        None => None,
        Some(items) => strings_from(items, 0),
    }
}

/// A JSON array of strings, which decodes back to exactly these strings.
pub(crate) fn encode_string_vec(v: &Vec<String>) -> (r: serde_json::Value)
    ensures
        string_vec_spec(r) == Some(v.deep_view()),
{
    let mut items: Vec<serde_json::Value> = Vec::new();
    let mut i: usize = 0;
    while i < v.len()
        invariant
            i <= v@.len(),
            items@.len() == i,
            forall|j: int| 0 <= j < i ==> json_string_of(items@[j]) == Some(v.deep_view()[j]),
        decreases v@.len() - i,
    {
        items.push(json::string_value(v[i].as_str()));
        i += 1;
    }
    let r = json::array_value(items);
    proof {
        lemma_strings_from(items@, v.deep_view(), 0);
    }
    r
}

/// The strings of a JSON array, exactly as [`string_vec_spec`] says.
pub(crate) fn decode_string_vec(v: &serde_json::Value) -> (r: Option<Vec<String>>)
    ensures
        match r {
            Some(out) => string_vec_spec(*v) == Some(out.deep_view()),
            None => string_vec_spec(*v) is None,
        },
{
    let items = match json::array_items(v) {
        Some(items) => items,
        None => {
            return None;
        },
    };
    let mut out: Vec<String> = Vec::new();
    let mut i: usize = 0;
    while i < items.len()
        invariant
            i <= items@.len(),
            json_array_elems(*v) == Some(items@),
            out@.len() == i,
            forall|j: int| 0 <= j < i ==> json_string_of(items@[j]) == Some(out.deep_view()[j]),
        decreases items@.len() - i,
    {
        let ghost prev = out@;
        let ghost prev_deep = out.deep_view();
        match json::value_as_string(&items[i]) {
            Some(s) => {
                out.push(s);
                proof {
                    assert forall|j: int| 0 <= j < i + 1 implies json_string_of(items@[j]) == Some(
                        out.deep_view()[j],
                    ) by {
                        if j < i as int {
                            assert(out@[j] == prev[j]);
                            assert(prev_deep[j] == prev[j].deep_view());
                        }
                    }
                }
            },
            None => {
                proof {
                    lemma_strings_from_none(items@, 0, i as int);
                }
                return None;
            },
        }
        i += 1;
    }
    proof {
        lemma_strings_from(items@, out.deep_view(), 0);
    }
    Some(out)
}

/// The entries of the fields from position `i` on, provided every field's
/// value is a JSON string.
pub open spec fn string_fields_from(
    fields: Seq<(Seq<char>, serde_json::Value)>,
    i: int,
) -> Option<Seq<(Seq<char>, Seq<char>)>>
    decreases fields.len() - i,
        when 0 <= i <= fields.len()
{
    if i == fields.len() {
        Some(Seq::empty())
    } else {
        match json_string_of(fields[i].1) {
            None => None,
            Some(s) => match string_fields_from(fields, i + 1) {
                None => None,
                Some(rest) => Some(seq![(fields[i].0, s)] + rest),
            },
        }
    }
}

/// A suffix whose entries are known is decoded to exactly those entries.
proof fn lemma_string_fields_from(
    fields: Seq<(Seq<char>, serde_json::Value)>,
    out: Seq<(Seq<char>, Seq<char>)>,
    k: int,
)
    requires
        0 <= k <= fields.len(),
        out.len() == fields.len() - k,
        forall|j: int|
            0 <= j < out.len() ==> out[j].0 == fields[k + j].0 && json_string_of(fields[k + j].1)
                == Some(out[j].1),
    ensures
        string_fields_from(fields, k) == Some(out),
    decreases fields.len() - k,
{
    if k < fields.len() {
        lemma_string_fields_from(fields, out.drop_first(), k + 1);
        assert(out[0].0 == fields[k + 0].0 && json_string_of(fields[k + 0].1) == Some(out[0].1));
        assert(seq![(fields[k].0, out[0].1)] + out.drop_first() =~= out);
    } else {
        assert(out =~= Seq::<(Seq<char>, Seq<char>)>::empty());
    }
}

/// One non-string field value anywhere after `k` makes the suffix
/// undecodable.
proof fn lemma_string_fields_from_none(
    fields: Seq<(Seq<char>, serde_json::Value)>,
    k: int,
    j: int,
)
    requires
        0 <= k <= j < fields.len(),
        json_string_of(fields[j].1) is None,
    ensures
        string_fields_from(fields, k) is None,
    decreases j - k,
{
    if k < j {
        lemma_string_fields_from_none(fields, k + 1, j);
    }
}

/// The entries of a JSON object of string fields; `None` for any other
/// value.
pub open spec fn value_map_spec(v: serde_json::Value) -> Option<Seq<(Seq<char>, Seq<char>)>> {
    match json_object_fields(v) {
        None => None,
        Some(fields) => string_fields_from(fields, 0),
    }
}

/// A JSON object with one string field per map entry, which decodes back to
/// entries equivalent to the map's (the object reorders its keys).
pub(crate) fn encode_value_map(m: &ValueMap) -> (r: serde_json::Value)
    ensures
        value_map_spec(r) matches Some(pairs) && pairs.len() == m@.len() && (forall|i: int|
            0 <= i < pairs.len() ==> m@.contains(#[trigger] pairs[i])) && (forall|i: int|
            0 <= i < m@.len() ==> pairs.contains(#[trigger] m@[i])),
{
    let entries = m.entry_list();
    proof {
        use_type_invariant(m);
    }
    let mut fields: Vec<(String, serde_json::Value)> = Vec::new();
    let mut i: usize = 0;
    while i < entries.len()
        invariant
            i <= entries@.len(),
            entries.deep_view() == m@,
            fields@.len() == i,
            forall|j: int|
                0 <= j < i ==> fields@[j].0@ == m@[j].0 && json_string_of(fields@[j].1) == Some(
                    m@[j].1,
                ),
        decreases entries@.len() - i,
    {
        let ghost prev = fields@;
        let k = entries[i].0.clone();
        proof {
            assert(k@ == m@[i as int].0);
            assert(entries[i as int].1@ == m@[i as int].1);
        }
        fields.push((k, json::string_value(entries[i].1.as_str())));
        i += 1;
    }
    let r = json::object_value(fields);
    proof {
        assert forall|a: int, b: int| 0 <= a < b < fields@.len() implies fields@[a].0@
            != fields@[b].0@ by {
            assert(m@[a].0 != m@[b].0);
        }
        let built = Seq::new(fields@.len(), |i: int| (fields@[i].0@, fields@[i].1));
        assert(json::fields_equivalent(json_object_fields(r)->Some_0, built));
        let fs = json_object_fields(r)->Some_0;
        let pairs_of = |fields_in: Seq<(Seq<char>, serde_json::Value)>| Seq::new(
            fields_in.len(),
            |i: int| (fields_in[i].0, json_string_of(fields_in[i].1)->Some_0),
        );
        assert forall|i: int| 0 <= i < fs.len() implies json_string_of(fs[i].1) == Some(
            pairs_of(fs)[i].1,
        ) && pairs_of(fs)[i].0 == fs[i].0 by {
            assert(built.contains(fs[i]));
            let w = choose|w: int| 0 <= w < built.len() && built[w] == fs[i];
            assert(json_string_of(built[w].1) == Some(m@[w].1));
        }
        lemma_string_fields_from(fs, pairs_of(fs), 0);
        let pairs = pairs_of(fs);
        assert forall|i: int| 0 <= i < pairs.len() implies m@.contains(#[trigger] pairs[i]) by {
            assert(built.contains(fs[i]));
            let w = choose|w: int| 0 <= w < built.len() && built[w] == fs[i];
            assert(json_string_of(built[w].1) == Some(m@[w].1));
            assert(pairs[i] == m@[w]);
        }
        assert forall|i: int| 0 <= i < m@.len() implies pairs.contains(#[trigger] m@[i]) by {
            assert(fs.contains(built[i]));
            let w = choose|w: int| 0 <= w < fs.len() && fs[w] == built[i];
            assert(pairs[w] == (fs[w].0, json_string_of(fs[w].1)->Some_0));
            assert(json_string_of(built[i].1) == Some(m@[i].1));
            assert(pairs[w] == m@[i]);
        }
    }
    r
}

/// The value map of a JSON object of string fields, exactly as
/// [`value_map_spec`] says.
pub(crate) fn decode_value_map(v: &serde_json::Value) -> (r: Option<ValueMap>)
    ensures
        match r {
            Some(m) => value_map_spec(*v) == Some(m@),
            None => value_map_spec(*v) is None,
        },
{
    let entries = match json::object_entries(v) {
        Some(entries) => entries,
        None => {
            return None;
        },
    };
    let ghost fields = json_object_fields(*v)->Some_0;
    let mut out = ValueMap::new();
    let mut i: usize = 0;
    while i < entries.len()
        invariant
            i <= entries@.len(),
            json_object_fields(*v) == Some(fields),
            fields.len() == entries@.len(),
            forall|j: int|
                0 <= j < fields.len() ==> fields[j] == (entries@[j].0@, entries@[j].1),
            json::fields_unique(fields),
            out@.len() == i,
            forall|j: int|
                0 <= j < i ==> out@[j].0 == fields[j].0 && json_string_of(fields[j].1) == Some(
                    out@[j].1,
                ),
        decreases entries@.len() - i,
    {
        let ghost prev = out@;
        match json::value_as_string(&entries[i].1) {
            Some(s) => {
                proof {
                    if out.spec_contains(entries@[i as int].0@) {
                        let w = choose|w: int|
                            0 <= w < prev.len() && prev[w].0 == entries@[i as int].0@;
                        assert(fields[w].0 == fields[i as int].0);
                    }
                }
                out.insert(entries[i].0.clone(), s);
                proof {
                    assert(out@ =~= prev.push((entries@[i as int].0@, s@)));
                }
            },
            None => {
                proof {
                    lemma_string_fields_from_none(fields, 0, i as int);
                }
                return None;
            },
        }
        i += 1;
    }
    proof {
        lemma_string_fields_from(fields, out@, 0);
    }
    Some(out)
}

/// The records of the items from position `i` on, provided every one of
/// them holds a command record.
pub open spec fn curlds_from(items: Seq<serde_json::Value>, i: int) -> Option<Seq<CurldAbs>>
    decreases items.len() - i,
        when 0 <= i <= items.len()
{
    if i == items.len() {
        Some(Seq::empty())
    } else {
        match curld_spec(items[i]) {
            None => None,
            Some(c) => match curlds_from(items, i + 1) {
                None => None,
                Some(rest) => Some(seq![c] + rest),
            },
        }
    }
}

/// A suffix whose records are known is decoded to exactly those records.
pub(crate) proof fn lemma_curlds_from(items: Seq<serde_json::Value>, out: Seq<CurldAbs>, k: int)
    requires
        0 <= k <= items.len(),
        out.len() == items.len() - k,
        forall|j: int| 0 <= j < out.len() ==> curld_spec(items[k + j]) == Some(out[j]),
    ensures
        curlds_from(items, k) == Some(out),
    decreases items.len() - k,
{
    if k < items.len() {
        lemma_curlds_from(items, out.drop_first(), k + 1);
        assert(curld_spec(items[k + 0]) == Some(out[0]));
        assert(seq![out[0]] + out.drop_first() =~= out);
    } else {
        assert(out =~= Seq::<CurldAbs>::empty());
    }
}

/// One malformed item anywhere after `k` makes the suffix undecodable.
pub(crate) proof fn lemma_curlds_from_none(items: Seq<serde_json::Value>, k: int, j: int)
    requires
        0 <= k <= j < items.len(),
        curld_spec(items[j]) is None,
    ensures
        curlds_from(items, k) is None,
    decreases j - k,
{
    if k < j {
        lemma_curlds_from_none(items, k + 1, j);
    }
}

/// The content of a JSON object holding a command record: its `value_map`
/// and `user_args` fields, a missing field being its default; `None` for a
/// value that is not an object or whose fields have the wrong shape.
pub open spec fn curld_spec(v: serde_json::Value) -> Option<CurldAbs> {
    match json_object_fields(v) {
        None => None,
        Some(fields) => match (match find_field_spec(fields, "value_map"@) {
            None => Some(Seq::<(Seq<char>, Seq<char>)>::empty()),
            Some(f) => value_map_spec(f),
        }) {
            None => None,
            Some(vm) => match (match find_field_spec(fields, "user_args"@) {
                None => Some(Seq::<Seq<char>>::empty()),
                Some(f) => string_vec_spec(f),
            }) {
                None => None,
                Some(args) => Some(CurldAbs { value_map: vm, user_args: args }),
            },
        },
    }
}

/// A command record as a JSON object, which decodes back to a record whose
/// value entries are equivalent to the record's (the object reorders them)
/// and whose arguments are the record's exactly.
pub(crate) fn encode_curld(c: &CurldCommand) -> (r: serde_json::Value)
    ensures
        curld_spec(r) matches Some(abs) && abs.user_args == curld_view(*c).user_args && abs.value_map.len()
            == c.value_map@.len() && (forall|i: int|
            0 <= i < abs.value_map.len() ==> c.value_map@.contains(#[trigger] abs.value_map[i]))
            && (forall|i: int|
            0 <= i < c.value_map@.len() ==> abs.value_map.contains(#[trigger] c.value_map@[i])),
{
    let mut fields: Vec<(String, serde_json::Value)> = Vec::new();
    let vm = encode_value_map(&c.value_map);
    let args = encode_string_vec(&c.user_args);
    fields.push(("value_map".to_owned(), vm));
    fields.push(("user_args".to_owned(), args));
    let r = json::object_value(fields);
    proof {
        reveal_strlit("value_map");
        reveal_strlit("user_args");
        assert("value_map"@[0] == 'v' && "user_args"@[0] == 'u');
        assert("value_map"@ != "user_args"@);
        let built = Seq::new(fields@.len(), |i: int| (fields@[i].0@, fields@[i].1));
        assert(built[0] == ("value_map"@, vm));
        assert(built[1] == ("user_args"@, args));
        let fs = json_object_fields(r)->Some_0;
        assert(json::fields_equivalent(fs, built));
        lemma_find_in_equivalent(fs, built, "value_map"@);
        lemma_find_in_equivalent(fs, built, "user_args"@);
        lemma_find_two(built, "value_map"@, vm, "user_args"@, args);
    }
    r
}

/// In a two-field list with distinct keys, each key finds its own value.
pub(crate) proof fn lemma_find_two(
    built: Seq<(Seq<char>, serde_json::Value)>,
    k0: Seq<char>,
    v0: serde_json::Value,
    k1: Seq<char>,
    v1: serde_json::Value,
)
    requires
        built.len() == 2,
        built[0] == (k0, v0),
        built[1] == (k1, v1),
        k0 != k1,
    ensures
        find_field_spec(built, k0) == Some(v0),
        find_field_spec(built, k1) == Some(v1),
{
    reveal_with_fuel(find_field_spec, 3);
    assert(built.drop_first()[0] == built[1]);
    assert(built.drop_first().len() == 1);
    assert(find_field_spec(built.drop_first(), k1) == Some(v1));
}

/// Looking a key up in equivalent field lists gives the same value.
pub(crate) proof fn lemma_find_in_equivalent(
    a: Seq<(Seq<char>, serde_json::Value)>,
    b: Seq<(Seq<char>, serde_json::Value)>,
    name: Seq<char>,
)
    requires
        json::fields_equivalent(a, b),
    ensures
        find_field_spec(a, name) == find_field_spec(b, name),
{
    lemma_find_field_unique(a, name);
    lemma_find_field_unique(b, name);
    match find_field_spec(a, name) {
        Some(v) => {
            let w = choose|w: int| 0 <= w < a.len() && a[w] == (name, v);
            assert(b.contains(a[w]));
            let x = choose|x: int| 0 <= x < b.len() && b[x] == (name, v);
            match find_field_spec(b, name) {
                Some(v2) => {
                    let y = choose|y: int| 0 <= y < b.len() && b[y] == (name, v2);
                    if x != y {
                        assert(b[x].0 == b[y].0);
                    }
                },
                None => {
                    assert(b[x].0 == name);
                },
            }
        },
        None => {
            match find_field_spec(b, name) {
                Some(v2) => {
                    let y = choose|y: int| 0 <= y < b.len() && b[y] == (name, v2);
                    assert(a.contains(b[y]));
                    let x = choose|x: int| 0 <= x < a.len() && a[x] == (name, v2);
                    assert(a[x].0 == name);
                },
                None => {},
            }
        },
    }
}

/// With unique keys, `find_field_spec` finds a pair exactly when the list
/// holds one with that key, and it is that pair's value.
pub proof fn lemma_find_field_unique(fields: Seq<(Seq<char>, serde_json::Value)>, name: Seq<char>)
    requires
        json::fields_unique(fields),
    ensures
        match find_field_spec(fields, name) {
            Some(v) => fields.contains((name, v)) && forall|j: int|
                0 <= j < fields.len() && fields[j].0 == name ==> fields[j] == (name, v),
            None => forall|j: int| 0 <= j < fields.len() ==> fields[j].0 != name,
        },
    decreases fields.len(),
{
    if fields.len() > 0 {
        if fields[0].0 == name {
            assert(fields.contains((name, fields[0].1)));
            assert forall|j: int|
                0 <= j < fields.len() && fields[j].0 == name implies fields[j] == (
                name,
                fields[0].1,
            ) by {
                if j != 0 {
                    assert(fields[0].0 != fields[j].0);
                }
            }
        } else {
            let rest = fields.drop_first();
            assert(forall|i: int| 0 <= i < rest.len() ==> rest[i] == fields[i + 1]);
            assert forall|i: int, j: int| 0 <= i < j < rest.len() implies rest[i].0
                != rest[j].0 by {
                assert(fields[i + 1].0 != fields[j + 1].0);
            }
            lemma_find_field_unique(rest, name);
            match find_field_spec(rest, name) {
                Some(v) => {
                    let w = choose|w: int| 0 <= w < rest.len() && rest[w] == (name, v);
                    assert(fields[w + 1] == (name, v));
                    assert(fields.contains((name, v)));
                    assert forall|j: int|
                        0 <= j < fields.len() && fields[j].0 == name implies fields[j] == (
                        name,
                        v,
                    ) by {
                        if j >= 1 {
                            assert(rest[j - 1] == fields[j]);
                        }
                    }
                },
                None => {
                    assert forall|j: int| 0 <= j < fields.len() implies fields[j].0 != name by {
                        if j >= 1 {
                            assert(rest[j - 1] == fields[j]);
                        }
                    }
                },
            }
        }
    }
}

/// A command record out of a JSON object, exactly as [`curld_spec`] says.
pub(crate) fn decode_curld(v: &serde_json::Value) -> (r: Option<CurldCommand>)
    ensures
        match r {
            Some(c) => curld_spec(*v) == Some(curld_view(c)),
            None => curld_spec(*v) is None,
        },
{
    let entries = match json::object_entries(v) {
        Some(entries) => entries,
        None => {
            return None;
        },
    };
    proof {
        assert(fields_view(entries@) =~= json_object_fields(*v)->Some_0);
    }
    let value_map = match get_field(&entries, "value_map") {
        Some(f) => match decode_value_map(f) {
            Some(m) => m,
            None => {
                return None;
            },
        },
        None => ValueMap::new(),
    };
    let user_args = match get_field(&entries, "user_args") {
        Some(f) => match decode_string_vec(f) {
            Some(a) => a,
            None => {
                return None;
            },
        },
        None => {
            let empty_args: Vec<String> = Vec::new();
            assert(empty_args.deep_view() =~= Seq::<Seq<char>>::empty());
            empty_args
        },
    };
    Some(CurldCommand { value_map, user_args })
}

} // verus!
