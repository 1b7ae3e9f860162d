//! The configuration document: turning JSON into TOML and merging it into tables.

use crate::json;
use crate::json::{Json, JsonView};
use crate::toml;
use crate::toml::TomlView;
use toml_edit::{Array, ArrayOfTables, InlineTable, Table, Value};
use vstd::prelude::*;
use vstd::string::*;

verus! {

/// Why a value that holds a null has no place in a configuration.
pub open spec fn null_refused() -> Seq<char> {
    "null values are not allowed in config"@
}

/// True when the value is null or holds a null at any depth.
pub open spec fn has_null(v: JsonView) -> bool
    decreases v, 1int,
{
    match v {
        JsonView::Null => true,
        JsonView::Array(items) => some_null(items),
        JsonView::Object(members) => null_within(members),
        _ => false,
    }
}

/// True when an element holds a null.
pub open spec fn some_null(items: Seq<JsonView>) -> bool
    decreases items, 0int,
{
    exists|i: int| 0 <= i < items.len() && has_null(#[trigger] items[i])
}

/// True when a member's value holds a null.
pub open spec fn null_within(members: Seq<(Seq<char>, JsonView)>) -> bool
    decreases members, 0int,
{
    exists|i: int| 0 <= i < members.len() && has_null((#[trigger] members[i]).1)
}

/// A JSON value as a TOML value: objects become inline tables.
pub open spec fn as_toml(v: JsonView) -> TomlView
    decreases v, 1int,
{
    match v {
        JsonView::Null => TomlView::Absent,
        JsonView::Bool(b) => TomlView::Bool(b),
        JsonView::Number(n) => match json::number_i64(n) {
            Some(i) => TomlView::Integer(i),
            None => TomlView::Float(Some(json::number_float(n))),
        },
        JsonView::Text(s) => TomlView::Text(s),
        JsonView::Array(items) => TomlView::List(list_of(items)),
        JsonView::Object(members) => TomlView::Inline(inline_of(members)),
    }
}

/// The elements of a JSON array as TOML values.
pub open spec fn list_of(items: Seq<JsonView>) -> Seq<TomlView>
    decreases items, 0int,
{
    Seq::new(
        items.len(),
        |i: int|
            if 0 <= i < items.len() {
                as_toml(items[i])
            } else {
                TomlView::Absent
            },
    )
}

/// The members of a JSON object as the keys of an inline table.
pub open spec fn inline_of(members: Seq<(Seq<char>, JsonView)>) -> Map<Seq<char>, TomlView>
    decreases members, 0int,
{
    if members.len() == 0 {
        toml::no_keys()
    } else {
        let last = members[members.len() - 1];
        inline_of(members.drop_last()).insert(last.0, as_toml(last.1))
    }
}

/// True when the value is an array that holds something, and objects only.
pub open spec fn is_rows(v: JsonView) -> bool {
    match v {
        JsonView::Array(items) => items.len() > 0 && forall|i: int|
            0 <= i < items.len() ==> (#[trigger] items[i]) is Object,
        _ => false,
    }
}

/// What a member of an object stands for in a table made of that object: an array of objects is
/// an array of tables, all else a value.
pub open spec fn entry_of(v: JsonView) -> TomlView
    decreases v, 1int,
{
    match v {
        JsonView::Array(items) => if is_rows(v) {
            TomlView::Sections(rows_of(items))
        } else {
            as_toml(v)
        },
        _ => as_toml(v),
    }
}

/// The tables that an array of objects stands for.
pub open spec fn rows_of(items: Seq<JsonView>) -> Seq<TomlView>
    decreases items, 0int,
{
    Seq::new(
        items.len(),
        |i: int|
            if 0 <= i < items.len() {
                match items[i] {
                    JsonView::Object(members) => TomlView::Section(table_of(members)),
                    _ => TomlView::Absent,
                }
            } else {
                TomlView::Absent
            },
    )
}

/// The members of a JSON object as the keys of a table.
pub open spec fn table_of(members: Seq<(Seq<char>, JsonView)>) -> Map<Seq<char>, TomlView>
    decreases members, 0int,
{
    if members.len() == 0 {
        toml::no_keys()
    } else {
        let last = members[members.len() - 1];
        table_of(members.drop_last()).insert(last.0, entry_of(last.1))
    }
}

/// A table after one member of a patch was merged into it. An object is merged into a table
/// that stands under its key, all else replaces what stands there. A value that holds a null
/// changes nothing, but for what an object had before the null.
pub open spec fn merged_member(
    t: Map<Seq<char>, TomlView>,
    key: Seq<char>,
    v: JsonView,
) -> Map<Seq<char>, TomlView>
    decreases v, 1int,
{
    match v {
        JsonView::Object(members) => if toml::present(t, key) && t[key] is Section {
            t.insert(key, TomlView::Section(merged(t[key]->Section_0, members)))
        } else if has_null(v) {
            t
        } else {
            t.insert(key, as_toml(v))
        },
        _ => if has_null(v) {
            t
        } else {
            t.insert(key, as_toml(v))
        },
    }
}

/// A table after a patch was merged into it: member by member, up to and including the first one
/// that holds a null.
pub open spec fn merged(
    t: Map<Seq<char>, TomlView>,
    patch: Seq<(Seq<char>, JsonView)>,
) -> Map<Seq<char>, TomlView>
    decreases patch, 0int,
{
    if patch.len() == 0 {
        t
    } else {
        let before = merged(t, patch.drop_last());
        if null_within(patch.drop_last()) {
            before
        } else {
            let last = patch[patch.len() - 1];
            merged_member(before, last.0, last.1)
        }
    }
}

/// One member more: the object holds a null when the members before it do, or it does.
proof fn lemma_null_within(members: Seq<(Seq<char>, JsonView)>, i: int)
    requires
        0 <= i < members.len(),
    ensures
        null_within(members.take(i + 1)) == (null_within(members.take(i)) || has_null(
            members[i].1,
        )),
{
    let more = members.take(i + 1);
    let less = members.take(i);
    if null_within(less) {
        let k = choose|k: int| 0 <= k < less.len() && has_null((#[trigger] less[k]).1);
        assert(more[k] == less[k]);
    }
    if has_null(members[i].1) {
        assert(has_null(more[i].1));
    }
    if null_within(more) && !has_null(members[i].1) {
        let k = choose|k: int| 0 <= k < more.len() && has_null((#[trigger] more[k]).1);
        assert(less[k] == more[k]);
    }
}

/// An object whose first members hold a null holds one.
proof fn lemma_null_in_part(members: Seq<(Seq<char>, JsonView)>, i: int)
    requires
        0 <= i <= members.len(),
        null_within(members.take(i)),
    ensures
        null_within(members),
{
    let part = members.take(i);
    let k = choose|k: int| 0 <= k < part.len() && has_null((#[trigger] part[k]).1);
    assert(members[k] == part[k]);
}

/// Merging past the first null changes nothing more.
proof fn lemma_merged_stops(
    t: Map<Seq<char>, TomlView>,
    patch: Seq<(Seq<char>, JsonView)>,
    i: int,
)
    requires
        0 <= i <= patch.len(),
        null_within(patch.take(i)),
    ensures
        merged(t, patch) == merged(t, patch.take(i)),
    decreases patch.len(),
{
    if i < patch.len() {
        let less = patch.drop_last();
        assert(less.take(i) =~= patch.take(i));
        lemma_null_in_part(less, i);
        lemma_merged_stops(t, less, i);
    } else {
        assert(patch.take(i) =~= patch);
    }
}

/// Turns a JSON value into a TOML value: objects become inline tables.
pub fn json_value_to_edit(value: &Json) -> (r: Result<Value, String>)
    ensures
        match r {
            Ok(v) => !has_null(value@) && toml::toml_contents(v) == as_toml(value@),
            Err(e) => has_null(value@) && e@ == null_refused(),
        },
        match *value {
            Json::Null => r is Err,
            Json::Bool(b) => r is Ok && toml::toml_contents(r->Ok_0) == TomlView::Bool(b),
            Json::Text(s) => r is Ok && toml::toml_contents(r->Ok_0) == TomlView::Text(s@),
            Json::Number(n) => r is Ok && (json::number_integer(n) matches Some(i) ==> i64::MIN
                <= i <= i64::MAX ==> toml::toml_contents(r->Ok_0) == TomlView::Integer(i as i64)),
            _ => true,
        },
    decreases value,
{
    match value {
        Json::Null => Err(String::from_str("null values are not allowed in config")),
        Json::Bool(b) => Ok(toml::bool_value(*b)),
        Json::Number(n) => match n.as_i64() {
            Some(i) => Ok(toml::integer_value(i)),
            None => Ok(toml::float_value(n)),
        },
        Json::Text(s) => Ok(toml::text_value(s.as_str())),
        Json::Array(items) => {
            let ghost all = json::array_view(items@);
            let mut array = Array::new();
            let mut i: usize = 0;
            while i < items.len()
                invariant
                    0 <= i <= items.len(),
                    value matches Json::Array(v) && v == items,
                    all == json::array_view(items@),
                    toml::array_contents(array) == list_of(all).take(i as int),
                    forall|k: int| 0 <= k < i ==> !has_null(#[trigger] all[k]),
                decreases items.len() - i,
            {
                assert(all[i as int] == items@[i as int]@);
                match json_value_to_edit(&items[i]) {
                    Ok(v) => {
                        toml::push_value(&mut array, v);
                    },
                    Err(e) => {
                        return Err(e);
                    },
                }
                assert(list_of(all).take(i + 1) =~= list_of(all).take(i as int).push(
                    as_toml(all[i as int]),
                ));
                i += 1;
            }
            assert(list_of(all).take(i as int) =~= list_of(all));
            Ok(toml::array_value(array))
        },
        Json::Object(members) => match json_object_to_inline(members) {
            Ok(t) => Ok(toml::inline_value(t)),
            Err(e) => Err(e),
        },
    }
}

/// Turns the members of a JSON object into an inline table.
pub fn json_object_to_inline(members: &Vec<(String, Json)>) -> (r: Result<InlineTable, String>)
    ensures
        match r {
            Ok(t) => !null_within(json::members_view(members@)) && toml::inline_contents(t)
                == inline_of(json::members_view(members@)),
            Err(e) => null_within(json::members_view(members@)) && e@ == null_refused(),
        },
    decreases members,
{
    let ghost all = json::members_view(members@);
    let mut inline = InlineTable::new();
    let mut i: usize = 0;
    while i < members.len()
        invariant
            0 <= i <= members.len(),
            all == json::members_view(members@),
            toml::inline_contents(inline) == inline_of(all.take(i as int)),
            !null_within(all.take(i as int)),
        decreases members.len() - i,
    {
        assert(all[i as int] == (members@[i as int].0@, members@[i as int].1@));
        proof {
            lemma_null_within(all, i as int);
            assert(all.take(i + 1).drop_last() =~= all.take(i as int));
        }
        match json_value_to_edit(&members[i].1) {
            Ok(v) => {
                toml::insert_value(&mut inline, members[i].0.as_str(), v);
            },
            Err(e) => {
                proof {
                    lemma_null_in_part(all, i + 1);
                }
                return Err(e);
            },
        }
        i += 1;
    }
    assert(all.take(i as int) =~= all);
    Ok(inline)
}

/// True when the value is an array that holds something, and objects only.
fn holds_rows(value: &Json) -> (r: bool)
    ensures
        r == is_rows(value@),
{
    match value {
        Json::Array(items) => {
            let ghost all = json::array_view(items@);
            let mut i: usize = 0;
            while i < items.len()
                invariant
                    0 <= i <= items.len(),
                    value@ == JsonView::Array(all),
                    all == json::array_view(items@),
                    forall|k: int| 0 <= k < i ==> (#[trigger] all[k]) is Object,
                decreases items.len() - i,
            {
                assert(all[i as int] == items@[i as int]@);
                if items[i].as_object().is_none() {
                    return false;
                }
                i += 1;
            }
            items.len() > 0
        },
        _ => false,
    }
}

/// Turns an array of objects into an array of tables.
fn json_rows_to_tables(items: &Vec<Json>) -> (r: Result<ArrayOfTables, String>)
    requires
        is_rows(JsonView::Array(json::array_view(items@))),
    ensures
        match r {
            Ok(a) => !some_null(json::array_view(items@)) && toml::tables_contents(a) == rows_of(
                json::array_view(items@),
            ),
            Err(e) => some_null(json::array_view(items@)) && e@ == null_refused(),
        },
    decreases items,
{
    let ghost all = json::array_view(items@);
    let mut tables = ArrayOfTables::new();
    let mut i: usize = 0;
    while i < items.len()
        invariant
            0 <= i <= items.len(),
            all == json::array_view(items@),
            is_rows(JsonView::Array(all)),
            toml::tables_contents(tables) == rows_of(all).take(i as int),
            forall|k: int| 0 <= k < i ==> !has_null(#[trigger] all[k]),
        decreases items.len() - i,
    {
        assert(all[i as int] == items@[i as int]@);
        if let Json::Object(members) = &items[i] {
            match json_object_to_table(members) {
                Ok(t) => {
                    tables.push(t);
                },
                Err(e) => {
                    assert(has_null(all[i as int]));
                    return Err(e);
                },
            }
        }
        assert(rows_of(all).take(i + 1) =~= rows_of(all).take(i as int).push(
            rows_of(all)[i as int],
        ));
        i += 1;
    }
    assert(rows_of(all).take(i as int) =~= rows_of(all));
    Ok(tables)
}

/// Turns the members of a JSON object into a table: arrays of objects become arrays of tables,
/// objects become inline tables.
pub fn json_object_to_table(members: &Vec<(String, Json)>) -> (r: Result<Table, String>)
    ensures
        match r {
            Ok(t) => !null_within(json::members_view(members@)) && toml::table_contents(t)
                == table_of(json::members_view(members@)),
            Err(e) => null_within(json::members_view(members@)) && e@ == null_refused(),
        },
    decreases members,
{
    let ghost all = json::members_view(members@);
    let mut table = Table::new();
    let mut i: usize = 0;
    while i < members.len()
        invariant
            0 <= i <= members.len(),
            all == json::members_view(members@),
            toml::table_contents(table) == table_of(all.take(i as int)),
            !null_within(all.take(i as int)),
        decreases members.len() - i,
    {
        let value = &members[i].1;
        assert(all[i as int] == (members@[i as int].0@, value@));
        proof {
            lemma_null_within(all, i as int);
            assert(all.take(i + 1).drop_last() =~= all.take(i as int));
            if has_null(value@) {
                lemma_null_in_part(all, i + 1);
            }
        }
        let rows = holds_rows(value);
        let item = match value {
            Json::Array(items) if rows => match json_rows_to_tables(items) {
                Ok(a) => toml::tables_item(a),
                Err(e) => {
                    return Err(e);
                },
            },
            _ => match json_value_to_edit(value) {
                Ok(v) => toml::value_item(v),
                Err(e) => {
                    return Err(e);
                },
            },
        };
        assert(toml::item_contents(item) == entry_of(value@));
        let _ = table.insert(members[i].0.as_str(), item);
        i += 1;
    }
    assert(all.take(i as int) =~= all);
    Ok(table)
}

/// Merges a patch into a table, in depth: an object is merged into a table that stands under its
/// key, all else (absent, inline, scalar) is replaced. It stops at the first null.
pub fn merge_object_into_table(table: &mut Table, patch: &Vec<(String, Json)>) -> (r: Result<
    (),
    String,
>)
    ensures
        toml::table_contents(*final(table)) == merged(
            toml::table_contents(*old(table)),
            json::members_view(patch@),
        ),
        match r {
            Ok(_) => !null_within(json::members_view(patch@)),
            Err(e) => null_within(json::members_view(patch@)) && e@ == null_refused(),
        },
    decreases patch,
{
    let ghost all = json::members_view(patch@);
    let ghost start = toml::table_contents(*table);
    let mut i: usize = 0;
    while i < patch.len()
        invariant
            0 <= i <= patch.len(),
            all == json::members_view(patch@),
            start == toml::table_contents(*old(table)),
            toml::table_contents(*table) == merged(start, all.take(i as int)),
            !null_within(all.take(i as int)),
        decreases patch.len() - i,
    {
        let key = patch[i].0.as_str();
        let value = &patch[i].1;
        let ghost before = toml::table_contents(*table);
        assert(all[i as int] == (key@, value@));
        proof {
            lemma_null_within(all, i as int);
            assert(all.take(i + 1).drop_last() =~= all.take(i as int));
            if has_null(value@) {
                lemma_null_in_part(all, i + 1);
                lemma_merged_stops(start, all, i + 1);
            }
        }
        let outcome = merge_value(table, key, value);
        assert(toml::table_contents(*table) == merged(start, all.take(i + 1)));
        if let Err(e) = outcome {
            return Err(e);
        }
        i += 1;
    }
    assert(all.take(i as int) =~= all);
    Ok(())
}

/// Merges one member of a patch into a table.
fn merge_value(table: &mut Table, key: &str, value: &Json) -> (r: Result<(), String>)
    ensures
        toml::table_contents(*final(table)) == merged_member(
            toml::table_contents(*old(table)),
            key@,
            value@,
        ),
        match r {
            Ok(_) => !has_null(value@),
            Err(e) => has_null(value@) && e@ == null_refused(),
        },
    decreases value,
{
    let ghost before = toml::table_contents(*table);
    if let Json::Object(members) = value {
        if let Some(item) = table.get_mut(key) {
            if let Some(sub) = item.as_table_mut() {
                return merge_object_into_table(sub, members);
            }
        }
        assert(toml::table_contents(*table) =~= before);
    }
    match json_value_to_edit(value) {
        Ok(v) => {
            let _ = table.insert(key, toml::value_item(v));
            Ok(())
        },
        Err(e) => Err(e),
    }
}

/// What a key of a table stands for, if the table has it.
pub open spec fn slot(t: Map<Seq<char>, TomlView>, key: Seq<char>) -> Option<TomlView> {
    if t.contains_key(key) {
        Some(t[key])
    } else {
        None
    }
}

/// What a key stands for after a value without a null was merged into it.
pub open spec fn merged_value(before: Option<TomlView>, v: JsonView) -> TomlView {
    match (before, v) {
        (Some(TomlView::Section(t)), JsonView::Object(members)) => TomlView::Section(
            merged(t, members),
        ),
        _ => as_toml(v),
    }
}

proof fn lemma_merged_member(t: Map<Seq<char>, TomlView>, key: Seq<char>, v: JsonView)
    requires
        !has_null(v),
    ensures
        merged_member(t, key, v) == t.insert(key, merged_value(slot(t, key), v)),
{
}

/// A patch without a null, merged into a table: each of its keys stands for the merge of its
/// value with what stood there, and every other key for what it stood for.
pub proof fn merge_is_pointwise(
    t: Map<Seq<char>, TomlView>,
    patch: Seq<(Seq<char>, JsonView)>,
    key: Seq<char>,
)
    requires
        json::distinct_keys(patch),
        !null_within(patch),
    ensures
        slot(merged(t, patch), key) == match json::lookup(patch, key) {
            Some(v) => Some(merged_value(slot(t, key), v)),
            None => slot(t, key),
        },
    decreases patch.len(),
{
    if patch.len() > 0 {
        let n = patch.len() - 1;
        let less = patch.drop_last();
        assert(less =~= patch.take(n));
        if null_within(less) {
            lemma_null_in_part(patch, n);
        }
        assert(!has_null(patch[n].1));
        merge_is_pointwise(t, less, key);
        json::lemma_lookup_last(patch, key);
        json::lemma_key_index(less, key);
        let k = json::key_index(less, key);
        if k < less.len() {
            assert(patch[k].0 == key);
        }
        lemma_merged_member(merged(t, less), patch[n].0, patch[n].1);
    }
}

proof fn lemma_value_idempotent(before: Option<TomlView>, v: JsonView)
    requires
        json::well_keyed(v),
        !has_null(v),
    ensures
        merged_value(Some(merged_value(before, v)), v) == merged_value(before, v),
    decreases v, 1int,
{
    if let (Some(TomlView::Section(t)), JsonView::Object(members)) = (before, v) {
        merge_is_idempotent(t, members);
    }
}

/// Merging a patch a second time changes nothing.
pub proof fn merge_is_idempotent(
    t: Map<Seq<char>, TomlView>,
    patch: Seq<(Seq<char>, JsonView)>,
)
    requires
        json::well_keyed(JsonView::Object(patch)),
        !null_within(patch),
    ensures
        merged(merged(t, patch), patch) == merged(t, patch),
    decreases patch, 0int,
{
    let once = merged(t, patch);
    let twice = merged(once, patch);
    assert forall|key: Seq<char>| slot(twice, key) == slot(once, key) by {
        merge_is_pointwise(t, patch, key);
        merge_is_pointwise(once, patch, key);
        json::lemma_key_index(patch, key);
        let i = json::key_index(patch, key);
        if i < patch.len() {
            assert(!has_null(patch[i].1));
            assert(json::well_keyed(patch[i].1));
            assert(decreases_to!(patch => patch[i]));
            assert(decreases_to!(patch[i] => patch[i].1));
            lemma_value_idempotent(slot(t, key), patch[i].1);
        }
    }
    assert forall|key: Seq<char>| twice.contains_key(key) == once.contains_key(key) by {
        assert(slot(twice, key) == slot(once, key));
    }
    assert forall|key: Seq<char>| once.contains_key(key) implies twice[key] == once[key] by {
        assert(slot(twice, key) == slot(once, key));
    }
    assert(twice =~= once);
}

/// A table made of an object has the object's keys, each standing for its value.
pub proof fn table_is_pointwise(members: Seq<(Seq<char>, JsonView)>, key: Seq<char>)
    requires
        json::distinct_keys(members),
    ensures
        slot(table_of(members), key) == match json::lookup(members, key) {
            Some(v) => Some(entry_of(v)),
            None => None,
        },
    decreases members.len(),
{
    if members.len() > 0 {
        table_is_pointwise(members.drop_last(), key);
        json::lemma_lookup_last(members, key);
    }
}

/// True for the last member of its name.
pub open spec fn is_last(members: Seq<(Seq<char>, JsonView)>, i: int) -> bool {
    0 <= i < members.len() && forall|j: int|
        i < j < members.len() ==> (#[trigger] members[j]).0 != members[i].0
}

/// True when a place in a document says what a JSON value does: the same boolean, the same text,
/// the same integer or else the number's float, the same elements in the same order, and under
/// each name what the last member of that name says, and no other name.
pub open spec fn says(t: TomlView, v: JsonView) -> bool
    decreases v, 1int,
{
    match v {
        JsonView::Null => false,
        JsonView::Bool(b) => t == TomlView::Bool(b),
        JsonView::Text(s) => t == TomlView::Text(s),
        JsonView::Number(n) => match json::number_integer(n) {
            Some(i) => if i64::MIN <= i <= i64::MAX {
                t == TomlView::Integer(i as i64)
            } else {
                t == TomlView::Float(Some(json::number_float(n)))
            },
            None => t == TomlView::Float(Some(json::number_float(n))),
        },
        JsonView::Array(items) => match t {
            TomlView::List(places) => all_say(places, items),
            TomlView::Sections(places) => all_say(places, items),
            _ => false,
        },
        JsonView::Object(members) => match t {
            TomlView::Inline(keys) => keys_say(keys, members),
            TomlView::Section(keys) => keys_say(keys, members),
            _ => false,
        },
    }
}

/// True when places say what the elements of an array do, one by one.
pub open spec fn all_say(places: Seq<TomlView>, items: Seq<JsonView>) -> bool
    decreases items, 0int,
{
    places.len() == items.len() && forall|i: int|
        0 <= i < items.len() ==> says(places[i], #[trigger] items[i])
}

/// True when keys say what the members of an object do, and there are no other keys.
pub open spec fn keys_say(
    keys: Map<Seq<char>, TomlView>,
    members: Seq<(Seq<char>, JsonView)>,
) -> bool
    decreases members, 0int,
{
    &&& forall|i: int|
        0 <= i < members.len() && is_last(members, i) ==> keys.contains_key(
            (#[trigger] members[i]).0,
        ) && says(keys[members[i].0], members[i].1)
    &&& forall|key: Seq<char>|
        keys.contains_key(key) ==> exists|i: int|
            0 <= i < members.len() && (#[trigger] members[i]).0 == key
}

/// What the keys are that an object's members become, by either way of making a table.
proof fn lemma_keys(members: Seq<(Seq<char>, JsonView)>)
    ensures
        forall|i: int|
            is_last(members, i) ==> inline_of(members).contains_key((#[trigger] members[i]).0)
                && inline_of(members)[members[i].0] == as_toml(members[i].1) && table_of(
                members,
            ).contains_key(members[i].0) && table_of(members)[members[i].0] == entry_of(
                members[i].1,
            ),
        forall|key: Seq<char>|
            #![trigger inline_of(members).contains_key(key)]
            #![trigger table_of(members).contains_key(key)]
            inline_of(members).contains_key(key) || table_of(members).contains_key(key)
                ==> exists|i: int| 0 <= i < members.len() && (#[trigger] members[i]).0 == key,
    decreases members.len(),
{
    if members.len() > 0 {
        let less = members.drop_last();
        let n = members.len() - 1;
        lemma_keys(less);
        assert forall|i: int| is_last(members, i) implies inline_of(members).contains_key(
            (#[trigger] members[i]).0,
        ) && inline_of(members)[members[i].0] == as_toml(members[i].1) && table_of(
            members,
        ).contains_key(members[i].0) && table_of(members)[members[i].0] == entry_of(
            members[i].1,
        ) by {
            if i < n {
                assert(members[n].0 != members[i].0);
                assert forall|j: int| i < j < less.len() implies (#[trigger] less[j]).0
                    != less[i].0 by {
                    assert(members[j].0 != members[i].0);
                }
                assert(is_last(less, i));
                assert(less[i] == members[i]);
            }
        }
        assert forall|key: Seq<char>|
            #![trigger inline_of(members).contains_key(key)]
            #![trigger table_of(members).contains_key(key)]
            inline_of(members).contains_key(key) || table_of(members).contains_key(
                key,
            ) implies exists|i: int| 0 <= i < members.len() && (#[trigger] members[i]).0 == key by {
            if members[n].0 != key {
                assert(inline_of(less).contains_key(key) || table_of(less).contains_key(key));
                let i = choose|i: int| 0 <= i < less.len() && (#[trigger] less[i]).0 == key;
                assert(members[i].0 == key);
            }
        }
    }
}

/// The elements of an array without a null say the same as a list, and as tables where they are
/// objects.
proof fn lemma_items_say(items: Seq<JsonView>)
    requires
        !some_null(items),
    ensures
        all_say(list_of(items), items),
        is_rows(JsonView::Array(items)) ==> all_say(rows_of(items), items),
    decreases items, 0int,
{
    assert forall|i: int| 0 <= i < items.len() implies says(
        list_of(items)[i],
        #[trigger] items[i],
    ) && (is_rows(JsonView::Array(items)) ==> says(rows_of(items)[i], items[i])) by {
        assert(!has_null(items[i]));
        assert(decreases_to!(items => items[i]));
        a_converted_value_says_the_same(items[i]);
    }
}

/// The members of an object without a null say the same in either kind of table.
proof fn lemma_members_say(members: Seq<(Seq<char>, JsonView)>)
    requires
        !null_within(members),
    ensures
        keys_say(inline_of(members), members),
        keys_say(table_of(members), members),
    decreases members, 0int,
{
    lemma_keys(members);
    assert forall|i: int| 0 <= i < members.len() && is_last(members, i) implies says(
        inline_of(members)[members[i].0],
        (#[trigger] members[i]).1,
    ) && says(table_of(members)[members[i].0], members[i].1) by {
        assert(!has_null(members[i].1));
        assert(decreases_to!(members => members[i]));
        assert(decreases_to!(members[i] => members[i].1));
        a_converted_value_says_the_same(members[i].1);
    }
}

/// A value that is turned into TOML says there what it said, at every depth: as a value behind a
/// key, as the member of a table, and an object as a table too.
pub proof fn a_converted_value_says_the_same(v: JsonView)
    requires
        !has_null(v),
    ensures
        says(as_toml(v), v),
        says(entry_of(v), v),
        v matches JsonView::Object(members) ==> says(TomlView::Section(table_of(members)), v),
    decreases v, 1int,
{
    match v {
        JsonView::Array(items) => {
            assert(decreases_to!(v => v->Array_0));
            lemma_items_say(items);
        },
        JsonView::Object(members) => {
            assert(decreases_to!(v => v->Object_0));
            lemma_members_say(members);
        },
        _ => {},
    }
}

/// Scalars stay what they are, and two of them become the same only where they are the same.
pub proof fn scalars_stay_what_they_are(b: bool, s: Seq<char>, i: int, n: serde_json::Number)
    requires
        json::number_integer(n) == Some(i),
        i64::MIN <= i <= i64::MAX,
    ensures
        as_toml(JsonView::Bool(b)) == TomlView::Bool(b),
        as_toml(JsonView::Text(s)) == TomlView::Text(s),
        as_toml(JsonView::Number(n)) == TomlView::Integer(i as i64),
        entry_of(JsonView::Bool(b)) == TomlView::Bool(b),
        entry_of(JsonView::Text(s)) == TomlView::Text(s),
        entry_of(JsonView::Number(n)) == TomlView::Integer(i as i64),
{
}

/// What an object and an array become: a value of a table is an inline table or a list, but an
/// array of one object or more, and nothing else, becomes an array of tables.
pub proof fn arrays_of_objects_become_tables(
    items: Seq<JsonView>,
    members: Seq<(Seq<char>, JsonView)>,
)
    ensures
        as_toml(JsonView::Object(members)) is Inline,
        entry_of(JsonView::Object(members)) is Inline,
        as_toml(JsonView::Array(items)) is List,
        entry_of(JsonView::Array(items)) is Sections <==> items.len() > 0 && forall|i: int|
            0 <= i < items.len() ==> (#[trigger] items[i]) is Object,
        !(entry_of(JsonView::Array(items)) is Sections) ==> entry_of(
            JsonView::Array(items),
        ) is List,
        entry_of(JsonView::Array(items)) matches TomlView::Sections(rows) ==> forall|i: int|
            0 <= i < rows.len() ==> (#[trigger] rows[i]) is Section,
{
}

/// A null is refused wherever it stands, and nothing else is.
pub proof fn only_nulls_are_refused(
    b: bool,
    s: Seq<char>,
    n: serde_json::Number,
    items: Seq<JsonView>,
    members: Seq<(Seq<char>, JsonView)>,
)
    ensures
        has_null(JsonView::Null),
        !has_null(JsonView::Bool(b)),
        !has_null(JsonView::Text(s)),
        !has_null(JsonView::Number(n)),
        has_null(JsonView::Array(items)) <==> exists|i: int|
            0 <= i < items.len() && has_null(#[trigger] items[i]),
        has_null(JsonView::Object(members)) <==> exists|i: int|
            0 <= i < members.len() && has_null((#[trigger] members[i]).1),
        null_within(members) <==> has_null(JsonView::Object(members)),
{
}

/// After a patch without a null was merged into a table, each of its keys says what the patch
/// does; only an object that meets a table is merged into that in turn. Every other key is what
/// it was.
pub proof fn a_merged_table_says_what_the_patch_does(
    t: Map<Seq<char>, TomlView>,
    patch: Seq<(Seq<char>, JsonView)>,
    key: Seq<char>,
)
    requires
        json::distinct_keys(patch),
        !null_within(patch),
    ensures
        json::lookup(patch, key) is None ==> merged(t, patch).contains_key(key)
            == t.contains_key(key) && (t.contains_key(key) ==> merged(t, patch)[key] == t[key]),
        json::lookup(patch, key) matches Some(v) ==> {
            &&& merged(t, patch).contains_key(key)
            &&& !(v is Object) || !t.contains_key(key) || !(t[key] is Section) ==> says(
                merged(t, patch)[key],
                v,
            )
            &&& v matches JsonView::Bool(b) ==> merged(t, patch)[key] == TomlView::Bool(b)
            &&& v matches JsonView::Text(s) ==> merged(t, patch)[key] == TomlView::Text(s)
            &&& v is Object && t.contains_key(key) && t[key] is Section ==> merged(t, patch)[key]
                == TomlView::Section(merged(t[key]->Section_0, v->Object_0))
        },
{
    merge_is_pointwise(t, patch, key);
    json::lemma_key_index(patch, key);
    let i = json::key_index(patch, key);
    assert(slot(merged(t, patch), key) == match json::lookup(patch, key) {
        Some(v) => Some(merged_value(slot(t, key), v)),
        None => slot(t, key),
    });
    if i < patch.len() {
        assert(!has_null(patch[i].1));
        a_converted_value_says_the_same(patch[i].1);
    }
}

/// A value is turned into TOML exactly where it holds no null, and then says there what it said: a
/// boolean stays that boolean, a text that text, and an integer that integer.
pub proof fn json_value_to_edit_keeps_the_value(value: &Json, r: Result<Value, String>)
    requires
        call_ensures(json_value_to_edit, (value,), r),
    ensures
        r is Ok <==> !has_null(value@),
        r matches Ok(v) ==> says(toml::toml_contents(v), value@),
        value@ matches JsonView::Bool(b) ==> r is Ok && toml::toml_contents(r->Ok_0)
            == TomlView::Bool(b),
        value@ matches JsonView::Text(s) ==> r is Ok && toml::toml_contents(r->Ok_0)
            == TomlView::Text(s),
        r matches Err(why) ==> why@ == "null values are not allowed in config"@,
{
    if !has_null(value@) {
        a_converted_value_says_the_same(value@);
    }
}

/// An object is turned into a table exactly where it holds no null, and the table then says what
/// the object did.
pub proof fn json_object_to_table_keeps_the_members(
    members: &Vec<(String, Json)>,
    r: Result<Table, String>,
)
    requires
        call_ensures(json_object_to_table, (members,), r),
    ensures
        r is Ok <==> !has_null(JsonView::Object(json::members_view(members@))),
        r matches Ok(t) ==> says(
            TomlView::Section(toml::table_contents(t)),
            JsonView::Object(json::members_view(members@)),
        ),
{
    let v = JsonView::Object(json::members_view(members@));
    if !has_null(v) {
        a_converted_value_says_the_same(v);
    }
}

} // verus!
