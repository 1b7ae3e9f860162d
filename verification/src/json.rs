//! JSON values as plain data, reading them from bytes and writing them as text.

use crate::text::same_text;
use serde_json::{Number, Value};
use vstd::prelude::*;
use vstd::string::*;

verus! {

/// `serde_json::Value`: a parsed JSON value, looked into by [`open_value`] only.
#[verifier::external_type_specification]
#[verifier::external_body]
pub struct ExValue(serde_json::Value);

/// `serde_json::Number`: a JSON number, an integer or a finite float.
#[verifier::external_type_specification]
#[verifier::external_body]
pub struct ExNumber(serde_json::Number);

/// `serde_json::Map`: the members of an object.
#[verifier::external_type_specification]
#[verifier::external_body]
#[verifier::reject_recursive_types(K)]
#[verifier::reject_recursive_types(V)]
pub struct ExMembers<K, V>(serde_json::Map<K, V>);

/// `serde_json::Error`: why bytes are not JSON.
#[verifier::external_type_specification]
#[verifier::external_body]
pub struct ExJsonError(serde_json::Error);

/// A JSON value. An object keeps its members in the order in which they were met.
#[derive(Debug, PartialEq)]
pub enum Json {
    Null,
    Bool(bool),
    Number(Number),
    Text(String),
    Array(Vec<Json>),
    Object(Vec<(String, Json)>),
}

/// What a [`Json`] holds.
pub enum JsonView {
    Null,
    Bool(bool),
    Number(Number),
    Text(Seq<char>),
    Array(Seq<JsonView>),
    Object(Seq<(Seq<char>, JsonView)>),
}

impl View for Json {
    type V = JsonView;

    open spec fn view(&self) -> JsonView
        decreases self, 1int,
    {
        match self {
            Json::Null => JsonView::Null,
            Json::Bool(b) => JsonView::Bool(*b),
            Json::Number(n) => JsonView::Number(*n),
            Json::Text(s) => JsonView::Text(s@),
            Json::Array(items) => JsonView::Array(array_view(items@)),
            Json::Object(members) => JsonView::Object(members_view(members@)),
        }
    }
}

/// The values of an array's elements.
pub open spec fn array_view(items: Seq<Json>) -> Seq<JsonView>
    decreases items, 0int,
{
    Seq::new(
        items.len(),
        |i: int|
            if 0 <= i < items.len() {
                items[i]@
            } else {
                JsonView::Null
            },
    )
}

/// The members of an object.
pub open spec fn members_view(members: Seq<(String, Json)>) -> Seq<(Seq<char>, JsonView)>
    decreases members, 0int,
{
    Seq::new(
        members.len(),
        |i: int|
            if 0 <= i < members.len() {
                (members[i].0@, members[i].1@)
            } else {
                (Seq::<char>::empty(), JsonView::Null)
            },
    )
}

/// True when no two members have one name.
pub open spec fn distinct_keys(members: Seq<(Seq<char>, JsonView)>) -> bool {
    forall|i: int, j: int|
        0 <= i < j < members.len() ==> (#[trigger] members[i]).0 != (#[trigger] members[j]).0
}

/// True when no object in the value, at any depth, has two members of one name.
pub open spec fn well_keyed(v: JsonView) -> bool
    decreases v,
{
    match v {
        JsonView::Array(items) => forall|i: int|
            0 <= i < items.len() ==> well_keyed(#[trigger] items[i]),
        JsonView::Object(members) => distinct_keys(members) && forall|i: int|
            0 <= i < members.len() ==> well_keyed((#[trigger] members[i]).1),
        _ => true,
    }
}

/// The position of the first member named `key`, or the number of members when there is none.
pub open spec fn key_index(members: Seq<(Seq<char>, JsonView)>, key: Seq<char>) -> int
    decreases members.len(),
{
    if members.len() == 0 {
        0
    } else if members.first().0 == key {
        0
    } else {
        1 + key_index(members.drop_first(), key)
    }
}

/// The value of the member named `key`.
pub open spec fn lookup(members: Seq<(Seq<char>, JsonView)>, key: Seq<char>) -> Option<JsonView> {
    let i = key_index(members, key);
    if i < members.len() {
        Some(members[i].1)
    } else {
        None
    }
}

/// The members after `key` was given `value`: replaced where it is present, else appended.
pub open spec fn with_member(
    members: Seq<(Seq<char>, JsonView)>,
    key: Seq<char>,
    value: JsonView,
) -> Seq<(Seq<char>, JsonView)> {
    let i = key_index(members, key);
    if i < members.len() {
        members.update(i, (key, value))
    } else {
        members.push((key, value))
    }
}

/// [`key_index`] is the first position that holds `key`.
pub proof fn lemma_key_index(members: Seq<(Seq<char>, JsonView)>, key: Seq<char>)
    ensures
        0 <= key_index(members, key) <= members.len(),
        key_index(members, key) < members.len() ==> members[key_index(members, key)].0 == key,
        forall|j: int| 0 <= j < key_index(members, key) ==> (#[trigger] members[j]).0 != key,
    decreases members.len(),
{
    if members.len() > 0 && members.first().0 != key {
        let rest = members.drop_first();
        lemma_key_index(rest, key);
        assert forall|j: int| 0 <= j < key_index(members, key) implies (#[trigger] members[j]).0
            != key by {
            if j > 0 {
                assert(members[j] == rest[j - 1]);
            }
        }
    }
}

/// A position that holds `key`, with no earlier one, is [`key_index`].
pub proof fn lemma_key_index_unique(
    members: Seq<(Seq<char>, JsonView)>,
    key: Seq<char>,
    i: int,
)
    requires
        0 <= i <= members.len(),
        i < members.len() ==> members[i].0 == key,
        forall|j: int| 0 <= j < i ==> (#[trigger] members[j]).0 != key,
    ensures
        key_index(members, key) == i,
{
    lemma_key_index(members, key);
    let k = key_index(members, key);
    if k < i {
        assert(members[k].0 != key);
    }
    if i < k {
        assert(members[i].0 != key);
    }
}

/// Where no name occurs twice, the last member is found by its name, and the others as before.
pub proof fn lemma_lookup_last(members: Seq<(Seq<char>, JsonView)>, key: Seq<char>)
    requires
        members.len() > 0,
        distinct_keys(members),
    ensures
        lookup(members, key) == if members.last().0 == key {
            Some(members.last().1)
        } else {
            lookup(members.drop_last(), key)
        },
{
    let n = members.len() - 1;
    let less = members.drop_last();
    lemma_key_index(less, key);
    if members[n].0 == key {
        assert forall|j: int| 0 <= j < n implies (#[trigger] members[j]).0 != key by {
            assert(members[j].0 != members[n].0);
        }
        lemma_key_index_unique(members, key, n);
    } else {
        let i = key_index(less, key);
        assert forall|j: int| 0 <= j < i implies (#[trigger] members[j]).0 != key by {
            assert(less[j].0 != key);
        }
        if i < less.len() {
            assert(less[i] == members[i]);
            lemma_key_index_unique(members, key, i);
        } else {
            lemma_key_index_unique(members, key, members.len() as int);
        }
    }
}

/// Setting a member gives that member the value and leaves every other one as it was.
pub proof fn lemma_with_member(
    members: Seq<(Seq<char>, JsonView)>,
    key: Seq<char>,
    value: JsonView,
    other: Seq<char>,
)
    ensures
        lookup(with_member(members, key, value), key) == Some(value),
        other != key ==> lookup(with_member(members, key, value), other) == lookup(members, other),
{
    lemma_key_index(members, key);
    lemma_key_index(members, other);
    let i = key_index(members, key);
    let out = with_member(members, key, value);
    assert forall|j: int| 0 <= j < i implies (#[trigger] out[j]).0 != key by {
        assert(members[j].0 != key);
    }
    lemma_key_index_unique(out, key, i);
    if other != key {
        let k = key_index(members, other);
        if k < members.len() {
            assert forall|j: int| 0 <= j < k implies (#[trigger] out[j]).0 != other by {
                assert(members[j].0 != other);
            }
            lemma_key_index_unique(out, other, k);
        } else {
            assert forall|j: int| 0 <= j < out.len() implies (#[trigger] out[j]).0 != other by {
                if j < members.len() {
                    assert(members[j].0 != other);
                }
            }
            lemma_key_index_unique(out, other, out.len() as int);
        }
    }
}

impl JsonView {
    /// The member named `key`, when this is an object that has it.
    pub open spec fn get(self, key: Seq<char>) -> Option<JsonView> {
        match self {
            JsonView::Object(members) => lookup(members, key),
            _ => None,
        }
    }

    /// The characters, when this is a string.
    pub open spec fn as_text(self) -> Option<Seq<char>> {
        match self {
            JsonView::Text(s) => Some(s),
            _ => None,
        }
    }

    /// The string held by the member named `key`.
    pub open spec fn get_text(self, key: Seq<char>) -> Option<Seq<char>> {
        match self.get(key) {
            Some(v) => v.as_text(),
            None => None,
        }
    }
}

/// The view of an optional value.
pub open spec fn opt_json(j: Option<Json>) -> Option<JsonView> {
    match j {
        Some(v) => Some(v@),
        None => None,
    }
}

/// The position of the first member named `key`, or the number of members.
pub fn find_key(members: &Vec<(String, Json)>, key: &str) -> (i: usize)
    ensures
        i == key_index(members_view(members@), key@),
{
    let ghost all = members_view(members@);
    let mut i: usize = 0;
    while i < members.len()
        invariant
            0 <= i <= members.len(),
            all == members_view(members@),
            forall|j: int| 0 <= j < i ==> (#[trigger] all[j]).0 != key@,
        decreases members.len() - i,
    {
        assert(all[i as int].0 == members@[i as int].0@);
        if same_text(members[i].0.as_str(), key) {
            proof {
                lemma_key_index_unique(all, key@, i as int);
            }
            return i;
        }
        i += 1;
    }
    proof {
        lemma_key_index_unique(all, key@, i as int);
    }
    i
}

/// The value of the member named `key`.
pub fn member<'a>(members: &'a Vec<(String, Json)>, key: &str) -> (r: Option<&'a Json>)
    ensures
        match r {
            Some(v) => lookup(members_view(members@), key@) == Some(v@),
            None => lookup(members_view(members@), key@) is None,
        },
{
    let i = find_key(members, key);
    if i < members.len() {
        Some(&members[i].1)
    } else {
        None
    }
}

/// Sets the member named `key`: replaced where it is present, else appended.
pub fn set_member(members: &mut Vec<(String, Json)>, key: &str, value: Json)
    ensures
        members_view(final(members)@) == with_member(members_view(old(members)@), key@, value@),
{
    let i = find_key(members, key);
    let ghost before = members_view(members@);
    proof {
        lemma_key_index(before, key@);
    }
    if i < members.len() {
        members.set(i, (String::from_str(key), value));
        assert(members_view(members@) =~= before.update(i as int, (key@, value@)));
    } else {
        members.push((String::from_str(key), value));
        assert(members_view(members@) =~= before.push((key@, value@)));
    }
}

/// Appends a member.
pub fn push_member(members: &mut Vec<(String, Json)>, key: &str, value: Json)
    ensures
        members_view(final(members)@) == members_view(old(members)@).push((key@, value@)),
{
    let ghost before = members_view(members@);
    members.push((String::from_str(key), value));
    assert(members_view(members@) =~= before.push((key@, value@)));
}

impl Clone for Json {
    fn clone(&self) -> (r: Json)
        ensures
            r@ == self@,
        decreases self,
    {
        match self {
            Json::Null => Json::Null,
            Json::Bool(b) => Json::Bool(*b),
            Json::Number(n) => Json::Number(copy_number(n)),
            Json::Text(s) => Json::Text(s.clone()),
            Json::Array(items) => {
                let mut out: Vec<Json> = Vec::new();
                let mut i: usize = 0;
                while i < items.len()
                    invariant
                        0 <= i <= items.len(),
                        self matches Json::Array(v) && v == items,
                        array_view(out@) == array_view(items@).take(i as int),
                    decreases items.len() - i,
                {
                    let ghost before = array_view(out@);
                    out.push(items[i].clone());
                    assert(array_view(out@) =~= before.push(items@[i as int]@));
                    assert(array_view(items@).take(i + 1) =~= before.push(items@[i as int]@));
                    i += 1;
                }
                assert(array_view(out@) =~= array_view(items@));
                Json::Array(out)
            },
            Json::Object(members) => Json::Object(copy_members(members)),
        }
    }
}

/// A copy of an object's members.
pub fn copy_members(members: &Vec<(String, Json)>) -> (out: Vec<(String, Json)>)
    ensures
        members_view(out@) == members_view(members@),
    decreases members,
{
    let mut out: Vec<(String, Json)> = Vec::new();
    let mut i: usize = 0;
    while i < members.len()
        invariant
            0 <= i <= members.len(),
            members_view(out@) == members_view(members@).take(i as int),
        decreases members.len() - i,
    {
        let ghost before = members_view(out@);
        let value = members[i].1.clone();
        out.push((members[i].0.clone(), value));
        let ghost added = (members@[i as int].0@, members@[i as int].1@);
        assert(members_view(out@) =~= before.push(added));
        assert(members_view(members@).take(i + 1) =~= before.push(added));
        i += 1;
    }
    assert(members_view(out@) =~= members_view(members@));
    out
}

impl Json {
    /// A string value.
    pub fn text(s: &str) -> (r: Json)
        ensures
            r@ == JsonView::Text(s@),
    {
        Json::Text(String::from_str(s))
    }

    /// The member named `key`, when this is an object that has it.
    pub fn get(&self, key: &str) -> (r: Option<&Json>)
        ensures
            match r {
                Some(v) => self@.get(key@) == Some(v@),
                None => self@.get(key@) is None,
            },
    {
        match self {
            Json::Object(members) => member(members, key),
            _ => None,
        }
    }

    /// The characters, when this is a string.
    pub fn as_text(&self) -> (r: Option<&str>)
        ensures
            match r {
                Some(s) => self@.as_text() == Some(s@),
                None => self@.as_text() is None,
            },
    {
        match self {
            Json::Text(s) => Some(s.as_str()),
            _ => None,
        }
    }

    /// The string held by the member named `key`.
    pub fn get_text(&self, key: &str) -> (r: Option<&str>)
        ensures
            match r {
                Some(s) => self@.get_text(key@) == Some(s@),
                None => self@.get_text(key@) is None,
            },
    {
        match self.get(key) {
            Some(v) => v.as_text(),
            None => None,
        }
    }

    /// The elements, when this is an array.
    pub fn as_array(&self) -> (r: Option<&Vec<Json>>)
        ensures
            match r {
                Some(items) => self@ == JsonView::Array(array_view(items@)),
                None => !(self@ is Array),
            },
    {
        match self {
            Json::Array(items) => Some(items),
            _ => None,
        }
    }

    /// The members, when this is an object.
    pub fn as_object(&self) -> (r: Option<&Vec<(String, Json)>>)
        ensures
            match r {
                Some(members) => self@ == JsonView::Object(members_view(members@)),
                None => !(self@ is Object),
            },
    {
        match self {
            Json::Object(members) => Some(members),
            _ => None,
        }
    }
}

/// A copy of an optional value.
pub fn copy_opt_json(j: &Option<Json>) -> (r: Option<Json>)
    ensures
        opt_json(r) == opt_json(*j),
{
    match j {
        Some(v) => Some(v.clone()),
        None => None,
    }
}

/// The integer that a `serde_json::Number` holds (`Number::as_i128`): nothing for a float.
pub uninterp spec fn number_integer(n: Number) -> Option<int>;

/// The number that `serde_json::Number::from_i128` makes of an integer.
pub uninterp spec fn number_of(i: int) -> Number;

/// The float nearest to a number (`Number::as_f64`), as the JSON number of that float
/// (`Number::from_f64`).
pub uninterp spec fn number_float(n: Number) -> Number;

/// The integer that a number holds, where it is one and fits an `i64`.
pub open spec fn number_i64(n: Number) -> Option<i64> {
    match number_integer(n) {
        Some(i) => if i64::MIN <= i <= i64::MAX {
            Some(i as i64)
        } else {
            None
        },
        None => None,
    }
}

/// `serde_json::Number::as_i64`: the integer, where the number is one and fits.
pub assume_specification[ serde_json::Number::as_i64 ](n: &serde_json::Number) -> (r: Option<i64>)
    ensures
        r == number_i64(*n),
;

/// `serde_json::Number::from_i128` on what a JSON integer can be: it gives a number, and that
/// number holds the integer.
#[verifier::external_body]
pub(crate) fn integer_number(i: i128) -> (r: Number)
    requires
        i64::MIN <= i <= u64::MAX,
    ensures
        r == number_of(i as int),
        number_integer(r) == Some(i as int),
{
    Number::from_i128(i).unwrap()
}

/// `serde_json::Number::as_f64` followed by `Number::from_f64`: every number reads as a finite
/// float, and a float reads as itself.
#[verifier::external_body]
pub(crate) fn float_number(n: &Number) -> (r: Number)
    ensures
        r == number_float(*n),
        number_integer(r) is None,
        number_integer(*n) is None ==> r == *n,
{
    n.as_f64().and_then(Number::from_f64).unwrap()
}

/// What `serde_json::Value` holds, taken as plain data.
pub uninterp spec fn value_contents(v: Value) -> JsonView;

/// What `serde_json::from_slice` reads bytes as: nothing where they are not one JSON value.
pub uninterp spec fn json_of_bytes(bytes: Seq<u8>) -> Option<JsonView>;

/// One level of a `serde_json::Value`.
pub enum Opened<'a> {
    Null,
    Bool(bool),
    Number(&'a Number),
    Text(&'a String),
    Array(&'a Vec<Value>),
    Object(Vec<(&'a String, &'a Value)>),
}

/// What the opened level stands for.
pub open spec fn opened_contents(o: Opened) -> JsonView {
    match o {
        Opened::Null => JsonView::Null,
        Opened::Bool(b) => JsonView::Bool(b),
        Opened::Number(n) => JsonView::Number(*n),
        Opened::Text(s) => JsonView::Text(s@),
        Opened::Array(items) => JsonView::Array(items@.map_values(|v: Value| value_contents(v))),
        Opened::Object(members) => JsonView::Object(
            members@.map_values(|m: (&String, &Value)| (m.0@, value_contents(*m.1))),
        ),
    }
}

/// `serde_json::from_slice` into `serde_json::Value`. It succeeds on the bytes that
/// [`json_of_bytes`] names a value for, and the value then holds just that.
#[verifier::external_body]
fn read_value(bytes: &[u8]) -> (r: Result<Value, serde_json::Error>)
    ensures
        match r {
            Ok(v) => json_of_bytes(bytes@) == Some(value_contents(v)),
            Err(_) => json_of_bytes(bytes@) is None,
        },
{
    serde_json::from_slice(bytes)
}

/// The variants of `serde_json::Value`: tells them apart and hands out the fields, an object's
/// members in the order in which `serde_json::Map::iter` gives them, each key once.
#[verifier::external_body]
fn open_value(v: &Value) -> (r: Opened<'_>)
    ensures
        opened_contents(r) == value_contents(*v),
        match opened_contents(r) {
            JsonView::Object(members) => distinct_keys(members),
            _ => true,
        },
{
    match v {
        Value::Null => Opened::Null,
        Value::Bool(b) => Opened::Bool(*b),
        Value::Number(n) => Opened::Number(n),
        Value::String(s) => Opened::Text(s),
        Value::Array(items) => Opened::Array(items),
        Value::Object(members) => Opened::Object(members.iter().collect()),
    }
}

/// A parsed value as plain data.
fn json_of_value(v: &Value) -> (j: Json)
    ensures
        j@ == value_contents(*v),
        well_keyed(j@),
    decreases value_contents(*v),
{
    match open_value(v) {
        Opened::Null => Json::Null,
        Opened::Bool(b) => Json::Bool(b),
        Opened::Number(n) => Json::Number(copy_number(n)),
        Opened::Text(s) => Json::Text(s.clone()),
        Opened::Array(items) => {
            let ghost all = items@.map_values(|v: Value| value_contents(v));
            let mut out: Vec<Json> = Vec::new();
            let mut i: usize = 0;
            while i < items.len()
                invariant
                    0 <= i <= items.len(),
                    all == items@.map_values(|v: Value| value_contents(v)),
                    value_contents(*v) == JsonView::Array(all),
                    array_view(out@) == all.take(i as int),
                    forall|k: int| 0 <= k < i ==> well_keyed(#[trigger] all[k]),
                decreases items.len() - i,
            {
                assert(all[i as int] == value_contents(items@[i as int]));
                let ghost whole = value_contents(*v);
                assert(decreases_to!(whole => whole->Array_0));
                assert(decreases_to!(whole->Array_0 => whole->Array_0[i as int]));
                let ghost before = array_view(out@);
                out.push(json_of_value(&items[i]));
                assert(array_view(out@) =~= before.push(all[i as int]));
                assert(all.take(i + 1) =~= before.push(all[i as int]));
                i += 1;
            }
            assert(all.take(i as int) =~= all);
            Json::Array(out)
        },
        Opened::Object(members) => {
            let ghost all = members@.map_values(
                |m: (&String, &Value)| (m.0@, value_contents(*m.1)),
            );
            let mut out: Vec<(String, Json)> = Vec::new();
            let mut i: usize = 0;
            while i < members.len()
                invariant
                    0 <= i <= members.len(),
                    all == members@.map_values(
                        |m: (&String, &Value)| (m.0@, value_contents(*m.1)),
                    ),
                    value_contents(*v) == JsonView::Object(all),
                    distinct_keys(all),
                    members_view(out@) == all.take(i as int),
                    forall|k: int| 0 <= k < i ==> well_keyed((#[trigger] all[k]).1),
                decreases members.len() - i,
            {
                assert(all[i as int] == (
                    members@[i as int].0@,
                    value_contents(*members@[i as int].1),
                ));
                let ghost whole = value_contents(*v);
                assert(decreases_to!(whole => whole->Object_0));
                assert(decreases_to!(whole->Object_0 => whole->Object_0[i as int]));
                assert(decreases_to!(whole->Object_0[i as int] => whole->Object_0[i as int].1));
                let ghost before = members_view(out@);
                let value = json_of_value(members[i].1);
                out.push((members[i].0.clone(), value));
                assert(members_view(out@) =~= before.push(all[i as int]));
                assert(all.take(i + 1) =~= before.push(all[i as int]));
                i += 1;
            }
            assert(all.take(i as int) =~= all);
            Json::Object(out)
        },
    }
}

/// Reads bytes as one JSON value; nothing where they are not.
pub fn parse_json(bytes: &[u8]) -> (r: Option<Json>)
    ensures
        opt_json(r) == json_of_bytes(bytes@),
        r matches Some(j) ==> well_keyed(j@),
{
    match read_value(bytes) {
        Ok(v) => Some(json_of_value(&v)),
        Err(_) => None,
    }
}

/// `<serde_json::Number as Clone>::clone`: a copy is the same number.
#[verifier::external_body]
fn copy_number(n: &Number) -> (r: Number)
    ensures
        r == *n,
{
    n.clone()
}

/// The order of `str`: by the first character that differs, a text before what it begins.
pub open spec fn precedes(a: Seq<char>, b: Seq<char>) -> bool
    decreases a.len(),
{
    if b.len() == 0 {
        false
    } else if a.len() == 0 {
        true
    } else if a.first() == b.first() {
        precedes(a.drop_first(), b.drop_first())
    } else {
        a.first() < b.first()
    }
}

/// True when members come in the order of their names, no two under one name.
pub open spec fn in_key_order(members: Seq<(Seq<char>, JsonView)>) -> bool {
    forall|i: int, j: int|
        0 <= i < j < members.len() ==> precedes(
            (#[trigger] members[i]).0,
            (#[trigger] members[j]).0,
        )
}

/// The member of that name.
pub open spec fn value_at(named: Map<Seq<char>, JsonView>, key: Seq<char>) -> Option<JsonView> {
    if named.contains_key(key) {
        Some(named[key])
    } else {
        None
    }
}

/// True when a list holds just these members, in the order of their names.
pub open spec fn lists(
    members: Seq<(Seq<char>, JsonView)>,
    named: Map<Seq<char>, JsonView>,
) -> bool {
    &&& in_key_order(members)
    &&& forall|key: Seq<char>| #[trigger] lookup(members, key) == value_at(named, key)
}

/// True for an object that lists these members.
pub open spec fn is_object_of(v: JsonView, named: Map<Seq<char>, JsonView>) -> bool {
    match v {
        JsonView::Object(members) => lists(members, named),
        _ => false,
    }
}

/// The members by name: of several under one name, the last.
pub open spec fn last_values(members: Seq<(Seq<char>, JsonView)>) -> Map<Seq<char>, JsonView>
    decreases members.len(),
{
    if members.len() == 0 {
        Map::empty()
    } else {
        last_values(members.drop_last()).insert(members.last().0, members.last().1)
    }
}

/// The list of members in the order of their names, of several under one name the last.
pub open spec fn listed(members: Seq<(Seq<char>, JsonView)>) -> Seq<(Seq<char>, JsonView)> {
    choose|out: Seq<(Seq<char>, JsonView)>| lists(out, last_values(members))
}

/// A value as it is written: the members of every object in it in the order of their names, of
/// several under one name the last.
pub open spec fn written(v: JsonView) -> JsonView
    decreases v, 1int,
{
    match v {
        JsonView::Array(items) => JsonView::Array(written_items(items)),
        JsonView::Object(members) => JsonView::Object(listed(written_members(members))),
        _ => v,
    }
}

/// The elements of an array, each as it is written.
pub open spec fn written_items(items: Seq<JsonView>) -> Seq<JsonView>
    decreases items, 0int,
{
    Seq::new(
        items.len(),
        |i: int|
            if 0 <= i < items.len() {
                written(items[i])
            } else {
                JsonView::Null
            },
    )
}

/// The members of an object, each as it is written, where they stand.
pub open spec fn written_members(members: Seq<(Seq<char>, JsonView)>) -> Seq<
    (Seq<char>, JsonView),
>
    decreases members, 0int,
{
    Seq::new(
        members.len(),
        |i: int|
            if 0 <= i < members.len() {
                (members[i].0, written(members[i].1))
            } else {
                (Seq::<char>::empty(), JsonView::Null)
            },
    )
}

/// The text that a `serde_json::Value` that holds this displays as.
pub uninterp spec fn value_text(v: JsonView) -> Seq<char>;

/// The JSON text of a value.
pub open spec fn json_text(v: JsonView) -> Seq<char> {
    value_text(written(v))
}

proof fn lemma_precedes(a: Seq<char>, b: Seq<char>)
    ensures
        !(precedes(a, b) && precedes(b, a)),
    decreases a.len(),
{
    if a.len() > 0 && b.len() > 0 && a.first() == b.first() {
        lemma_precedes(a.drop_first(), b.drop_first());
    }
}

/// Members in the order of their names have distinct names.
proof fn lemma_ordered_is_distinct(members: Seq<(Seq<char>, JsonView)>)
    requires
        in_key_order(members),
    ensures
        distinct_keys(members),
{
    assert forall|i: int, j: int| 0 <= i < j < members.len() implies (#[trigger] members[i]).0 != (
    #[trigger] members[j]).0 by {
        lemma_precedes(members[i].0, members[j].0);
    }
}

/// A name that is found stands at a position.
proof fn lemma_found(members: Seq<(Seq<char>, JsonView)>, key: Seq<char>) -> (i: int)
    requires
        lookup(members, key) is Some,
    ensures
        0 <= i < members.len(),
        members[i].0 == key,
{
    lemma_key_index(members, key);
    key_index(members, key)
}

/// There is one list of members in the order of their names.
pub proof fn one_list_is_in_key_order(
    a: Seq<(Seq<char>, JsonView)>,
    b: Seq<(Seq<char>, JsonView)>,
    named: Map<Seq<char>, JsonView>,
)
    requires
        lists(a, named),
        lists(b, named),
    ensures
        a == b,
    decreases a.len(),
{
    lemma_ordered_is_distinct(a);
    lemma_ordered_is_distinct(b);
    if a.len() == 0 {
        if b.len() > 0 {
            lemma_lookup_last(b, b.last().0);
            assert(lookup(a, b.last().0) is None);
        }
        assert(a =~= b);
    } else {
        let top = a.last().0;
        lemma_lookup_last(a, top);
        assert(lookup(b, top) == value_at(named, top));
        let j = lemma_found(b, top);
        let other = b.last().0;
        lemma_lookup_last(b, other);
        assert(lookup(a, other) == value_at(named, other));
        let i = lemma_found(a, other);
        if j < b.len() - 1 {
            assert(precedes(b[j].0, b[b.len() - 1].0));
            if i < a.len() - 1 {
                assert(precedes(a[i].0, a[a.len() - 1].0));
            }
            lemma_precedes(top, other);
        }
        assert(top == other);
        lemma_lookup_last(b, top);
        assert(a.last() == b.last());
        let less = named.remove(top);
        assert forall|key: Seq<char>| #[trigger] lookup(a.drop_last(), key) == value_at(
            less,
            key,
        ) by {
            lemma_lookup_last(a, key);
            assert(lookup(a, key) == value_at(named, key));
            lemma_key_index(a.drop_last(), key);
            if key == top && lookup(a.drop_last(), key) is Some {
                let k = lemma_found(a.drop_last(), key);
                assert(a[k].0 != a[a.len() - 1].0);
            }
        }
        assert forall|key: Seq<char>| #[trigger] lookup(b.drop_last(), key) == value_at(
            less,
            key,
        ) by {
            lemma_lookup_last(b, key);
            assert(lookup(b, key) == value_at(named, key));
            if key == top && lookup(b.drop_last(), key) is Some {
                let k = lemma_found(b.drop_last(), key);
                assert(b[k].0 != b[b.len() - 1].0);
            }
        }
        assert forall|i: int, j: int| 0 <= i < j < a.drop_last().len() implies precedes(
            (#[trigger] a.drop_last()[i]).0,
            (#[trigger] a.drop_last()[j]).0,
        ) by {
            assert(precedes(a[i].0, a[j].0));
        }
        assert forall|i: int, j: int| 0 <= i < j < b.drop_last().len() implies precedes(
            (#[trigger] b.drop_last()[i]).0,
            (#[trigger] b.drop_last()[j]).0,
        ) by {
            assert(precedes(b[i].0, b[j].0));
        }
        one_list_is_in_key_order(a.drop_last(), b.drop_last(), less);
        assert(a =~= a.drop_last().push(a.last()));
        assert(b =~= b.drop_last().push(b.last()));
    }
}

/// Of two texts one comes first.
proof fn lemma_precedes_is_total(a: Seq<char>, b: Seq<char>)
    requires
        a != b,
    ensures
        precedes(a, b) || precedes(b, a),
    decreases a.len(),
{
    if a.len() > 0 && b.len() > 0 && a.first() == b.first() {
        if a.drop_first() == b.drop_first() {
            assert(a =~= seq![a.first()] + a.drop_first());
            assert(b =~= seq![b.first()] + b.drop_first());
        }
        lemma_precedes_is_total(a.drop_first(), b.drop_first());
    } else if a.len() == 0 && b.len() == 0 {
        assert(a =~= b);
    }
}

proof fn lemma_precedes_is_transitive(a: Seq<char>, b: Seq<char>, c: Seq<char>)
    requires
        precedes(a, b),
        precedes(b, c),
    ensures
        precedes(a, c),
    decreases a.len(),
{
    if a.len() > 0 && a.first() == b.first() && b.first() == c.first() {
        lemma_precedes_is_transitive(a.drop_first(), b.drop_first(), c.drop_first());
    }
}

/// Where a new name belongs.
proof fn lemma_place(members: Seq<(Seq<char>, JsonView)>, key: Seq<char>) -> (i: int)
    requires
        in_key_order(members),
        forall|j: int| 0 <= j < members.len() ==> (#[trigger] members[j]).0 != key,
    ensures
        0 <= i <= members.len(),
        forall|j: int| 0 <= j < i ==> precedes((#[trigger] members[j]).0, key),
        forall|j: int| i <= j < members.len() ==> precedes(key, (#[trigger] members[j]).0),
    decreases members.len(),
{
    if members.len() == 0 {
        0
    } else {
        let n = members.len() - 1;
        let less = members.drop_last();
        lemma_precedes_is_total(members[n].0, key);
        if precedes(members[n].0, key) {
            assert forall|j: int| 0 <= j < members.len() implies precedes(
                (#[trigger] members[j]).0,
                key,
            ) by {
                if j < n {
                    lemma_precedes_is_transitive(members[j].0, members[n].0, key);
                }
            }
            members.len() as int
        } else {
            assert forall|a: int, b: int| 0 <= a < b < less.len() implies precedes(
                (#[trigger] less[a]).0,
                (#[trigger] less[b]).0,
            ) by {
                assert(precedes(members[a].0, members[b].0));
            }
            assert forall|j: int| 0 <= j < less.len() implies (#[trigger] less[j]).0 != key by {
                assert(less[j] == members[j]);
            }
            let i = lemma_place(less, key);
            assert forall|j: int| 0 <= j < i implies precedes((#[trigger] members[j]).0, key) by {
                assert(less[j] == members[j]);
            }
            assert forall|j: int| i <= j < members.len() implies precedes(
                key,
                (#[trigger] members[j]).0,
            ) by {
                if j < n {
                    assert(less[j] == members[j]);
                }
            }
            i
        }
    }
}

/// One member more can be listed too.
proof fn lemma_list_with(
    members: Seq<(Seq<char>, JsonView)>,
    named: Map<Seq<char>, JsonView>,
    key: Seq<char>,
    value: JsonView,
) -> (out: Seq<(Seq<char>, JsonView)>)
    requires
        lists(members, named),
    ensures
        lists(out, named.insert(key, value)),
{
    let more = named.insert(key, value);
    lemma_key_index(members, key);
    lemma_ordered_is_distinct(members);
    if key_index(members, key) < members.len() {
        let out = with_member(members, key, value);
        assert forall|k: Seq<char>| #[trigger] lookup(out, k) == value_at(more, k) by {
            lemma_with_member(members, key, value, k);
            assert(lookup(members, k) == value_at(named, k));
        }
        assert forall|a: int, b: int| 0 <= a < b < out.len() implies precedes(
            (#[trigger] out[a]).0,
            (#[trigger] out[b]).0,
        ) by {
            assert(precedes(members[a].0, members[b].0));
        }
        out
    } else {
        let i = lemma_place(members, key);
        let out = members.insert(i, (key, value));
        assert forall|a: int, b: int| 0 <= a < b < out.len() implies precedes(
            (#[trigger] out[a]).0,
            (#[trigger] out[b]).0,
        ) by {
            let from = if a < i {
                a
            } else {
                a - 1
            };
            let to = if b < i {
                b
            } else {
                b - 1
            };
            if a != i {
                assert(out[a] == members[from]);
            }
            if b != i {
                assert(out[b] == members[to]);
            }
            if a != i && b != i {
                assert(precedes(members[from].0, members[to].0));
            }
        }
        lemma_ordered_is_distinct(out);
        assert forall|k: Seq<char>| #[trigger] lookup(out, k) == value_at(more, k) by {
            assert(lookup(members, k) == value_at(named, k));
            lemma_key_index(members, k);
            let j = key_index(members, k);
            if k == key {
                assert(out[i] == (key, value));
                assert forall|n: int| 0 <= n < i implies (#[trigger] out[n]).0 != key by {
                    assert(out[n].0 != out[i].0);
                }
                lemma_key_index_unique(out, k, i);
            } else if j < members.len() {
                let at = if j < i {
                    j
                } else {
                    j + 1
                };
                assert(out[at] == members[j]);
                assert forall|n: int| 0 <= n < at implies (#[trigger] out[n]).0 != k by {
                    assert(out[n].0 != out[at].0);
                }
                lemma_key_index_unique(out, k, at);
            } else {
                assert forall|n: int| 0 <= n < out.len() implies (#[trigger] out[n]).0 != k by {
                    if n < i {
                        assert(out[n] == members[n]);
                    } else if n > i {
                        assert(out[n] == members[n - 1]);
                    }
                }
                lemma_key_index_unique(out, k, out.len() as int);
            }
        }
        out
    }
}

/// Members can be listed, whatever they are.
proof fn lemma_some_list(members: Seq<(Seq<char>, JsonView)>) -> (out: Seq<
    (Seq<char>, JsonView),
>)
    ensures
        lists(out, last_values(members)),
    decreases members.len(),
{
    if members.len() == 0 {
        let out = Seq::<(Seq<char>, JsonView)>::empty();
        assert forall|key: Seq<char>| #[trigger] lookup(out, key) == value_at(
            last_values(members),
            key,
        ) by {}
        out
    } else {
        let less = lemma_some_list(members.drop_last());
        lemma_list_with(
            less,
            last_values(members.drop_last()),
            members.last().0,
            members.last().1,
        )
    }
}

/// An object is written with its members in the order of their names: under each name the last
/// value that it has, and nothing else.
pub proof fn an_object_is_written_in_key_order(
    members: Seq<(Seq<char>, JsonView)>,
    key: Seq<char>,
)
    ensures
        written(JsonView::Object(members)) is Object,
        in_key_order(written(JsonView::Object(members))->Object_0),
        written(JsonView::Object(members)).get(key) == value_at(
            last_values(written_members(members)),
            key,
        ),
{
    let all = written_members(members);
    let out = lemma_some_list(all);
    assert(lists(out, last_values(all)));
    assert(lists(listed(all), last_values(all)));
    assert(lookup(listed(all), key) == value_at(last_values(all), key));
}

/// The members that a `serde_json::Map` holds, by name.
pub uninterp spec fn map_contents(m: serde_json::Map<String, Value>) -> Map<Seq<char>, JsonView>;

/// The members of an object that has none.
pub open spec fn no_members() -> Map<Seq<char>, JsonView> {
    Map::empty()
}

/// `serde_json::Map::new`: no member.
#[verifier::external_body]
fn new_members() -> (m: serde_json::Map<String, Value>)
    ensures
        map_contents(m) == no_members(),
{
    serde_json::Map::new()
}

/// `serde_json::Map::insert`: the member has the value, whether there was one of that name or not.
#[verifier::external_body]
fn insert_member(m: &mut serde_json::Map<String, Value>, key: String, value: Value)
    ensures
        map_contents(*final(m)) == map_contents(*old(m)).insert(key@, value_contents(value)),
{
    m.insert(key, value);
}

/// `Value::Null`.
#[verifier::external_body]
fn null_value() -> (v: Value)
    ensures
        value_contents(v) == JsonView::Null,
{
    Value::Null
}

/// `Value::Bool`.
#[verifier::external_body]
fn bool_value(b: bool) -> (v: Value)
    ensures
        value_contents(v) == JsonView::Bool(b),
{
    Value::Bool(b)
}

/// `Value::Number`.
#[verifier::external_body]
fn number_value(n: Number) -> (v: Value)
    ensures
        value_contents(v) == JsonView::Number(n),
{
    Value::Number(n)
}

/// `Value::String`.
#[verifier::external_body]
fn text_value(s: String) -> (v: Value)
    ensures
        value_contents(v) == JsonView::Text(s@),
{
    Value::String(s)
}

/// What values hold, one by one.
pub open spec fn contents_of(values: Seq<Value>) -> Seq<JsonView> {
    values.map_values(|v: Value| value_contents(v))
}

/// `Value::Array`.
#[verifier::external_body]
fn array_value(items: Vec<Value>) -> (v: Value)
    ensures
        value_contents(v) == JsonView::Array(contents_of(items@)),
{
    Value::Array(items)
}

/// `Value::Object`: an object of these members, which `serde_json::Map` keeps in the order of
/// their names.
#[verifier::external_body]
fn object_value(members: serde_json::Map<String, Value>) -> (v: Value)
    ensures
        is_object_of(value_contents(v), map_contents(members)),
{
    Value::Object(members)
}

/// `<Value as ToString>::to_string`: the compact text, which depends on what the value holds
/// alone.
#[verifier::external_body]
fn show_value(v: &Value) -> (r: String)
    ensures
        r@ == value_text(value_contents(*v)),
{
    v.to_string()
}

/// A value that holds what `j` does.
fn value_of_json(j: &Json) -> (v: Value)
    ensures
        value_contents(v) == written(j@),
    decreases j,
{
    match j {
        Json::Null => null_value(),
        Json::Bool(b) => bool_value(*b),
        Json::Number(n) => number_value(copy_number(n)),
        Json::Text(s) => text_value(s.clone()),
        Json::Array(items) => {
            let ghost all = array_view(items@);
            let mut out: Vec<Value> = Vec::new();
            let mut i: usize = 0;
            while i < items.len()
                invariant
                    0 <= i <= items.len(),
                    j matches Json::Array(v) && v == items,
                    all == array_view(items@),
                    out@.len() == i,
                    forall|k: int|
                        0 <= k < i ==> value_contents(#[trigger] out@[k]) == written(all[k]),
                decreases items.len() - i,
            {
                assert(all[i as int] == items@[i as int]@);
                out.push(value_of_json(&items[i]));
                i += 1;
            }
            assert(contents_of(out@) =~= written_items(all));
            array_value(out)
        },
        Json::Object(members) => {
            let ghost all = members_view(members@);
            let ghost shown = written_members(all);
            let mut out = new_members();
            let mut i: usize = 0;
            assert(shown.take(0) =~= Seq::empty());
            while i < members.len()
                invariant
                    0 <= i <= members.len(),
                    j matches Json::Object(v) && v == members,
                    all == members_view(members@),
                    shown == written_members(all),
                    map_contents(out) == last_values(shown.take(i as int)),
                decreases members.len() - i,
            {
                assert(all[i as int] == (members@[i as int].0@, members@[i as int].1@));
                let value = value_of_json(&members[i].1);
                insert_member(&mut out, members[i].0.clone(), value);
                assert(shown.take(i + 1).drop_last() =~= shown.take(i as int));
                i += 1;
            }
            assert(shown.take(i as int) =~= shown);
            let v = object_value(out);
            proof {
                one_list_is_in_key_order(
                    value_contents(v)->Object_0,
                    listed(shown),
                    last_values(shown),
                );
            }
            v
        },
    }
}

/// The JSON text of a payload, as it goes out.
pub fn payload_text(payload: &Json) -> (r: String)
    ensures
        r@ == json_text(payload@),
{
    show_value(&value_of_json(payload))
}

/// A name is found with the value of the first member that has it, and not where none has it.
pub proof fn the_first_member_of_a_name_counts(members: Seq<(Seq<char>, JsonView)>, i: int)
    requires
        0 <= i < members.len(),
        forall|j: int| 0 <= j < i ==> (#[trigger] members[j]).0 != members[i].0,
    ensures
        lookup(members, members[i].0) == Some(members[i].1),
        JsonView::Object(members).get(members[i].0) == Some(members[i].1),
        members[i].1 matches JsonView::Text(t) ==> JsonView::Object(members).get_text(
            members[i].0,
        ) == Some(t),
        JsonView::Object(members).get_text(members[i].0) is Some ==> members[i].1 is Text,
{
    lemma_key_index_unique(members, members[i].0, i);
}

/// A name that no member has is not found, and what is no object has no members.
pub proof fn a_name_that_no_member_has_is_not_found(v: JsonView, key: Seq<char>)
    requires
        v matches JsonView::Object(members) ==> forall|j: int|
            0 <= j < members.len() ==> (#[trigger] members[j]).0 != key,
    ensures
        v.get(key) is None,
        v.get_text(key) is None,
{
    if let JsonView::Object(members) = v {
        lemma_key_index_unique(members, key, members.len() as int);
    }
}

/// What a value is written as: scalars as they are, an array as its elements in their order, and
/// of an object each name with what the last member of that name is written as.
pub proof fn a_value_is_written_as_it_is(
    b: bool,
    s: Seq<char>,
    n: Number,
    items: Seq<JsonView>,
    members: Seq<(Seq<char>, JsonView)>,
    i: int,
)
    ensures
        written(JsonView::Null) == JsonView::Null,
        written(JsonView::Bool(b)) == JsonView::Bool(b),
        written(JsonView::Text(s)) == JsonView::Text(s),
        written(JsonView::Number(n)) == JsonView::Number(n),
        written(JsonView::Array(items)) matches JsonView::Array(out) && out.len() == items.len()
            && (0 <= i < items.len() ==> out[i] == written(items[i])),
        0 <= i < members.len() && (forall|j: int|
            i < j < members.len() ==> (#[trigger] members[j]).0 != members[i].0) ==> written(
            JsonView::Object(members),
        ).get(members[i].0) == Some(written(members[i].1)),
{
    if 0 <= i < members.len() && (forall|j: int|
        i < j < members.len() ==> (#[trigger] members[j]).0 != members[i].0) {
        let all = written_members(members);
        an_object_is_written_in_key_order(members, members[i].0);
        assert forall|j: int| i < j < all.len() implies (#[trigger] all[j]).0 != all[i].0 by {
            assert(members[j].0 != members[i].0);
        }
        lemma_last_value(all, i);
    }
}

proof fn lemma_last_value(members: Seq<(Seq<char>, JsonView)>, i: int)
    requires
        0 <= i < members.len(),
        forall|j: int| i < j < members.len() ==> (#[trigger] members[j]).0 != members[i].0,
    ensures
        value_at(last_values(members), members[i].0) == Some(members[i].1),
    decreases members.len(),
{
    let n = members.len() - 1;
    let less = members.drop_last();
    if i < n {
        assert(members[n].0 != members[i].0);
        assert forall|j: int| i < j < less.len() implies (#[trigger] less[j]).0 != less[i].0 by {
            assert(members[j].0 != members[i].0);
        }
        lemma_last_value(less, i);
    }
}

} // verus!
