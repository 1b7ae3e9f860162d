//! What an editable TOML document holds, and the operations of `toml_edit` on it.
//!
//! `toml_edit` keeps comments and layout beside the data. Of those the contracts here speak of what
//! follows the last item of a document; else they speak of the data.

use toml_edit::{Array, ArrayOfTables, DocumentMut, InlineTable, Item, Table, TomlError, Value};
use vstd::prelude::*;

verus! {

/// `toml_edit::DocumentMut`: an editable document.
#[verifier::external_type_specification]
#[verifier::external_body]
pub struct ExDocumentMut(toml_edit::DocumentMut);

/// `toml_edit::TomlError`: why a text is not TOML.
#[verifier::external_type_specification]
#[verifier::external_body]
pub struct ExTomlError(toml_edit::TomlError);

/// `toml_edit::Item`: what a key of a table stands for.
#[verifier::external_type_specification]
#[verifier::external_body]
pub struct ExItem(toml_edit::Item);

/// `toml_edit::Table`: a table with a header of its own.
#[verifier::external_type_specification]
#[verifier::external_body]
pub struct ExTable(toml_edit::Table);

/// `toml_edit::ArrayOfTables`: the tables under one `[[header]]`.
#[verifier::external_type_specification]
#[verifier::external_body]
pub struct ExArrayOfTables(toml_edit::ArrayOfTables);

/// `toml_edit::Value`: a value behind `key =`.
#[verifier::external_type_specification]
#[verifier::external_body]
pub struct ExTomlValue(toml_edit::Value);

/// `toml_edit::Array`: an array value.
#[verifier::external_type_specification]
#[verifier::external_body]
pub struct ExArray(toml_edit::Array);

/// `toml_edit::InlineTable`: a table value.
#[verifier::external_type_specification]
#[verifier::external_body]
pub struct ExInlineTable(toml_edit::InlineTable);

/// What a place in a document holds.
pub enum TomlView {
    /// A key that was made without anything in it.
    Absent,
    Text(Seq<char>),
    Integer(i64),
    /// A float as a JSON number; nothing where it is infinite or not a number.
    Float(Option<serde_json::Number>),
    Bool(bool),
    /// A date or time, by its notation.
    Datetime(Seq<char>),
    List(Seq<TomlView>),
    Inline(Map<Seq<char>, TomlView>),
    Section(Map<Seq<char>, TomlView>),
    Sections(Seq<TomlView>),
}

/// What a document's root holds.
pub uninterp spec fn document_root(d: DocumentMut) -> TomlView;

/// The comments and the space after the last item of a document (`DocumentMut::trailing`).
pub uninterp spec fn document_trailing(d: DocumentMut) -> Seq<char>;

/// What an item holds.
pub uninterp spec fn item_contents(i: Item) -> TomlView;

/// What a value holds.
pub uninterp spec fn toml_contents(v: Value) -> TomlView;

/// The keys of a table and what they stand for.
pub uninterp spec fn table_contents(t: Table) -> Map<Seq<char>, TomlView>;

/// The tables of an array of tables, in order.
pub uninterp spec fn tables_contents(a: ArrayOfTables) -> Seq<TomlView>;

/// The elements of an array, in order.
pub uninterp spec fn array_contents(a: Array) -> Seq<TomlView>;

/// The keys of an inline table and what they stand for.
pub uninterp spec fn inline_contents(t: InlineTable) -> Map<Seq<char>, TomlView>;

/// What the document holds that `DocumentMut::from_str` reads a text as: what its root does, and
/// what follows the last item.
pub uninterp spec fn document_of_text(text: Seq<char>) -> Option<
    (Map<Seq<char>, TomlView>, Seq<char>),
>;

/// The text that `DocumentMut` displays as.
pub uninterp spec fn document_text(d: DocumentMut) -> Seq<char>;

/// The contents of a table without a key.
pub open spec fn no_keys() -> Map<Seq<char>, TomlView> {
    Map::empty()
}

/// True when `key` stands for something.
pub open spec fn present(t: Map<Seq<char>, TomlView>, key: Seq<char>) -> bool {
    t.contains_key(key) && !(t[key] is Absent)
}

/// `<DocumentMut as FromStr>::from_str`: succeeds on the texts that [`document_of_text`] names a
/// root table for, and the document then holds that table, and what follows it.
#[verifier::external_body]
pub(crate) fn read_document(text: &str) -> (r: Result<DocumentMut, TomlError>)
    ensures
        match r {
            Ok(d) => document_root(d) is Section && document_of_text(text@) == Some(
                (document_root(d)->Section_0, document_trailing(d)),
            ),
            Err(_) => document_of_text(text@) is None,
        },
{
    text.parse::<DocumentMut>()
}

/// `DocumentMut::new`: a document without a key, and nothing after it.
pub assume_specification[ toml_edit::DocumentMut::new ]() -> (d: toml_edit::DocumentMut)
    ensures
        document_root(d) == TomlView::Section(no_keys()),
        document_trailing(d).len() == 0,
;

/// `<DocumentMut as Clone>::clone`: the same document.
#[verifier::external_body]
pub(crate) fn copy_document(d: &DocumentMut) -> (r: DocumentMut)
    ensures
        r == *d,
{
    d.clone()
}

/// `<DocumentMut as ToString>::to_string`: displays a document whose root is a table.
#[verifier::external_body]
pub(crate) fn show_document(d: &DocumentMut) -> (r: String)
    requires
        document_root(*d) is Section,
    ensures
        r@ == document_text(*d),
{
    d.to_string()
}

/// `DocumentMut::as_table_mut`: the root table, open for changes. What follows the last item stays.
pub assume_specification[ toml_edit::DocumentMut::as_table_mut ](
    d: &mut toml_edit::DocumentMut,
) -> (t: &mut toml_edit::Table)
    requires
        document_root(*old(d)) is Section,
    ensures
        document_root(*old(d)) == TomlView::Section(table_contents(*t)),
        document_root(*final(d)) == TomlView::Section(table_contents(*final(t))),
        document_trailing(*final(d)) == document_trailing(*old(d)),
;

/// `Table::new`: a table without a key.
pub assume_specification[ toml_edit::Table::new ]() -> (t: toml_edit::Table)
    ensures
        table_contents(t) == no_keys(),
;

/// `Table::get`: what `key` stands for.
pub assume_specification<'a>[ toml_edit::Table::get ](
    t: &'a toml_edit::Table,
    key: &str,
) -> (r: Option<&'a toml_edit::Item>)
    ensures
        match r {
            Some(i) => present(table_contents(*t), key@) && item_contents(*i) == table_contents(
                *t,
            )[key@],
            None => !present(table_contents(*t), key@),
        },
;

/// `Table::get_mut`: what `key` stands for, open for changes.
pub assume_specification<'a>[ toml_edit::Table::get_mut ](
    t: &'a mut toml_edit::Table,
    key: &str,
) -> (r: Option<&'a mut toml_edit::Item>)
    ensures
        match r {
            Some(i) => present(table_contents(*old(t)), key@) && item_contents(*i)
                == table_contents(*old(t))[key@] && table_contents(*final(t)) == table_contents(
                *old(t),
            ).insert(key@, item_contents(*final(i))),
            None => !present(table_contents(*old(t)), key@) && table_contents(*final(t))
                == table_contents(*old(t)),
        },
;

/// `Table::insert`: `key` stands for `item` afterwards, and what it stood for is handed out.
pub assume_specification[ toml_edit::Table::insert ](
    t: &mut toml_edit::Table,
    key: &str,
    item: toml_edit::Item,
) -> (r: Option<toml_edit::Item>)
    ensures
        table_contents(*final(t)) == table_contents(*old(t)).insert(key@, item_contents(item)),
        match r {
            Some(i) => table_contents(*old(t)).contains_key(key@) && item_contents(i)
                == table_contents(*old(t))[key@],
            None => !table_contents(*old(t)).contains_key(key@),
        },
;

/// `Table::entry` followed by `Entry::or_insert`: what `key` stands for, open for changes;
/// a key that the table lacks is given `item` first.
#[verifier::external_body]
pub(crate) fn entry_or<'a>(t: &'a mut Table, key: &str, item: Item) -> (r: &'a mut Item)
    ensures
        item_contents(*r) == if table_contents(*old(t)).contains_key(key@) {
            table_contents(*old(t))[key@]
        } else {
            item_contents(item)
        },
        table_contents(*final(t)) == table_contents(*old(t)).insert(
            key@,
            item_contents(*final(r)),
        ),
{
    t.entry(key).or_insert(item)
}

/// `Item::as_table_mut`: the table that an item holds, open for changes.
pub assume_specification[ toml_edit::Item::as_table_mut ](i: &mut toml_edit::Item) -> (r: Option<
    &mut toml_edit::Table,
>)
    ensures
        match r {
            Some(t) => item_contents(*old(i)) == TomlView::Section(table_contents(*t))
                && item_contents(*final(i)) == TomlView::Section(table_contents(*final(t))),
            None => !(item_contents(*old(i)) is Section) && item_contents(*final(i))
                == item_contents(*old(i)),
        },
;

/// `Item::as_array_of_tables_mut`: the tables that an item holds, open for changes.
pub assume_specification[ toml_edit::Item::as_array_of_tables_mut ](
    i: &mut toml_edit::Item,
) -> (r: Option<&mut toml_edit::ArrayOfTables>)
    ensures
        match r {
            Some(a) => item_contents(*old(i)) == TomlView::Sections(tables_contents(*a))
                && item_contents(*final(i)) == TomlView::Sections(tables_contents(*final(a))),
            None => !(item_contents(*old(i)) is Sections) && item_contents(*final(i))
                == item_contents(*old(i)),
        },
;

/// `Item::as_str`: the text that an item holds.
pub assume_specification[ toml_edit::Item::as_str ](i: &toml_edit::Item) -> (r: Option<&str>)
    ensures
        match r {
            Some(s) => item_contents(*i) == TomlView::Text(s@),
            None => !(item_contents(*i) is Text),
        },
;

/// `Item::Table`: an item that holds a table.
#[verifier::external_body]
pub(crate) fn table_item(t: Table) -> (r: Item)
    ensures
        item_contents(r) == TomlView::Section(table_contents(t)),
{
    Item::Table(t)
}

/// `Item::ArrayOfTables`: an item that holds tables.
#[verifier::external_body]
pub(crate) fn tables_item(a: ArrayOfTables) -> (r: Item)
    ensures
        item_contents(r) == TomlView::Sections(tables_contents(a)),
{
    Item::ArrayOfTables(a)
}

/// `Item::Value`: an item that holds a value.
#[verifier::external_body]
pub(crate) fn value_item(v: Value) -> (r: Item)
    ensures
        item_contents(r) == toml_contents(v),
{
    Item::Value(v)
}

/// `ArrayOfTables::new`: no table.
pub assume_specification[ toml_edit::ArrayOfTables::new ]() -> (a: toml_edit::ArrayOfTables)
    ensures
        tables_contents(a) == Seq::<TomlView>::empty(),
;

/// `ArrayOfTables::len`: how many there are.
pub assume_specification[ toml_edit::ArrayOfTables::len ](a: &toml_edit::ArrayOfTables) -> (n: usize)
    ensures
        n == tables_contents(*a).len(),
;

/// `ArrayOfTables::get`: the table at a position.
pub assume_specification[ toml_edit::ArrayOfTables::get ](
    a: &toml_edit::ArrayOfTables,
    index: usize,
) -> (r: Option<&toml_edit::Table>)
    ensures
        match r {
            Some(t) => index < tables_contents(*a).len() && tables_contents(*a)[index as int]
                == TomlView::Section(table_contents(*t)),
            None => index < tables_contents(*a).len() ==> !(tables_contents(
                *a,
            )[index as int] is Section),
        },
;

/// `ArrayOfTables::get_mut`: the table at a position, open for changes.
pub assume_specification[ toml_edit::ArrayOfTables::get_mut ](
    a: &mut toml_edit::ArrayOfTables,
    index: usize,
) -> (r: Option<&mut toml_edit::Table>)
    ensures
        match r {
            Some(t) => index < tables_contents(*old(a)).len() && tables_contents(
                *old(a),
            )[index as int] == TomlView::Section(table_contents(*t)) && tables_contents(*final(a))
                == tables_contents(*old(a)).update(
                index as int,
                TomlView::Section(table_contents(*final(t))),
            ),
            None => (index < tables_contents(*old(a)).len() ==> !(tables_contents(
                *old(a),
            )[index as int] is Section)) && tables_contents(*final(a)) == tables_contents(*old(a)),
        },
;

/// `ArrayOfTables::push`: one more table, at the end.
pub assume_specification[ toml_edit::ArrayOfTables::push ](
    a: &mut toml_edit::ArrayOfTables,
    table: toml_edit::Table,
)
    ensures
        tables_contents(*final(a)) == tables_contents(*old(a)).push(
            TomlView::Section(table_contents(table)),
        ),
;

/// `ArrayOfTables::remove`: all but the one at a position, in the order they had.
pub assume_specification[ toml_edit::ArrayOfTables::remove ](
    a: &mut toml_edit::ArrayOfTables,
    index: usize,
)
    requires
        index < tables_contents(*old(a)).len(),
    ensures
        tables_contents(*final(a)) == tables_contents(*old(a)).remove(index as int),
;

/// `<toml_edit::Value as From<bool>>::from`: a boolean value.
#[verifier::external_body]
pub(crate) fn bool_value(b: bool) -> (r: Value)
    ensures
        toml_contents(r) == TomlView::Bool(b),
{
    Value::from(b)
}

/// `<toml_edit::Value as From<i64>>::from`: an integer value.
#[verifier::external_body]
pub(crate) fn integer_value(i: i64) -> (r: Value)
    ensures
        toml_contents(r) == TomlView::Integer(i),
{
    Value::from(i)
}

/// `serde_json::Number::as_f64`, handed to `toml_edit::Value::from`: the float value nearest to
/// a JSON number.
#[verifier::external_body]
pub(crate) fn float_value(n: &serde_json::Number) -> (r: Value)
    ensures
        toml_contents(r) == TomlView::Float(Some(crate::json::number_float(*n))),
{
    n.as_f64().map(Value::from).unwrap()
}

/// `<toml_edit::Value as From<&str>>::from`: a string value.
#[verifier::external_body]
pub(crate) fn text_value(s: &str) -> (r: Value)
    ensures
        toml_contents(r) == TomlView::Text(s@),
{
    Value::from(s)
}

/// `toml_edit::Value::Array`: an array value.
#[verifier::external_body]
pub(crate) fn array_value(a: Array) -> (r: Value)
    ensures
        toml_contents(r) == TomlView::List(array_contents(a)),
{
    Value::Array(a)
}

/// `toml_edit::Value::InlineTable`: a table value.
#[verifier::external_body]
pub(crate) fn inline_value(t: InlineTable) -> (r: Value)
    ensures
        toml_contents(r) == TomlView::Inline(inline_contents(t)),
{
    Value::InlineTable(t)
}

/// `Array::new`: no element.
pub assume_specification[ toml_edit::Array::new ]() -> (a: toml_edit::Array)
    ensures
        array_contents(a) == Seq::<TomlView>::empty(),
;

/// `Array::push`: one more element, at the end.
#[verifier::external_body]
pub(crate) fn push_value(a: &mut Array, v: Value)
    ensures
        array_contents(*final(a)) == array_contents(*old(a)).push(toml_contents(v)),
{
    a.push(v);
}

/// `InlineTable::new`: a table without a key.
pub assume_specification[ toml_edit::InlineTable::new ]() -> (t: toml_edit::InlineTable)
    ensures
        inline_contents(t) == no_keys(),
;

/// `InlineTable::insert`: `key` stands for the value afterwards, whatever it stood for.
#[verifier::external_body]
pub(crate) fn insert_value(t: &mut InlineTable, key: &str, v: Value)
    ensures
        inline_contents(*final(t)) == inline_contents(*old(t)).insert(key@, toml_contents(v)),
{
    t.insert(key, v);
}

} // verus!
