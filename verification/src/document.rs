//! Parsed TOML, and what this library relies on of it.
//!
//! The text of a manifest is parsed by the `toml` crate into a table of values.
//! What such a table holds is modelled here as far as a manifest is read from
//! it: texts, lists, tables, and anything else. A table is modelled as the
//! sequence of its keys, each with what stands under it, in the order in which
//! the text gives them.

use toml::map::Map as TomlMap;
use toml::Value;
use vstd::prelude::*;

verus! {

/// toml's `Map`, taken as it is: nothing is known of a value of it but what
/// the functions below say.
#[verifier::external_type_specification]
#[verifier::external_body]
#[verifier::reject_recursive_types(K)]
#[verifier::reject_recursive_types(V)]
pub struct ExTomlMap<K, V>(TomlMap<K, V>);

/// toml's `Value`, taken as it is.
#[verifier::external_type_specification]
#[verifier::external_body]
pub struct ExTomlValue(Value);

/// toml's error of parsing, taken as it is: it is only handed on.
#[verifier::external_type_specification]
#[verifier::external_body]
pub struct ExTomlError(toml::de::Error);

/// A table of TOML values under their keys.
pub type Table = TomlMap<String, Value>;

/// What a TOML value holds.
pub enum Item {
    /// A string.
    Text(Seq<char>),
    /// An array, with what each of its values holds.
    List(Seq<Item>),
    /// A table, with its keys and what the value under each holds.
    Table(Seq<(Seq<char>, Item)>),
    /// An integer, a float, a boolean or a date.
    Other,
}

/// What `value` holds.
pub uninterp spec fn value_item(value: Value) -> Item;

/// The keys of `table`, each with what the value under it holds, in the order
/// in which they came into the table.
pub uninterp spec fn table_items(table: Table) -> Seq<(Seq<char>, Item)>;

/// The table that `text` is parsed to, where it is a TOML document.
pub uninterp spec fn parsed_document(text: Seq<char>) -> Option<Seq<(Seq<char>, Item)>>;

/// What each of `values` holds.
pub open spec fn value_items(values: Seq<Value>) -> Seq<Item> {
    Seq::new(values.len(), |i: int| value_item(values[i]))
}

/// Whether `key` is among the keys of `items`.
pub open spec fn has_key(items: Seq<(Seq<char>, Item)>, key: Seq<char>) -> bool {
    exists|i: int| 0 <= i < items.len() && (#[trigger] items[i]).0 == key
}

/// What stands under `key` in `items`, if `key` is among its keys.
pub open spec fn lookup(items: Seq<(Seq<char>, Item)>, key: Seq<char>) -> Option<Item> {
    if has_key(items, key) {
        Some(items[choose|i: int| 0 <= i < items.len() && (#[trigger] items[i]).0 == key].1)
    } else {
        None
    }
}

/// Calls `toml::from_str` for a table: the whole of `text` is parsed as a TOML
/// document, and either the table of its top level comes back or the error
/// that says why `text` is no such document.
#[verifier::external_body]
pub(crate) fn parse_document(text: &str) -> (result: Result<Table, toml::de::Error>)
    ensures
        match result {
            Ok(table) => parsed_document(text@) == Some(table_items(table)),
            Err(_) => parsed_document(text@) is None,
        },
{
    toml::from_str::<Table>(text)
}

/// Calls `Map::get`: the value under `key`, if the table has that key.
#[verifier::external_body]
pub(crate) fn table_get<'a>(table: &'a Table, key: &str) -> (value: Option<&'a Value>)
    ensures
        match value {
            Some(v) => lookup(table_items(*table), key@) == Some(value_item(*v)),
            None => lookup(table_items(*table), key@) is None,
        },
{
    table.get(key)
}

/// Calls `Map::keys`, which yields every key of the table once, in the order
/// in which the keys came into the table: the map keeps that order, and a
/// table that was parsed got its keys in the order of the text.
#[verifier::external_body]
pub(crate) fn table_keys(table: &Table) -> (keys: Vec<String>)
    ensures
        keys@.len() == table_items(*table).len(),
        forall|i: int| 0 <= i < keys@.len() ==> (#[trigger] keys@[i])@ == table_items(*table)[i].0,
        forall|i: int, j: int|
            0 <= i < j < keys@.len() ==> (#[trigger] keys@[i])@ != (#[trigger] keys@[j])@,
{
    table.keys().cloned().collect()
}

/// Calls `Value::as_str`: the string, if the value is one.
#[verifier::external_body]
pub(crate) fn value_as_str<'a>(value: &'a Value) -> (text: Option<&'a str>)
    ensures
        match text {
            Some(t) => value_item(*value) == Item::Text(t@),
            None => !(value_item(*value) is Text),
        },
{
    value.as_str()
}

/// Calls `Value::as_array`: the values of the array, if the value is one.
#[verifier::external_body]
pub(crate) fn value_as_array<'a>(value: &'a Value) -> (values: Option<&'a Vec<Value>>)
    ensures
        match values {
            Some(list) => value_item(*value) == Item::List(value_items(list@)),
            None => !(value_item(*value) is List),
        },
{
    value.as_array()
}

/// Calls `Value::as_table`: the table, if the value is one.
#[verifier::external_body]
pub(crate) fn value_as_table<'a>(value: &'a Value) -> (table: Option<&'a Table>)
    ensures
        match table {
            Some(t) => value_item(*value) == Item::Table(table_items(*t)),
            None => !(value_item(*value) is Table),
        },
{
    value.as_table()
}

} // verus!
