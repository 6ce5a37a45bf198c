//! TOML values as plain data: the values that a TOML document holds and
//! that a TOML document is written from.

use vstd::prelude::*;
use crate::assoc::{assoc_set, has_key, is_first_key_at, lemma_assoc_set_absent, lemma_assoc_set_present};

verus! {

/// A TOML value. Floats are held by the IEEE-754 bits of their `f64`, date-times
/// by their TOML text, tables by their entries in order.
#[derive(Debug, PartialEq)]
pub enum TomlValue {
    String(String),
    Integer(i64),
    /// The IEEE-754 bits of the `f64`.
    Float(u64),
    Boolean(bool),
    /// A date-time, offset date-time, local date or local time, as TOML writes it.
    Datetime(String),
    Array(Vec<TomlValue>),
    Table(Vec<(String, TomlValue)>),
}

/// The entries of a table, by key text.
pub type TableModel = Seq<(Seq<char>, TomlModel)>;

/// The mathematical value of a `TomlValue`.
pub enum TomlModel {
    String(Seq<char>),
    Integer(i64),
    Float(u64),
    Boolean(bool),
    Datetime(Seq<char>),
    Array(Seq<TomlModel>),
    Table(TableModel),
}

/// The mathematical value of a TOML value.
pub open spec fn toml_model(v: TomlValue) -> TomlModel
    decreases v,
{
    match v {
        TomlValue::String(s) => TomlModel::String(s@),
        TomlValue::Integer(i) => TomlModel::Integer(i),
        TomlValue::Float(bits) => TomlModel::Float(bits),
        TomlValue::Boolean(b) => TomlModel::Boolean(b),
        TomlValue::Datetime(s) => TomlModel::Datetime(s@),
        TomlValue::Array(items) => TomlModel::Array(toml_models(items@)),
        TomlValue::Table(entries) => TomlModel::Table(table_models(entries@)),
    }
}

/// The values of a sequence of TOML values.
pub open spec fn toml_models(items: Seq<TomlValue>) -> Seq<TomlModel>
    decreases items,
{
    if items.len() == 0 {
        Seq::empty()
    } else {
        toml_models(items.drop_last()).push(toml_model(items.last()))
    }
}

/// The entries of a table, by key text and value.
pub open spec fn table_models(entries: Seq<(String, TomlValue)>) -> TableModel
    decreases entries,
{
    if entries.len() == 0 {
        Seq::empty()
    } else {
        table_models(entries.drop_last()).push((entries.last().0@, toml_model(entries.last().1)))
    }
}

impl View for TomlValue {
    type V = TomlModel;

    open spec fn view(&self) -> TomlModel {
        toml_model(*self)
    }
}

/// `toml_models` maps each item.
pub proof fn lemma_toml_models(items: Seq<TomlValue>)
    ensures
        toml_models(items).len() == items.len(),
        forall|i: int| 0 <= i < items.len() ==> #[trigger] toml_models(items)[i] == toml_model(items[i]),
    decreases items.len(),
{
    if items.len() > 0 {
        lemma_toml_models(items.drop_last());
    }
}

/// `table_models` maps each entry.
pub proof fn lemma_table_models(entries: Seq<(String, TomlValue)>)
    ensures
        table_models(entries).len() == entries.len(),
        forall|i: int|
            0 <= i < entries.len() ==> #[trigger] table_models(entries)[i] == (
                entries[i].0@,
                toml_model(entries[i].1),
            ),
    decreases entries.len(),
{
    if entries.len() > 0 {
        lemma_table_models(entries.drop_last());
    }
}

/// Inserts `value` under `key` in a table: the entry with that key gets the
/// new value in place, or the pair is appended.
pub fn table_insert(table: &mut Vec<(String, TomlValue)>, key: String, value: TomlValue)
    ensures
        table_models(final(table)@) == assoc_set(table_models(old(table)@), key@, toml_model(value)),
{
    let ghost old_entries = table@;
    let mut i: usize = 0;
    while i < table.len()
        invariant
            table@ == old_entries,
            old_entries == old(table)@,
            i <= table.len(),
            forall|j: int| 0 <= j < i ==> old_entries[j].0@ != key@,
        decreases table.len() - i,
    {
        if table[i].0 == key {
            let ghost models = table_models(old_entries);
            proof {
                lemma_table_models(old_entries);
                assert(is_first_key_at(models, key@, i as int));
                lemma_assoc_set_present(models, key@, toml_model(value), i as int);
            }
            table.set(i, (key, value));
            proof {
                lemma_table_models(table@);
                assert(table_models(table@) =~= models.update(i as int, (key@, toml_model(value))));
            }
            return;
        }
        i = i + 1;
    }
    proof {
        lemma_table_models(old_entries);
        let models = table_models(old_entries);
        assert(!has_key(models, key@));
        lemma_assoc_set_absent(models, key@, toml_model(value));
    }
    table.push((key, value));
    proof {
        lemma_table_models(table@);
        assert(table_models(table@) =~= table_models(old_entries).push((key@, toml_model(value))));
    }
}

} // verus!
