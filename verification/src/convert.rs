//! The mapping between TOML values and Godot variants.
//!
//! A TOML string, integer, float, boolean, array and table become a Godot
//! string, int, float, bool, array and dictionary, and back. Date-times have no
//! variant here, and variants of other kinds have no TOML value.

use vstd::prelude::*;
use crate::assoc::{assoc_set, has_key, keys_unique, lemma_assoc_set_absent, lemma_assoc_set_entries, lemma_assoc_set_unique};
use crate::toml_value::{
    TomlValue, TomlModel, TableModel, toml_model, toml_models, table_models, lemma_toml_models,
    lemma_table_models, table_insert,
};
use crate::variant::{
    Variant, VariantModel, DictModel, variant_model, variant_models, entry_models,
    lemma_variant_models, lemma_entry_models, dictionary_set,
};

verus! {

/// A date-time occurs somewhere in the value.
pub open spec fn has_datetime(t: TomlModel) -> bool
    decreases t,
{
    match t {
        TomlModel::Datetime(_) => true,
        TomlModel::Array(items) => items_have_datetime(items),
        TomlModel::Table(entries) => entries_have_datetime(entries),
        _ => false,
    }
}

/// A date-time occurs in one of the items.
pub open spec fn items_have_datetime(items: Seq<TomlModel>) -> bool
    decreases items,
{
    if items.len() == 0 {
        false
    } else {
        items_have_datetime(items.drop_last()) || has_datetime(items.last())
    }
}

/// A date-time occurs in one of the values of the entries.
pub open spec fn entries_have_datetime(entries: TableModel) -> bool
    decreases entries,
{
    if entries.len() == 0 {
        false
    } else {
        entries_have_datetime(entries.drop_last()) || has_datetime(entries.last().1)
    }
}

/// The variant that a TOML value becomes (a date-time has none).
pub open spec fn deserialized(t: TomlModel) -> VariantModel
    decreases t,
{
    match t {
        TomlModel::String(s) => VariantModel::String(s),
        TomlModel::Integer(i) => VariantModel::Int(i),
        TomlModel::Float(bits) => VariantModel::Float(bits),
        TomlModel::Boolean(b) => VariantModel::Bool(b),
        TomlModel::Datetime(_) => VariantModel::Nil,
        TomlModel::Array(items) => VariantModel::Array(deserialized_items(items)),
        TomlModel::Table(entries) => VariantModel::Dictionary(deserialized_table(entries)),
    }
}

/// The variants that the items become, in order.
pub open spec fn deserialized_items(items: Seq<TomlModel>) -> Seq<VariantModel>
    decreases items,
{
    if items.len() == 0 {
        Seq::empty()
    } else {
        deserialized_items(items.drop_last()).push(deserialized(items.last()))
    }
}

/// The dictionary that setting each entry of the table in turn builds.
pub open spec fn deserialized_table(entries: TableModel) -> DictModel
    decreases entries,
{
    if entries.len() == 0 {
        Seq::empty()
    } else {
        assoc_set(
            deserialized_table(entries.drop_last()),
            entries.last().0,
            deserialized(entries.last().1),
        )
    }
}

/// The variant has a TOML value: it is a string, int, float or bool, or an
/// array or dictionary whose values all have one.
pub open spec fn serializable(v: VariantModel) -> bool
    decreases v,
{
    match v {
        VariantModel::String(_) => true,
        VariantModel::Int(_) => true,
        VariantModel::Float(_) => true,
        VariantModel::Bool(_) => true,
        VariantModel::Array(items) => items_serializable(items),
        VariantModel::Dictionary(entries) => entries_serializable(entries),
        _ => false,
    }
}

/// Every item has a TOML value.
pub open spec fn items_serializable(items: Seq<VariantModel>) -> bool
    decreases items,
{
    if items.len() == 0 {
        true
    } else {
        items_serializable(items.drop_last()) && serializable(items.last())
    }
}

/// Every value of the entries has a TOML value.
pub open spec fn entries_serializable(entries: DictModel) -> bool
    decreases entries,
{
    if entries.len() == 0 {
        true
    } else {
        entries_serializable(entries.drop_last()) && serializable(entries.last().1)
    }
}

/// The TOML value that a variant becomes.
pub open spec fn serialized(v: VariantModel) -> TomlModel
    decreases v,
{
    match v {
        VariantModel::String(s) => TomlModel::String(s),
        VariantModel::Int(i) => TomlModel::Integer(i),
        VariantModel::Float(bits) => TomlModel::Float(bits),
        VariantModel::Bool(b) => TomlModel::Boolean(b),
        VariantModel::Array(items) => TomlModel::Array(serialized_items(items)),
        VariantModel::Dictionary(entries) => TomlModel::Table(serialized_dictionary(entries)),
        _ => TomlModel::Boolean(false),
    }
}

/// The TOML values that the items become, in order.
pub open spec fn serialized_items(items: Seq<VariantModel>) -> Seq<TomlModel>
    decreases items,
{
    if items.len() == 0 {
        Seq::empty()
    } else {
        serialized_items(items.drop_last()).push(serialized(items.last()))
    }
}

/// The table that inserting each entry of the dictionary in turn builds.
pub open spec fn serialized_dictionary(entries: DictModel) -> TableModel
    decreases entries,
{
    if entries.len() == 0 {
        Seq::empty()
    } else {
        assoc_set(
            serialized_dictionary(entries.drop_last()),
            entries.last().0,
            serialized(entries.last().1),
        )
    }
}

proof fn lemma_items_have_datetime(items: Seq<TomlModel>)
    ensures
        items_have_datetime(items) <==> exists|i: int| 0 <= i < items.len() && #[trigger] has_datetime(items[i]),
    decreases items.len(),
{
    if items.len() > 0 {
        lemma_items_have_datetime(items.drop_last());
        if has_datetime(items.last()) {
            assert(has_datetime(items[items.len() - 1]));
        }
        if items_have_datetime(items.drop_last()) {
            let i = choose|i: int| 0 <= i < items.len() - 1 && #[trigger] has_datetime(items.drop_last()[i]);
            assert(has_datetime(items[i]));
        }
        if exists|i: int| 0 <= i < items.len() && #[trigger] has_datetime(items[i]) {
            let i = choose|i: int| 0 <= i < items.len() && #[trigger] has_datetime(items[i]);
            if i < items.len() - 1 {
                assert(has_datetime(items.drop_last()[i]));
            }
        }
    }
}

proof fn lemma_entries_have_datetime(entries: TableModel)
    ensures
        entries_have_datetime(entries) <==> exists|i: int| 0 <= i < entries.len() && #[trigger] has_datetime(entries[i].1),
    decreases entries.len(),
{
    if entries.len() > 0 {
        lemma_entries_have_datetime(entries.drop_last());
        if has_datetime(entries.last().1) {
            assert(has_datetime(entries[entries.len() - 1].1));
        }
        if entries_have_datetime(entries.drop_last()) {
            let i = choose|i: int| 0 <= i < entries.len() - 1 && #[trigger] has_datetime(entries.drop_last()[i].1);
            assert(has_datetime(entries[i].1));
        }
        if exists|i: int| 0 <= i < entries.len() && #[trigger] has_datetime(entries[i].1) {
            let i = choose|i: int| 0 <= i < entries.len() && #[trigger] has_datetime(entries[i].1);
            if i < entries.len() - 1 {
                assert(has_datetime(entries.drop_last()[i].1));
            }
        }
    }
}

proof fn lemma_deserialized_items(items: Seq<TomlModel>)
    ensures
        deserialized_items(items).len() == items.len(),
        forall|i: int| 0 <= i < items.len() ==> #[trigger] deserialized_items(items)[i] == deserialized(items[i]),
    decreases items.len(),
{
    if items.len() > 0 {
        lemma_deserialized_items(items.drop_last());
    }
}

/// Converts a TOML value into the variant that stands for it.
pub fn deserialize_variant(value: &TomlValue) -> (res: Variant)
    requires
        !has_datetime(value@),
    ensures
        res@ == deserialized(value@),
        dictionaries_unique(res@),
        match value {
            TomlValue::Integer(i) => res == Variant::Int(*i),
            TomlValue::Float(bits) => res == Variant::Float(*bits),
            TomlValue::Boolean(b) => res == Variant::Bool(*b),
            TomlValue::String(s) => res matches Variant::String(t) && t@ == s@,
            _ => true,
        },
    decreases value,
{
    proof {
        lemma_deserialized_unique(value@);
    }
    match value {
        TomlValue::String(s) => Variant::String(s.clone()),
        TomlValue::Integer(i) => Variant::Int(*i),
        TomlValue::Float(bits) => Variant::Float(*bits),
        TomlValue::Boolean(b) => Variant::Bool(*b),
        TomlValue::Array(items) => deserialize_array(items),
        TomlValue::Table(entries) => deserialize_dictionary(entries),
        TomlValue::Datetime(_) => Variant::Nil,
    }
}

/// Converts the items of a TOML array into an array variant.
pub fn deserialize_array(vec: &Vec<TomlValue>) -> (res: Variant)
    requires
        !items_have_datetime(toml_models(vec@)),
    ensures
        res@ == VariantModel::Array(deserialized_items(toml_models(vec@))),
    decreases vec,
{
    let ghost models = toml_models(vec@);
    proof {
        lemma_toml_models(vec@);
        lemma_items_have_datetime(models);
    }
    let mut array: Vec<Variant> = Vec::new();
    let mut i: usize = 0;
    while i < vec.len()
        invariant
            models == toml_models(vec@),
            models.len() == vec.len(),
            forall|j: int| 0 <= j < vec.len() ==> #[trigger] models[j] == toml_model(vec@[j]),
            !items_have_datetime(models),
            forall|j: int| 0 <= j < models.len() ==> !#[trigger] has_datetime(models[j]),
            i <= vec.len(),
            variant_models(array@) == deserialized_items(models.take(i as int)),
        decreases vec.len() - i,
    {
        assert(!has_datetime(models[i as int]));
        proof {
            assert(decreases_to!(vec => vec@));
            assert(decreases_to!(vec@ => vec@[i as int]));
        }
        let v = deserialize_variant(&vec[i]);
        let ghost before = array@;
        array.push(v);
        proof {
            assert(array@.drop_last() == before);
            assert(models.take(i + 1).drop_last() =~= models.take(i as int));
        }
        i = i + 1;
    }
    assert(models.take(vec.len() as int) =~= models);
    Variant::Array(array)
}

/// Converts the entries of a TOML table into a dictionary variant, setting
/// each key in turn.
pub fn deserialize_dictionary(table: &Vec<(String, TomlValue)>) -> (res: Variant)
    requires
        !entries_have_datetime(table_models(table@)),
    ensures
        res@ == VariantModel::Dictionary(deserialized_table(table_models(table@))),
    decreases table,
{
    let ghost models = table_models(table@);
    proof {
        lemma_table_models(table@);
        lemma_entries_have_datetime(models);
    }
    let mut dictionary: Vec<(String, Variant)> = Vec::new();
    let mut i: usize = 0;
    while i < table.len()
        invariant
            models == table_models(table@),
            models.len() == table.len(),
            forall|j: int| 0 <= j < table.len() ==> #[trigger] models[j] == (table@[j].0@, toml_model(table@[j].1)),
            forall|j: int| 0 <= j < models.len() ==> !#[trigger] has_datetime(models[j].1),
            i <= table.len(),
            entry_models(dictionary@) == deserialized_table(models.take(i as int)),
        decreases table.len() - i,
    {
        assert(!has_datetime(models[i as int].1));
        proof {
            assert(decreases_to!(table => table@));
            assert(decreases_to!(table@ => table@[i as int]));
            assert(decreases_to!(table@[i as int] => table@[i as int].1));
        }
        let v = deserialize_variant(&table[i].1);
        dictionary_set(&mut dictionary, table[i].0.clone(), v);
        proof {
            assert(models.take(i + 1).drop_last() =~= models.take(i as int));
        }
        i = i + 1;
    }
    assert(models.take(table.len() as int) =~= models);
    Variant::Dictionary(dictionary)
}

proof fn lemma_items_serializable(items: Seq<VariantModel>)
    ensures
        items_serializable(items) <==> forall|i: int| 0 <= i < items.len() ==> #[trigger] serializable(items[i]),
    decreases items.len(),
{
    if items.len() > 0 {
        lemma_items_serializable(items.drop_last());
        if items_serializable(items) {
            assert forall|i: int| 0 <= i < items.len() implies #[trigger] serializable(items[i]) by {
                if i < items.len() - 1 {
                    assert(serializable(items.drop_last()[i]));
                }
            }
        }
        if forall|i: int| 0 <= i < items.len() ==> #[trigger] serializable(items[i]) {
            assert(serializable(items[items.len() - 1]));
            assert forall|i: int| 0 <= i < items.len() - 1 implies #[trigger] serializable(items.drop_last()[i]) by {
                assert(serializable(items[i]));
            }
        }
    }
}

proof fn lemma_entries_serializable(entries: DictModel)
    ensures
        entries_serializable(entries) <==> forall|i: int| 0 <= i < entries.len() ==> #[trigger] serializable(entries[i].1),
    decreases entries.len(),
{
    if entries.len() > 0 {
        lemma_entries_serializable(entries.drop_last());
        if entries_serializable(entries) {
            assert forall|i: int| 0 <= i < entries.len() implies #[trigger] serializable(entries[i].1) by {
                if i < entries.len() - 1 {
                    assert(serializable(entries.drop_last()[i].1));
                }
            }
        }
        if forall|i: int| 0 <= i < entries.len() ==> #[trigger] serializable(entries[i].1) {
            assert(serializable(entries[entries.len() - 1].1));
            assert forall|i: int| 0 <= i < entries.len() - 1 implies #[trigger] serializable(entries.drop_last()[i].1) by {
                assert(serializable(entries[i].1));
            }
        }
    }
}

/// Converts a variant into the TOML value that stands for it.
pub fn serialize_variant(variant: Variant) -> (res: TomlValue)
    requires
        serializable(variant@),
    ensures
        res@ == serialized(variant@),
        tables_unique(res@),
        match variant {
            Variant::Int(i) => res == TomlValue::Integer(i),
            Variant::Float(bits) => res == TomlValue::Float(bits),
            Variant::Bool(b) => res == TomlValue::Boolean(b),
            Variant::String(s) => res matches TomlValue::String(t) && t@ == s@,
            _ => true,
        },
    decreases variant,
{
    proof {
        lemma_serialized_unique(variant@);
    }
    match variant {
        Variant::String(s) => TomlValue::String(s),
        Variant::Int(i) => TomlValue::Integer(i),
        Variant::Float(bits) => TomlValue::Float(bits),
        Variant::Bool(b) => TomlValue::Boolean(b),
        Variant::Array(items) => serialize_array(items),
        Variant::Dictionary(entries) => serialize_dictionary(entries),
        _ => TomlValue::Boolean(false),
    }
}

/// Converts the items of an array variant into a TOML array.
pub fn serialize_array(vec: Vec<Variant>) -> (res: TomlValue)
    requires
        items_serializable(variant_models(vec@)),
    ensures
        res@ == TomlModel::Array(serialized_items(variant_models(vec@))),
    decreases vec,
{
    let ghost models = variant_models(vec@);
    let ghost items = vec@;
    proof {
        lemma_variant_models(vec@);
        lemma_items_serializable(models);
    }
    let mut array: Vec<TomlValue> = Vec::new();
    for variant in it: vec
        invariant
            items == it.seq(),
            models == variant_models(items),
            models.len() == items.len(),
            forall|j: int| 0 <= j < items.len() ==> #[trigger] models[j] == variant_model(items[j]),
            forall|j: int| 0 <= j < models.len() ==> #[trigger] serializable(models[j]),
            toml_models(array@) == serialized_items(models.take(it.index() as int)),
    {
        let ghost k = it.index() as int;
        assert(serializable(models[k]));
        proof {
            assert(decreases_to!(vec => vec@));
            assert(decreases_to!(vec@ => vec@[k]));
        }
        let t = serialize_variant(variant);
        let ghost before = array@;
        array.push(t);
        proof {
            assert(array@.drop_last() == before);
            assert(models.take(k + 1).drop_last() =~= models.take(k));
        }
    }
    assert(models.take(items.len() as int) =~= models);
    TomlValue::Array(array)
}

/// Converts the entries of a dictionary variant into a TOML table, inserting
/// each key in turn.
pub fn serialize_dictionary(dict: Vec<(String, Variant)>) -> (res: TomlValue)
    requires
        entries_serializable(entry_models(dict@)),
    ensures
        res@ == TomlModel::Table(serialized_dictionary(entry_models(dict@))),
    decreases dict,
{
    let ghost models = entry_models(dict@);
    let ghost entries = dict@;
    proof {
        lemma_entry_models(dict@);
        lemma_entries_serializable(models);
    }
    let mut table: Vec<(String, TomlValue)> = Vec::new();
    for entry in it: dict
        invariant
            entries == it.seq(),
            models == entry_models(entries),
            models.len() == entries.len(),
            forall|j: int| 0 <= j < entries.len() ==> #[trigger] models[j] == (entries[j].0@, variant_model(entries[j].1)),
            forall|j: int| 0 <= j < models.len() ==> #[trigger] serializable(models[j].1),
            table_models(table@) == serialized_dictionary(models.take(it.index() as int)),
    {
        let ghost k = it.index() as int;
        assert(serializable(models[k].1));
        proof {
            assert(decreases_to!(dict => dict@));
            assert(decreases_to!(dict@ => dict@[k]));
            assert(decreases_to!(dict@[k] => dict@[k].1));
        }
        let (key, value) = entry;
        let t = serialize_variant(value);
        table_insert(&mut table, key, t);
        proof {
            assert(models.take(k + 1).drop_last() =~= models.take(k));
        }
    }
    assert(models.take(entries.len() as int) =~= models);
    TomlValue::Table(table)
}

/// Every table in the value, at any depth, has each key once, as every
/// table that a TOML document yields does.
pub open spec fn tables_unique(t: TomlModel) -> bool
    decreases t,
{
    match t {
        TomlModel::Array(items) => forall|i: int| 0 <= i < items.len() ==> tables_unique(#[trigger] items[i]),
        TomlModel::Table(entries) => keys_unique(entries) && forall|i: int|
            0 <= i < entries.len() ==> tables_unique(#[trigger] entries[i].1),
        _ => true,
    }
}

/// Every dictionary in the variant, at any depth, has each key once.
pub open spec fn dictionaries_unique(v: VariantModel) -> bool
    decreases v,
{
    match v {
        VariantModel::Array(items) => forall|i: int|
            0 <= i < items.len() ==> dictionaries_unique(#[trigger] items[i]),
        VariantModel::Dictionary(entries) => keys_unique(entries) && forall|i: int|
            0 <= i < entries.len() ==> dictionaries_unique(#[trigger] entries[i].1),
        _ => true,
    }
}

proof fn lemma_serialized_items(items: Seq<VariantModel>)
    ensures
        serialized_items(items).len() == items.len(),
        forall|i: int| 0 <= i < items.len() ==> #[trigger] serialized_items(items)[i] == serialized(items[i]),
    decreases items.len(),
{
    if items.len() > 0 {
        lemma_serialized_items(items.drop_last());
    }
}

/// A table with unique keys becomes the dictionary of its entries, in order.
proof fn lemma_deserialized_table_unique(entries: TableModel)
    requires
        keys_unique(entries),
    ensures
        deserialized_table(entries).len() == entries.len(),
        forall|i: int| 0 <= i < entries.len() ==> #[trigger] deserialized_table(entries)[i] == (
            entries[i].0,
            deserialized(entries[i].1),
        ),
    decreases entries.len(),
{
    if entries.len() > 0 {
        let init = entries.drop_last();
        assert(keys_unique(init));
        lemma_deserialized_table_unique(init);
        let d = deserialized_table(init);
        assert(!has_key(d, entries.last().0)) by {
            if has_key(d, entries.last().0) {
                let w = choose|w: int| 0 <= w < d.len() && d[w].0 == entries.last().0;
                assert(entries[w].0 == entries[entries.len() - 1].0);
            }
        }
        lemma_assoc_set_absent(d, entries.last().0, deserialized(entries.last().1));
    }
}

/// A dictionary with unique keys becomes the table of its entries, in order.
proof fn lemma_serialized_dictionary_unique(entries: DictModel)
    requires
        keys_unique(entries),
    ensures
        serialized_dictionary(entries).len() == entries.len(),
        forall|i: int| 0 <= i < entries.len() ==> #[trigger] serialized_dictionary(entries)[i] == (
            entries[i].0,
            serialized(entries[i].1),
        ),
    decreases entries.len(),
{
    if entries.len() > 0 {
        let init = entries.drop_last();
        assert(keys_unique(init));
        lemma_serialized_dictionary_unique(init);
        let d = serialized_dictionary(init);
        assert(!has_key(d, entries.last().0)) by {
            if has_key(d, entries.last().0) {
                let w = choose|w: int| 0 <= w < d.len() && d[w].0 == entries.last().0;
                assert(entries[w].0 == entries[entries.len() - 1].0);
            }
        }
        lemma_assoc_set_absent(d, entries.last().0, serialized(entries.last().1));
    }
}

/// Every dictionary that reading a TOML value builds has unique keys.
pub proof fn lemma_deserialized_unique(t: TomlModel)
    ensures
        dictionaries_unique(deserialized(t)),
    decreases t, 1nat,
{
    match t {
        TomlModel::Array(items) => {
            lemma_deserialized_items(items);
            assert forall|i: int| 0 <= i < items.len() implies dictionaries_unique(#[trigger] deserialized_items(items)[i]) by {
                lemma_deserialized_unique(items[i]);
            }
        },
        TomlModel::Table(entries) => {
            lemma_deserialized_table_all_unique(entries);
        },
        _ => {},
    }
}

/// The dictionary that a table is read into has unique keys, and unique keys in
/// each value.
proof fn lemma_deserialized_table_all_unique(entries: TableModel)
    ensures
        keys_unique(deserialized_table(entries)),
        forall|i: int| 0 <= i < deserialized_table(entries).len() ==> dictionaries_unique(#[trigger] deserialized_table(entries)[i].1),
    decreases entries, 0nat,
{
    if entries.len() > 0 {
        let init = entries.drop_last();
        lemma_deserialized_table_all_unique(init);
        let d = deserialized_table(init);
        let v = deserialized(entries.last().1);
        lemma_deserialized_unique(entries.last().1);
        lemma_assoc_set_unique(d, entries.last().0, v);
        lemma_assoc_set_entries(d, entries.last().0, v);
        let r = assoc_set(d, entries.last().0, v);
        assert forall|i: int| 0 <= i < r.len() implies dictionaries_unique(#[trigger] r[i].1) by {
            if i < d.len() && r[i] == d[i] {
                assert(dictionaries_unique(d[i].1));
            }
        }
    }
}

/// Every table that writing a variant builds has unique keys.
pub proof fn lemma_serialized_unique(v: VariantModel)
    ensures
        tables_unique(serialized(v)),
    decreases v, 1nat,
{
    match v {
        VariantModel::Array(items) => {
            lemma_serialized_items(items);
            assert forall|i: int| 0 <= i < items.len() implies tables_unique(#[trigger] serialized_items(items)[i]) by {
                lemma_serialized_unique(items[i]);
            }
        },
        VariantModel::Dictionary(entries) => {
            lemma_serialized_dictionary_all_unique(entries);
        },
        _ => {},
    }
}

/// The table that a dictionary is written as has unique keys, and unique keys
/// in each value.
proof fn lemma_serialized_dictionary_all_unique(entries: DictModel)
    ensures
        keys_unique(serialized_dictionary(entries)),
        forall|i: int| 0 <= i < serialized_dictionary(entries).len() ==> tables_unique(#[trigger] serialized_dictionary(entries)[i].1),
    decreases entries, 0nat,
{
    if entries.len() > 0 {
        let init = entries.drop_last();
        lemma_serialized_dictionary_all_unique(init);
        let d = serialized_dictionary(init);
        let v = serialized(entries.last().1);
        lemma_serialized_unique(entries.last().1);
        lemma_assoc_set_unique(d, entries.last().0, v);
        lemma_assoc_set_entries(d, entries.last().0, v);
        let r = assoc_set(d, entries.last().0, v);
        assert forall|i: int| 0 <= i < r.len() implies tables_unique(#[trigger] r[i].1) by {
            if i < d.len() && r[i] == d[i] {
                assert(tables_unique(d[i].1));
            }
        }
    }
}

/// Writing back what was read gives the same TOML value: for a value without
/// date-times whose tables have unique keys, the variant it becomes can be
/// converted back, and converts back to the value itself.
pub proof fn lemma_deserialize_then_serialize(t: TomlModel)
    requires
        !has_datetime(t),
        tables_unique(t),
    ensures
        serializable(deserialized(t)),
        dictionaries_unique(deserialized(t)),
        serialized(deserialized(t)) == t,
    decreases t,
{
    match t {
        TomlModel::Array(items) => {
            lemma_items_have_datetime(items);
            lemma_deserialized_items(items);
            let ds = deserialized_items(items);
            assert forall|i: int| 0 <= i < items.len() implies {
                &&& serializable(#[trigger] ds[i])
                &&& dictionaries_unique(ds[i])
                &&& serialized(ds[i]) == items[i]
            } by {
                assert(tables_unique(items[i]));
                lemma_deserialize_then_serialize(items[i]);
            }
            lemma_items_serializable(ds);
            lemma_serialized_items(ds);
            assert(serialized_items(ds) =~= items);
        },
        TomlModel::Table(entries) => {
            lemma_entries_have_datetime(entries);
            lemma_deserialized_table_unique(entries);
            let d = deserialized_table(entries);
            assert forall|i: int| 0 <= i < entries.len() implies {
                &&& serializable(#[trigger] d[i].1)
                &&& dictionaries_unique(d[i].1)
                &&& serialized(d[i].1) == entries[i].1
            } by {
                assert(tables_unique(entries[i].1));
                assert(!has_datetime(entries[i].1));
                lemma_deserialize_then_serialize(entries[i].1);
            }
            assert(keys_unique(d)) by {
                assert forall|i: int, j: int| 0 <= i < j < d.len() implies d[i].0 != d[j].0 by {
                    assert(entries[i].0 != entries[j].0);
                }
            }
            lemma_entries_serializable(d);
            lemma_serialized_dictionary_unique(d);
            assert(serialized_dictionary(d) =~= entries);
        },
        _ => {},
    }
}

/// Reading back what was written gives the same variant: for a variant that has
/// a TOML value and whose dictionaries have unique keys, the TOML value has no
/// date-time and unique table keys, and converts back to the variant itself.
pub proof fn lemma_serialize_then_deserialize(v: VariantModel)
    requires
        serializable(v),
        dictionaries_unique(v),
    ensures
        !has_datetime(serialized(v)),
        tables_unique(serialized(v)),
        deserialized(serialized(v)) == v,
    decreases v,
{
    match v {
        VariantModel::Array(items) => {
            lemma_items_serializable(items);
            lemma_serialized_items(items);
            let ss = serialized_items(items);
            assert forall|i: int| 0 <= i < items.len() implies {
                &&& !has_datetime(#[trigger] ss[i])
                &&& tables_unique(ss[i])
                &&& deserialized(ss[i]) == items[i]
            } by {
                assert(dictionaries_unique(items[i]));
                lemma_serialize_then_deserialize(items[i]);
            }
            lemma_items_have_datetime(ss);
            lemma_deserialized_items(ss);
            assert(deserialized_items(ss) =~= items);
        },
        VariantModel::Dictionary(entries) => {
            lemma_entries_serializable(entries);
            lemma_serialized_dictionary_unique(entries);
            let s = serialized_dictionary(entries);
            assert forall|i: int| 0 <= i < entries.len() implies {
                &&& !has_datetime(#[trigger] s[i].1)
                &&& tables_unique(s[i].1)
                &&& deserialized(s[i].1) == entries[i].1
            } by {
                assert(dictionaries_unique(entries[i].1));
                assert(serializable(entries[i].1));
                lemma_serialize_then_deserialize(entries[i].1);
            }
            assert(keys_unique(s)) by {
                assert forall|i: int, j: int| 0 <= i < j < s.len() implies s[i].0 != s[j].0 by {
                    assert(entries[i].0 != entries[j].0);
                }
            }
            lemma_entries_have_datetime(s);
            lemma_deserialized_table_unique(s);
            assert(deserialized_table(s) =~= entries);
        },
        _ => {},
    }
}

/// Whether a date-time occurs anywhere in the value (a value that holds one
/// has no variant).
pub fn contains_datetime(value: &TomlValue) -> (res: bool)
    ensures
        res == has_datetime(value@),
    decreases value,
{
    match value {
        TomlValue::Datetime(_) => true,
        TomlValue::Array(items) => {
            let ghost models = toml_models(items@);
            proof {
                lemma_toml_models(items@);
                lemma_items_have_datetime(models);
            }
            let mut i: usize = 0;
            while i < items.len()
                invariant
                    models == toml_models(items@),
                    models.len() == items.len(),
                    forall|j: int| 0 <= j < items.len() ==> #[trigger] models[j] == toml_model(items@[j]),
                    i <= items.len(),
                    forall|j: int| 0 <= j < i ==> !#[trigger] has_datetime(models[j]),
                    items_have_datetime(models) <==> exists|j: int| 0 <= j < models.len() && #[trigger] has_datetime(models[j]),
                    *value == TomlValue::Array(*items),
                decreases items.len() - i,
            {
                proof {
                    assert(decreases_to!(value => value->Array_0));
                    assert(decreases_to!(items => items@));
                    assert(decreases_to!(items@ => items@[i as int]));
                }
                if contains_datetime(&items[i]) {
                    assert(has_datetime(models[i as int]));
                    return true;
                }
                i = i + 1;
            }
            false
        },
        TomlValue::Table(entries) => {
            let ghost models = table_models(entries@);
            proof {
                lemma_table_models(entries@);
                lemma_entries_have_datetime(models);
            }
            let mut i: usize = 0;
            while i < entries.len()
                invariant
                    models == table_models(entries@),
                    models.len() == entries.len(),
                    forall|j: int| 0 <= j < entries.len() ==> #[trigger] models[j] == (entries@[j].0@, toml_model(entries@[j].1)),
                    i <= entries.len(),
                    forall|j: int| 0 <= j < i ==> !#[trigger] has_datetime(models[j].1),
                    entries_have_datetime(models) <==> exists|j: int| 0 <= j < models.len() && #[trigger] has_datetime(models[j].1),
                    *value == TomlValue::Table(*entries),
                decreases entries.len() - i,
            {
                proof {
                    assert(decreases_to!(value => value->Table_0));
                    assert(decreases_to!(entries => entries@));
                    assert(decreases_to!(entries@ => entries@[i as int]));
                    assert(decreases_to!(entries@[i as int] => entries@[i as int].1));
                }
                if contains_datetime(&entries[i].1) {
                    assert(has_datetime(models[i as int].1));
                    return true;
                }
                i = i + 1;
            }
            false
        },
        _ => false,
    }
}

/// A scalar keeps its kind and its value when it is read into a variant, and
/// when a variant is written as TOML: an integer stays the same integer, a
/// float the same bits, a boolean the same truth value, a string the same text.
pub proof fn lemma_scalars_keep_value(i: i64, bits: u64, b: bool, text: Seq<char>)
    ensures
        deserialized(TomlModel::Integer(i)) == VariantModel::Int(i),
        deserialized(TomlModel::Float(bits)) == VariantModel::Float(bits),
        deserialized(TomlModel::Boolean(b)) == VariantModel::Bool(b),
        deserialized(TomlModel::String(text)) == VariantModel::String(text),
        serialized(VariantModel::Int(i)) == TomlModel::Integer(i),
        serialized(VariantModel::Float(bits)) == TomlModel::Float(bits),
        serialized(VariantModel::Bool(b)) == TomlModel::Boolean(b),
        serialized(VariantModel::String(text)) == TomlModel::String(text),
{
}

/// Reading an array keeps its items in order, and reading a table keeps its
/// keys: each item is read in its place, and each key of a table with unique
/// keys holds the value read from that key's entry.
pub proof fn lemma_containers_keep_shape(items: Seq<TomlModel>, entries: TableModel)
    requires
        keys_unique(entries),
    ensures
        deserialized(TomlModel::Array(items)) matches VariantModel::Array(vs) && vs.len() == items.len()
            && forall|j: int| 0 <= j < items.len() ==> vs[j] == deserialized(#[trigger] items[j]),
        deserialized(TomlModel::Table(entries)) matches VariantModel::Dictionary(d) && d.len() == entries.len()
            && forall|j: int| 0 <= j < entries.len() ==> d[j] == (#[trigger] entries[j].0, deserialized(entries[j].1)),
{
    lemma_deserialized_items(items);
    lemma_deserialized_table_unique(entries);
}

} // verus!
