//! The Godot values that the library produces and reads, as plain data.
//!
//! Real numbers are not held as floating-point values: a `Float` holds the
//! IEEE-754 bits of the `f64`, and the components of the math types hold the
//! decimal text that is read as an `f32` when the value is handed to Godot.

use vstd::prelude::*;
use crate::assoc::{assoc_set, has_key, is_first_key_at, lemma_assoc_set_absent, lemma_assoc_set_present};

verus! {

/// A two-component vector; each component is the decimal text of an `f32`.
#[derive(Debug, PartialEq)]
pub struct Vector2 {
    pub x: String,
    pub y: String,
}

/// A three-component vector; each component is the decimal text of an `f32`.
#[derive(Debug, PartialEq)]
pub struct Vector3 {
    pub x: String,
    pub y: String,
    pub z: String,
}

/// An axis-aligned rectangle given by its position and its size.
#[derive(Debug, PartialEq)]
pub struct Rect2 {
    pub position: Vector2,
    pub size: Vector2,
}

/// A plane given by its normal and its distance `d` from the origin.
#[derive(Debug, PartialEq)]
pub struct Plane {
    pub normal: Vector3,
    pub d: String,
}

/// A 2D transform given by its columns: the x axis, the y axis and the origin.
#[derive(Debug, PartialEq)]
pub struct Transform2D {
    pub a: Vector2,
    pub b: Vector2,
    pub origin: Vector2,
}

/// A 3x3 matrix given by its columns: the x, y and z axis vectors.
#[derive(Debug, PartialEq)]
pub struct Basis {
    pub col_x: Vector3,
    pub col_y: Vector3,
    pub col_z: Vector3,
}

/// A 3D transform: a basis, whose columns are the transform's axis vectors,
/// and an origin.
#[derive(Debug, PartialEq)]
pub struct Transform3D {
    pub basis: Basis,
    pub origin: Vector3,
}

/// A colour from red, green and blue, with an alpha when one was given
/// (without one, Godot makes the colour opaque).
#[derive(Debug, PartialEq)]
pub struct Color {
    pub r: String,
    pub g: String,
    pub b: String,
    pub a: Option<String>,
}

/// A Godot variant. Dictionary keys are held by their text, in insertion order.
#[derive(Debug, PartialEq)]
pub enum Variant {
    Nil,
    Bool(bool),
    Int(i64),
    /// The IEEE-754 bits of the `f64`.
    Float(u64),
    String(String),
    Array(Vec<Variant>),
    Dictionary(Vec<(String, Variant)>),
    Vector2(Vector2),
    Vector3(Vector3),
    Rect2(Rect2),
    Plane(Plane),
    Transform2D(Transform2D),
    Basis(Basis),
    Transform3D(Transform3D),
    Color(Color),
}

/// The mathematical value of a `Vector2`.
pub struct Vec2Model {
    pub x: Seq<char>,
    pub y: Seq<char>,
}

/// The mathematical value of a `Vector3`.
pub struct Vec3Model {
    pub x: Seq<char>,
    pub y: Seq<char>,
    pub z: Seq<char>,
}

/// The entries of a dictionary, by key text.
pub type DictModel = Seq<(Seq<char>, VariantModel)>;

/// The mathematical value of a `Variant`.
pub enum VariantModel {
    Nil,
    Bool(bool),
    Int(i64),
    Float(u64),
    String(Seq<char>),
    Array(Seq<VariantModel>),
    Dictionary(DictModel),
    Vector2(Vec2Model),
    Vector3(Vec3Model),
    Rect2(Vec2Model, Vec2Model),
    Plane(Vec3Model, Seq<char>),
    Transform2D(Vec2Model, Vec2Model, Vec2Model),
    /// The x, y and z columns.
    Basis(Vec3Model, Vec3Model, Vec3Model),
    /// The x, y and z axis vectors (the columns of the basis) and the origin.
    Transform3D(Vec3Model, Vec3Model, Vec3Model, Vec3Model),
    Color(Seq<char>, Seq<char>, Seq<char>, Option<Seq<char>>),
}

impl View for Vector2 {
    type V = Vec2Model;

    open spec fn view(&self) -> Vec2Model {
        Vec2Model { x: self.x@, y: self.y@ }
    }
}

impl View for Vector3 {
    type V = Vec3Model;

    open spec fn view(&self) -> Vec3Model {
        Vec3Model { x: self.x@, y: self.y@, z: self.z@ }
    }
}

/// The text of an optional component.
pub open spec fn opt_text(t: Option<String>) -> Option<Seq<char>> {
    match t {
        Some(s) => Some(s@),
        None => None,
    }
}

/// The mathematical value of a variant.
pub open spec fn variant_model(v: Variant) -> VariantModel
    decreases v,
{
    match v {
        Variant::Nil => VariantModel::Nil,
        Variant::Bool(b) => VariantModel::Bool(b),
        Variant::Int(i) => VariantModel::Int(i),
        Variant::Float(bits) => VariantModel::Float(bits),
        Variant::String(s) => VariantModel::String(s@),
        Variant::Array(items) => VariantModel::Array(variant_models(items@)),
        Variant::Dictionary(entries) => VariantModel::Dictionary(entry_models(entries@)),
        Variant::Vector2(v) => VariantModel::Vector2(v@),
        Variant::Vector3(v) => VariantModel::Vector3(v@),
        Variant::Rect2(r) => VariantModel::Rect2(r.position@, r.size@),
        Variant::Plane(p) => VariantModel::Plane(p.normal@, p.d@),
        Variant::Transform2D(t) => VariantModel::Transform2D(t.a@, t.b@, t.origin@),
        Variant::Basis(b) => VariantModel::Basis(b.col_x@, b.col_y@, b.col_z@),
        Variant::Transform3D(t) => VariantModel::Transform3D(
            t.basis.col_x@,
            t.basis.col_y@,
            t.basis.col_z@,
            t.origin@,
        ),
        Variant::Color(c) => VariantModel::Color(c.r@, c.g@, c.b@, opt_text(c.a)),
    }
}

/// The values of a sequence of variants.
pub open spec fn variant_models(items: Seq<Variant>) -> Seq<VariantModel>
    decreases items,
{
    if items.len() == 0 {
        Seq::empty()
    } else {
        variant_models(items.drop_last()).push(variant_model(items.last()))
    }
}

/// The entries of a dictionary, by key text and value.
pub open spec fn entry_models(entries: Seq<(String, Variant)>) -> DictModel
    decreases entries,
{
    if entries.len() == 0 {
        Seq::empty()
    } else {
        entry_models(entries.drop_last()).push(
            (entries.last().0@, variant_model(entries.last().1)),
        )
    }
}

impl View for Variant {
    type V = VariantModel;

    open spec fn view(&self) -> VariantModel {
        variant_model(*self)
    }
}

/// `variant_models` maps each item.
pub proof fn lemma_variant_models(items: Seq<Variant>)
    ensures
        variant_models(items).len() == items.len(),
        forall|i: int|
            0 <= i < items.len() ==> #[trigger] variant_models(items)[i] == variant_model(items[i]),
    decreases items.len(),
{
    if items.len() > 0 {
        lemma_variant_models(items.drop_last());
    }
}

/// `entry_models` maps each entry.
pub proof fn lemma_entry_models(entries: Seq<(String, Variant)>)
    ensures
        entry_models(entries).len() == entries.len(),
        forall|i: int|
            0 <= i < entries.len() ==> #[trigger] entry_models(entries)[i] == (
                entries[i].0@,
                variant_model(entries[i].1),
            ),
    decreases entries.len(),
{
    if entries.len() > 0 {
        lemma_entry_models(entries.drop_last());
    }
}

/// Sets `key` to `value` in a dictionary: the entry with that key gets the
/// new value in place, or the pair is appended.
pub fn dictionary_set(dictionary: &mut Vec<(String, Variant)>, key: String, value: Variant)
    ensures
        entry_models(final(dictionary)@) == assoc_set(
            entry_models(old(dictionary)@),
            key@,
            variant_model(value),
        ),
{
    let ghost old_entries = dictionary@;
    proof {
        lemma_entry_models(old_entries);
    }
    let mut i: usize = 0;
    while i < dictionary.len()
        invariant
            dictionary@ == old_entries,
            old_entries == old(dictionary)@,
            i <= dictionary.len(),
            forall|j: int| 0 <= j < i ==> old_entries[j].0@ != key@,
        decreases dictionary.len() - i,
    {
        if dictionary[i].0 == key {
            let ghost models = entry_models(old_entries);
            proof {
                lemma_entry_models(old_entries);
                assert(is_first_key_at(models, key@, i as int));
                lemma_assoc_set_present(models, key@, variant_model(value), i as int);
            }
            dictionary.set(i, (key, value));
            proof {
                lemma_entry_models(dictionary@);
                assert(entry_models(dictionary@) =~= models.update(
                    i as int,
                    (key@, variant_model(value)),
                ));
            }
            return;
        }
        i = i + 1;
    }
    proof {
        lemma_entry_models(old_entries);
        let models = entry_models(old_entries);
        assert(!has_key(models, key@));
        lemma_assoc_set_absent(models, key@, variant_model(value));
    }
    dictionary.push((key, value));
    proof {
        lemma_entry_models(dictionary@);
        assert(entry_models(dictionary@) =~= entry_models(old_entries).push(
            (key@, variant_model(value)),
        ));
    }
}

} // verus!
