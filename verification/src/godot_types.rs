//! Godot types written as text in TOML strings, such as `"Vector2(1, 2)"` or
//! `"Rect2(Vector2(0, 0), Vector2(4, 3))"`, decoded into the variants they name.
//!
//! A text is cut into tokens by the type pattern; the first token names the
//! type and the following tokens give its components. Compound types
//! (`Rect2`, `Plane`, `Transform2D`, `Basis`, `Transform`) first gather the
//! vectors written after their name into a pool, then read their parts from it.

use vstd::prelude::*;
use vstd::string::StringExecFns;
use crate::assoc::{assoc_set, is_first_key_at, lemma_assoc_set_sets, lemma_first_key_unique, lookup};
use crate::pattern::{godot_type_tokens, text_contains, text_tokens, texts, trim_text, trimmed};
use crate::variant::{
    Basis, Color, DictModel, Plane, Rect2, Transform2D, Transform3D, Variant, VariantModel, Vec2Model,
    Vec3Model, Vector2, Vector3, dictionary_set, entry_models, lemma_entry_models, variant_model, variant_models,
};
use crate::toml_value::{TableModel, TomlModel, TomlValue, lemma_table_models, lemma_toml_models, table_models, toml_model, toml_models};

verus! {

broadcast use vstd::string::group_string_axioms;

/// A vector from the trimmed texts of its components.
pub open spec fn vec2_from(x: Seq<char>, y: Seq<char>) -> Vec2Model {
    Vec2Model { x: trimmed(x), y: trimmed(y) }
}

/// A vector from the trimmed texts of its components.
pub open spec fn vec3_from(x: Seq<char>, y: Seq<char>, z: Seq<char>) -> Vec3Model {
    Vec3Model { x: trimmed(x), y: trimmed(y), z: trimmed(z) }
}

/// A `Vector2` at `(x, y)`.
pub fn encode_vector2(x: &str, y: &str) -> (res: Vector2)
    ensures
        res@ == vec2_from(x@, y@),
{
    let vec_x = trim_text(x);
    let vec_y = trim_text(y);
    Vector2 { x: vec_x, y: vec_y }
}

/// A `Vector3` with the given `x`, `y` and `z`.
pub fn encode_vector3(x: &str, y: &str, z: &str) -> (res: Vector3)
    ensures
        res@ == vec3_from(x@, y@, z@),
{
    let vec_x = trim_text(x);
    let vec_y = trim_text(y);
    let vec_z = trim_text(z);
    Vector3 { x: vec_x, y: vec_y, z: vec_z }
}

/// A `Rect2` at the position `pos_vec` with the size `size_vec`.
pub fn encode_rect2(pos_vec: Vector2, size_vec: Vector2) -> (res: Rect2)
    ensures
        res.position@ == pos_vec@,
        res.size@ == size_vec@,
{
    Rect2 { position: Vector2 { x: pos_vec.x, y: pos_vec.y }, size: Vector2 { x: size_vec.x, y: size_vec.y } }
}

/// A 3D transform whose basis has the three axis vectors as its columns, and
/// the origin.
pub fn encode_transform(x_axis_vec: Vector3, y_axis_vec: Vector3, z_axis_vec: Vector3, origin_vec: Vector3) -> (res: Transform3D)
    ensures
        res.basis.col_x@ == x_axis_vec@,
        res.basis.col_y@ == y_axis_vec@,
        res.basis.col_z@ == z_axis_vec@,
        res.origin@ == origin_vec@,
{
    Transform3D { basis: encode_basis(x_axis_vec, y_axis_vec, z_axis_vec), origin: origin_vec }
}

/// A `Plane` with the normal `normal_vec` and the distance `d`.
pub fn encode_plane(normal_vec: Vector3, d: &str) -> (res: Plane)
    ensures
        res.normal@ == normal_vec@,
        res.d@ == trimmed(d@),
{
    let d_parsed = trim_text(d);
    Plane { normal: normal_vec, d: d_parsed }
}

/// A `Basis` whose x, y and z columns are `x`, `y` and `z`.
pub fn encode_basis(x: Vector3, y: Vector3, z: Vector3) -> (res: Basis)
    ensures
        res.col_x@ == x@,
        res.col_y@ == y@,
        res.col_z@ == z@,
{
    Basis { col_x: x, col_y: y, col_z: z }
}

/// A `Color` from red, green and blue, and the alpha when one is given.
pub fn encode_color(r: &str, g: &str, b: &str, a: Option<&str>) -> (res: Color)
    ensures
        res.r@ == trimmed(r@),
        res.g@ == trimmed(g@),
        res.b@ == trimmed(b@),
        match a {
            Some(alpha) => res.a matches Some(t) && t@ == trimmed(alpha@),
            None => res.a is None,
        },
{
    let r_parsed = trim_text(r);
    let g_parsed = trim_text(g);
    let b_parsed = trim_text(b);
    match a {
        Some(alpha) => {
            let a_parsed = trim_text(alpha);
            Color { r: r_parsed, g: g_parsed, b: b_parsed, a: Some(a_parsed) }
        },
        None => Color { r: r_parsed, g: g_parsed, b: b_parsed, a: None },
    }
}

/// The state that decoding tokens works on: the dictionary, and the pools
/// of vectors gathered for a compound type, when one is being read.
pub struct Placement {
    pub dict: DictModel,
    pub pool2: Option<Seq<Vec2Model>>,
    pub pool3: Option<Seq<Vec3Model>>,
}

/// The number of vectors in a pool, when there is one.
pub open spec fn pool_len<T>(pool: Option<Seq<T>>) -> Option<nat> {
    match pool {
        Some(p) => Some(p.len()),
        None => None,
    }
}

/// The vectors of a pool of `Vector2`s.
pub open spec fn vec2_pool_model(pool: Option<Vec<Vector2>>) -> Option<Seq<Vec2Model>> {
    match pool {
        Some(p) => Some(p@.map_values(|v: Vector2| v@)),
        None => None,
    }
}

/// The vectors of a pool of `Vector3`s.
pub open spec fn vec3_pool_model(pool: Option<Vec<Vector3>>) -> Option<Seq<Vec3Model>> {
    match pool {
        Some(p) => Some(p@.map_values(|v: Vector3| v@)),
        None => None,
    }
}

/// Whether decoding `tokens` from position `i` on completes, with pools of
/// `n2` and `n3` vectors when there are pools; if it does, the sizes of the
/// pools at the end. It fails where a type lacks the tokens of its components,
/// or a compound type finds too few vectors in its pool.
pub open spec fn placement_shape(tokens: Seq<Seq<char>>, i: int, n2: Option<nat>, n3: Option<nat>) -> Option<
    (Option<nat>, Option<nat>),
>
    decreases tokens.len(), tokens.len() - i,
{
    if i < 0 || i >= tokens.len() {
        Some((n2, n3))
    } else if tokens[i] == "Vector2"@ {
        if i + 2 < tokens.len() {
            match n2 {
                Some(k) => placement_shape(tokens, i + 1, Some(k + 1), n3),
                None => Some((n2, n3)),
            }
        } else {
            None
        }
    } else if tokens[i] == "Vector3"@ {
        if i + 3 < tokens.len() {
            match n3 {
                Some(k) => placement_shape(tokens, i + 1, n2, Some(k + 1)),
                None => Some((n2, n3)),
            }
        } else {
            None
        }
    } else if tokens[i] == "Color"@ {
        if i + 3 < tokens.len() && (tokens.len() == 5 ==> i + 4 < tokens.len()) {
            Some((n2, n3))
        } else {
            None
        }
    } else if tokens[i] == "Rect2"@ {
        match placement_shape(tokens.subrange(i + 1, tokens.len() as int), 0, Some(0), None) {
            Some((Some(k), _)) => if k >= 2 { Some((n2, n3)) } else { None },
            _ => None,
        }
    } else if tokens[i] == "Plane"@ {
        match placement_shape(tokens.subrange(i + 1, tokens.len() as int), 0, None, Some(0)) {
            Some((_, Some(k))) => if k >= 1 { Some((n2, n3)) } else { None },
            _ => None,
        }
    } else if tokens[i] == "Transform2D"@ {
        match placement_shape(tokens.subrange(i + 1, tokens.len() as int), 0, Some(0), None) {
            Some((Some(k), _)) => if k >= 3 { Some((n2, n3)) } else { None },
            _ => None,
        }
    } else if tokens[i] == "Basis"@ {
        match placement_shape(tokens.subrange(i + 1, tokens.len() as int), 0, None, Some(0)) {
            Some((_, Some(k))) => if k >= 3 { Some((n2, n3)) } else { None },
            _ => None,
        }
    } else if tokens[i] == "Transform"@ {
        match placement_shape(tokens.subrange(i + 1, tokens.len() as int), 0, None, Some(0)) {
            Some((_, Some(k))) => if k >= 4 { Some((n2, n3)) } else { None },
            _ => None,
        }
    } else {
        placement_shape(tokens, i + 1, n2, n3)
    }
}

/// The state after decoding `tokens` from position `i` on, setting `key` in
/// the dictionary. A vector goes into its pool when there is one, and is set
/// otherwise; every other type is set and ends the decoding. A compound type
/// decodes the tokens after its name with a fresh pool and reads its parts
/// from the first vectors of that pool; a `Plane` takes its distance from the
/// last token.
pub open spec fn placement(tokens: Seq<Seq<char>>, i: int, key: Seq<char>, st: Placement) -> Placement
    decreases tokens.len(), tokens.len() - i,
{
    if i < 0 || i >= tokens.len() {
        st
    } else if tokens[i] == "Vector2"@ {
        let v = vec2_from(tokens[i + 1], tokens[i + 2]);
        match st.pool2 {
            Some(pool) => placement(
                tokens,
                i + 1,
                key,
                Placement { dict: st.dict, pool2: Some(pool.push(v)), pool3: st.pool3 },
            ),
            None => Placement {
                dict: assoc_set(st.dict, key, VariantModel::Vector2(v)),
                pool2: st.pool2,
                pool3: st.pool3,
            },
        }
    } else if tokens[i] == "Vector3"@ {
        let v = vec3_from(tokens[i + 1], tokens[i + 2], tokens[i + 3]);
        match st.pool3 {
            Some(pool) => placement(
                tokens,
                i + 1,
                key,
                Placement { dict: st.dict, pool2: st.pool2, pool3: Some(pool.push(v)) },
            ),
            None => Placement {
                dict: assoc_set(st.dict, key, VariantModel::Vector3(v)),
                pool2: st.pool2,
                pool3: st.pool3,
            },
        }
    } else if tokens[i] == "Color"@ {
        let alpha = if tokens.len() == 5 { Some(trimmed(tokens[i + 4])) } else { None };
        let c = VariantModel::Color(trimmed(tokens[i + 1]), trimmed(tokens[i + 2]), trimmed(tokens[i + 3]), alpha);
        Placement { dict: assoc_set(st.dict, key, c), pool2: st.pool2, pool3: st.pool3 }
    } else if tokens[i] == "Rect2"@ || tokens[i] == "Transform2D"@ {
        let inner = placement(
            tokens.subrange(i + 1, tokens.len() as int),
            0,
            key,
            Placement { dict: st.dict, pool2: Some(Seq::empty()), pool3: None },
        );
        let pool = inner.pool2.unwrap();
        let v = if tokens[i] == "Rect2"@ {
            VariantModel::Rect2(pool[0], pool[1])
        } else {
            VariantModel::Transform2D(pool[0], pool[1], pool[2])
        };
        Placement { dict: assoc_set(inner.dict, key, v), pool2: st.pool2, pool3: st.pool3 }
    } else if tokens[i] == "Plane"@ || tokens[i] == "Basis"@ || tokens[i] == "Transform"@ {
        let inner = placement(
            tokens.subrange(i + 1, tokens.len() as int),
            0,
            key,
            Placement { dict: st.dict, pool2: None, pool3: Some(Seq::empty()) },
        );
        let pool = inner.pool3.unwrap();
        let v = if tokens[i] == "Plane"@ {
            VariantModel::Plane(pool[0], trimmed(tokens[tokens.len() - 1]))
        } else if tokens[i] == "Basis"@ {
            VariantModel::Basis(pool[0], pool[1], pool[2])
        } else {
            VariantModel::Transform3D(pool[0], pool[1], pool[2], pool[3])
        };
        Placement { dict: assoc_set(inner.dict, key, v), pool2: st.pool2, pool3: st.pool3 }
    } else {
        placement(tokens, i + 1, key, st)
    }
}

/// The type names differ from each other.
proof fn reveal_type_names()
    ensures
        "Vector2"@ != "Vector3"@,
        "Vector2"@ != "Color"@,
        "Vector2"@ != "Rect2"@,
        "Vector2"@ != "Plane"@,
        "Vector2"@ != "Transform2D"@,
        "Vector2"@ != "Basis"@,
        "Vector2"@ != "Transform"@,
        "Vector3"@ != "Color"@,
        "Vector3"@ != "Rect2"@,
        "Vector3"@ != "Plane"@,
        "Vector3"@ != "Transform2D"@,
        "Vector3"@ != "Basis"@,
        "Vector3"@ != "Transform"@,
        "Color"@ != "Rect2"@,
        "Color"@ != "Plane"@,
        "Color"@ != "Transform2D"@,
        "Color"@ != "Basis"@,
        "Color"@ != "Transform"@,
        "Rect2"@ != "Plane"@,
        "Rect2"@ != "Transform2D"@,
        "Rect2"@ != "Basis"@,
        "Rect2"@ != "Transform"@,
        "Plane"@ != "Transform2D"@,
        "Plane"@ != "Basis"@,
        "Plane"@ != "Transform"@,
        "Transform2D"@ != "Basis"@,
        "Transform2D"@ != "Transform"@,
        "Basis"@ != "Transform"@,
{
    reveal_strlit("Vector2");
    reveal_strlit("Vector3");
    reveal_strlit("Color");
    reveal_strlit("Rect2");
    reveal_strlit("Plane");
    reveal_strlit("Transform2D");
    reveal_strlit("Basis");
    reveal_strlit("Transform");
    assert("Vector2"@.len() == 7);
    assert("Vector3"@.len() == 7);
    assert("Color"@.len() == 5);
    assert("Rect2"@.len() == 5);
    assert("Plane"@.len() == 5);
    assert("Transform2D"@.len() == 11);
    assert("Basis"@.len() == 5);
    assert("Transform"@.len() == 9);
    assert("Vector2"@[0] == 'V');
    assert("Vector3"@[0] == 'V');
    assert("Color"@[0] == 'C');
    assert("Rect2"@[0] == 'R');
    assert("Plane"@[0] == 'P');
    assert("Transform2D"@[0] == 'T');
    assert("Basis"@[0] == 'B');
    assert("Transform"@[0] == 'T');
    assert("Vector2"@[6] != "Vector3"@[6]);
    assert("Transform2D"@.len() != "Transform"@.len());
}

/// Whether `token` is `name`.
fn text_is(token: &String, name: &str) -> (res: bool)
    ensures
        res == (token@ == name@),
{
    *token == String::from_str(name)
}

/// A copy of a vector.
fn copy_vector2(v: &Vector2) -> (res: Vector2)
    ensures
        res@ == v@,
{
    Vector2 { x: v.x.clone(), y: v.y.clone() }
}

/// A copy of a vector.
fn copy_vector3(v: &Vector3) -> (res: Vector3)
    ensures
        res@ == v@,
{
    Vector3 { x: v.x.clone(), y: v.y.clone(), z: v.z.clone() }
}

/// The tokens from position `from` on.
fn tokens_from(tokens: &Vec<String>, from: usize) -> (res: Vec<String>)
    requires
        from <= tokens.len(),
    ensures
        res@ == tokens@.subrange(from as int, tokens.len() as int),
{
    let mut res: Vec<String> = Vec::new();
    let mut j: usize = from;
    while j < tokens.len()
        invariant
            from <= j <= tokens.len(),
            res@ == tokens@.subrange(from as int, j as int),
        decreases tokens.len() - j,
    {
        res.push(tokens[j].clone());
        assert(res@ =~= tokens@.subrange(from as int, j + 1));
        j = j + 1;
    }
    res
}

/// The state that the dictionary and the pools stand for.
pub open spec fn placement_of(
    dictionary: Vec<(String, Variant)>,
    vec2_pool: Option<Vec<Vector2>>,
    vec3_pool: Option<Vec<Vector3>>,
) -> Placement {
    Placement {
        dict: entry_models(dictionary@),
        pool2: vec2_pool_model(vec2_pool),
        pool3: vec3_pool_model(vec3_pool),
    }
}

/// Decodes the tokens that the type pattern found, setting `key` in the
/// dictionary to the Godot type they name. With a pool, vectors are gathered
/// into it instead of being set (the compound types decode their parts so).
pub fn set_godot_type_to_dictionary(
    regex_results: Vec<String>,
    key: &str,
    dictionary: &mut Vec<(String, Variant)>,
    vec2_pool: &mut Option<Vec<Vector2>>,
    vec3_pool: &mut Option<Vec<Vector3>>,
)
    requires
        placement_shape(
            texts(regex_results@),
            0,
            pool_len(vec2_pool_model(*old(vec2_pool))),
            pool_len(vec3_pool_model(*old(vec3_pool))),
        ) is Some,
    ensures
        placement_of(*final(dictionary), *final(vec2_pool), *final(vec3_pool)) == placement(
            texts(regex_results@),
            0,
            key@,
            placement_of(*old(dictionary), *old(vec2_pool), *old(vec3_pool)),
        ),
        Some((pool_len(vec2_pool_model(*final(vec2_pool))), pool_len(vec3_pool_model(*final(vec3_pool)))))
            == placement_shape(
            texts(regex_results@),
            0,
            pool_len(vec2_pool_model(*old(vec2_pool))),
            pool_len(vec3_pool_model(*old(vec3_pool))),
        ),
    decreases regex_results@.len(),
{
    proof {
        reveal_type_names();
    }
    let ghost toks = texts(regex_results@);
    let ghost start = placement_of(*dictionary, *vec2_pool, *vec3_pool);
    let ghost start_shape = placement_shape(toks, 0, pool_len(start.pool2), pool_len(start.pool3));
    let len = regex_results.len();
    let mut i: usize = 0;
    while i < len
        invariant
            len == regex_results@.len(),
            toks == texts(regex_results@),
            toks.len() == len,
            i <= len,
            start == placement_of(*old(dictionary), *old(vec2_pool), *old(vec3_pool)),
            start_shape == placement_shape(toks, 0, pool_len(start.pool2), pool_len(start.pool3)),
            start_shape is Some,
            placement(toks, 0, key@, start) == placement(
                toks,
                i as int,
                key@,
                placement_of(*dictionary, *vec2_pool, *vec3_pool),
            ),
            start_shape == placement_shape(
                toks,
                i as int,
                pool_len(vec2_pool_model(*vec2_pool)),
                pool_len(vec3_pool_model(*vec3_pool)),
            ),
        decreases len - i,
    {
        proof {
            reveal_type_names();
        }
        let ghost cur = placement_of(*dictionary, *vec2_pool, *vec3_pool);
        assert(toks[i as int] == regex_results@[i as int]@);
        let item = &regex_results[i];
        if text_is(item, "Vector2") {
            assert(toks[i + 1] == regex_results@[i + 1]@);
            assert(toks[i + 2] == regex_results@[i + 2]@);
            let vector2 = encode_vector2(regex_results[i + 1].as_str(), regex_results[i + 2].as_str());
            match vec2_pool.take() {
                Some(mut pool) => {
                    let ghost before = pool@;
                    pool.push(vector2);
                    *vec2_pool = Some(pool);
                    proof {
                        let after = vec2_pool_model(*vec2_pool);
                        assert(after->0 =~= before.map_values(|v: Vector2| v@).push(vector2@));
                    }
                },
                None => {
                    dictionary_set(dictionary, String::from_str(key), Variant::Vector2(vector2));
                    return;
                },
            }
        } else if text_is(item, "Vector3") {
            assert(toks[i + 1] == regex_results@[i + 1]@);
            assert(toks[i + 2] == regex_results@[i + 2]@);
            assert(toks[i + 3] == regex_results@[i + 3]@);
            let vector3 = encode_vector3(
                regex_results[i + 1].as_str(),
                regex_results[i + 2].as_str(),
                regex_results[i + 3].as_str(),
            );
            match vec3_pool.take() {
                Some(mut pool) => {
                    let ghost before = pool@;
                    pool.push(vector3);
                    *vec3_pool = Some(pool);
                    proof {
                        let after = vec3_pool_model(*vec3_pool);
                        assert(after->0 =~= before.map_values(|v: Vector3| v@).push(vector3@));
                    }
                },
                None => {
                    dictionary_set(dictionary, String::from_str(key), Variant::Vector3(vector3));
                    return;
                },
            }
        } else if text_is(item, "Color") {
            assert(toks[i + 1] == regex_results@[i + 1]@);
            assert(toks[i + 2] == regex_results@[i + 2]@);
            assert(toks[i + 3] == regex_results@[i + 3]@);
            let mut alpha: Option<&str> = None;
            if len == 5 {
                assert(toks[i + 4] == regex_results@[i + 4]@);
                alpha = Some(regex_results[i + 4].as_str());
            }
            let color = encode_color(
                regex_results[i + 1].as_str(),
                regex_results[i + 2].as_str(),
                regex_results[i + 3].as_str(),
                alpha,
            );
            dictionary_set(dictionary, String::from_str(key), Variant::Color(color));
            return;
        } else if text_is(item, "Rect2") || text_is(item, "Transform2D") {
            let is_rect = text_is(item, "Rect2");
            let new_regex_results = tokens_from(&regex_results, i + 1);
            assert(texts(new_regex_results@) =~= toks.subrange(i + 1, len as int));
            let mut pool2: Option<Vec<Vector2>> = Some(Vec::new());
            let mut pool3: Option<Vec<Vector3>> = None;
            assert(vec2_pool_model(pool2)->0 =~= Seq::<Vec2Model>::empty());
            set_godot_type_to_dictionary(new_regex_results, key, dictionary, &mut pool2, &mut pool3);
            let pool = match pool2 {
                Some(p) => p,
                None => Vec::new(),
            };
            let value = if is_rect {
                Variant::Rect2(encode_rect2(copy_vector2(&pool[0]), copy_vector2(&pool[1])))
            } else {
                Variant::Transform2D(
                    Transform2D {
                        a: copy_vector2(&pool[0]),
                        b: copy_vector2(&pool[1]),
                        origin: copy_vector2(&pool[2]),
                    },
                )
            };
            dictionary_set(dictionary, String::from_str(key), value);
            return;
        } else if text_is(item, "Plane") || text_is(item, "Basis") || text_is(item, "Transform") {
            let is_plane = text_is(item, "Plane");
            let is_basis = text_is(item, "Basis");
            let new_regex_results = tokens_from(&regex_results, i + 1);
            assert(texts(new_regex_results@) =~= toks.subrange(i + 1, len as int));
            let mut pool2: Option<Vec<Vector2>> = None;
            let mut pool3: Option<Vec<Vector3>> = Some(Vec::new());
            assert(vec3_pool_model(pool3)->0 =~= Seq::<Vec3Model>::empty());
            set_godot_type_to_dictionary(new_regex_results, key, dictionary, &mut pool2, &mut pool3);
            let pool = match pool3 {
                Some(p) => p,
                None => Vec::new(),
            };
            let value = if is_plane {
                assert(toks[len - 1] == regex_results@[len - 1]@);
                Variant::Plane(encode_plane(copy_vector3(&pool[0]), regex_results[len - 1].as_str()))
            } else if is_basis {
                Variant::Basis(
                    encode_basis(copy_vector3(&pool[0]), copy_vector3(&pool[1]), copy_vector3(&pool[2])),
                )
            } else {
                Variant::Transform3D(
                    encode_transform(
                        copy_vector3(&pool[0]),
                        copy_vector3(&pool[1]),
                        copy_vector3(&pool[2]),
                        copy_vector3(&pool[3]),
                    ),
                )
            };
            dictionary_set(dictionary, String::from_str(key), value);
            return;
        }
        i = i + 1;
    }
}

/// A pool size as a natural number.
pub open spec fn size_model(n: Option<usize>) -> Option<nat> {
    match n {
        Some(k) => Some(k as nat),
        None => None,
    }
}

/// Computes `placement_shape` from the start of `tokens`: whether decoding
/// them completes, and the pool sizes at the end. Pools start empty.
pub fn placement_shape_of(tokens: &Vec<String>, n2: Option<usize>, n3: Option<usize>) -> (res: Option<
    (Option<usize>, Option<usize>),
>)
    requires
        n2 is None || n2 == Some(0usize),
        n3 is None || n3 == Some(0usize),
    ensures
        match res {
            Some((r2, r3)) => placement_shape(texts(tokens@), 0, size_model(n2), size_model(n3)) == Some(
                (size_model(r2), size_model(r3)),
            ),
            None => placement_shape(texts(tokens@), 0, size_model(n2), size_model(n3)) is None,
        },
    decreases tokens@.len(),
{
    let ghost toks = texts(tokens@);
    let len = tokens.len();
    let mut i: usize = 0;
    let mut c2 = n2;
    let mut c3 = n3;
    while i < len
        invariant
            len == tokens@.len(),
            toks == texts(tokens@),
            toks.len() == len,
            i <= len,
            c2 matches Some(k) ==> k <= i,
            c3 matches Some(k) ==> k <= i,
            placement_shape(toks, 0, size_model(n2), size_model(n3)) == placement_shape(
                toks,
                i as int,
                size_model(c2),
                size_model(c3),
            ),
        decreases len - i,
    {
        proof {
            reveal_type_names();
        }
        assert(toks[i as int] == tokens@[i as int]@);
        let item = &tokens[i];
        if text_is(item, "Vector2") {
            if len - i <= 2 {
                return None;
            }
            match c2 {
                Some(k) => {
                    c2 = Some(k + 1);
                },
                None => {
                    return Some((c2, c3));
                },
            }
        } else if text_is(item, "Vector3") {
            if len - i <= 3 {
                return None;
            }
            match c3 {
                Some(k) => {
                    c3 = Some(k + 1);
                },
                None => {
                    return Some((c2, c3));
                },
            }
        } else if text_is(item, "Color") {
            if len - i > 3 && (len != 5 || len - i > 4) {
                return Some((c2, c3));
            } else {
                return None;
            }
        } else if text_is(item, "Rect2") || text_is(item, "Transform2D") {
            let needed: usize = if text_is(item, "Rect2") { 2 } else { 3 };
            let rest = tokens_from(tokens, i + 1);
            assert(texts(rest@) =~= toks.subrange(i + 1, len as int));
            match placement_shape_of(&rest, Some(0), None) {
                Some((Some(k), _)) => {
                    if k >= needed {
                        return Some((c2, c3));
                    } else {
                        return None;
                    }
                },
                _ => {
                    return None;
                },
            }
        } else if text_is(item, "Plane") || text_is(item, "Basis") || text_is(item, "Transform") {
            let needed: usize = if text_is(item, "Plane") {
                1
            } else if text_is(item, "Basis") {
                3
            } else {
                4
            };
            let rest = tokens_from(tokens, i + 1);
            assert(texts(rest@) =~= toks.subrange(i + 1, len as int));
            match placement_shape_of(&rest, None, Some(0)) {
                Some((_, Some(k))) => {
                    if k >= needed {
                        return Some((c2, c3));
                    } else {
                        return None;
                    }
                },
                _ => {
                    return None;
                },
            }
        }
        i = i + 1;
    }
    Some((c2, c3))
}

/// The names of the Godot types that a text can be decoded into.
pub open spec fn is_godot_type_name(s: Seq<char>) -> bool {
    ||| s == "Vector2"@
    ||| s == "Vector3"@
    ||| s == "Color"@
    ||| s == "Rect2"@
    ||| s == "Plane"@
    ||| s == "Transform2D"@
    ||| s == "Basis"@
    ||| s == "Transform"@
}

/// Whether `name` is one of the Godot type names.
fn is_godot_type(name: &String) -> (res: bool)
    ensures
        res == is_godot_type_name(name@),
{
    text_is(name, "Vector2") || text_is(name, "Vector3") || text_is(name, "Color") || text_is(name, "Rect2")
        || text_is(name, "Plane") || text_is(name, "Transform2D") || text_is(name, "Basis") || text_is(
        name,
        "Transform",
    )
}

/// Whether a text can be decoded: when its first token names a Godot type,
/// decoding the tokens completes.
pub open spec fn godot_text_decodable(value: Seq<char>) -> bool {
    let tokens = text_tokens(value);
    tokens.len() > 0 && is_godot_type_name(tokens[0]) ==> placement_shape(tokens, 0, None, None) is Some
}

/// The dictionary after decoding `value` under `key`: the Godot type that the
/// tokens name, or the text itself when there is no token or the first token
/// names no type.
pub open spec fn decoded_into(dict: DictModel, key: Seq<char>, value: Seq<char>) -> DictModel {
    let tokens = text_tokens(value);
    if tokens.len() > 0 && is_godot_type_name(tokens[0]) {
        placement(tokens, 0, key, Placement { dict, pool2: None, pool3: None }).dict
    } else {
        assoc_set(dict, key, VariantModel::String(value))
    }
}

/// Sets `key` in the dictionary to the Godot type that `value` is the text of,
/// or to the text itself when it names no Godot type (or holds no token).
pub fn encode_godot_types(dictionary: &mut Vec<(String, Variant)>, key: &str, value: &str)
    requires
        godot_text_decodable(value@),
    ensures
        entry_models(final(dictionary)@) == decoded_into(entry_models(old(dictionary)@), key@, value@),
{
    let type_results = godot_type_tokens(value);
    if type_results.len() == 0 || !is_godot_type(&type_results[0]) {
        dictionary_set(dictionary, String::from_str(key), Variant::String(String::from_str(value)));
        return;
    }
    assert(texts(type_results@)[0] == type_results@[0]@);
    let mut vec2_pool: Option<Vec<Vector2>> = None;
    let mut vec3_pool: Option<Vec<Vector3>> = None;
    set_godot_type_to_dictionary(type_results, key, dictionary, &mut vec2_pool, &mut vec3_pool);
}

/// Whether `value` can be decoded as `encode_godot_types` requires.
pub fn godot_text_is_decodable(value: &str) -> (res: bool)
    ensures
        res == godot_text_decodable(value@),
{
    let type_results = godot_type_tokens(value);
    if type_results.len() == 0 {
        return true;
    }
    assert(texts(type_results@)[0] == type_results@[0]@);
    if !is_godot_type(&type_results[0]) {
        return true;
    }
    placement_shape_of(&type_results, None, None).is_some()
}

/// Decodes `value` into the dictionary under `key` when it can be decoded,
/// and says whether it did; otherwise the dictionary is left as it was.
pub fn try_encode_godot_types(dictionary: &mut Vec<(String, Variant)>, key: &str, value: &str) -> (done: bool)
    ensures
        done == godot_text_decodable(value@),
        done ==> entry_models(final(dictionary)@) == decoded_into(entry_models(old(dictionary)@), key@, value@),
        !done ==> *final(dictionary) == *old(dictionary),
{
    if godot_text_is_decodable(value) {
        encode_godot_types(dictionary, key, value);
        true
    } else {
        false
    }
}

/// A token that names no type is passed over.
proof fn lemma_placement_passes_component(tokens: Seq<Seq<char>>, i: int, key: Seq<char>, st: Placement)
    requires
        0 <= i < tokens.len(),
        !is_godot_type_name(tokens[i]),
    ensures
        placement(tokens, i, key, st) == placement(tokens, i + 1, key, st),
        placement_shape(tokens, i, pool_len(st.pool2), pool_len(st.pool3)) == placement_shape(
            tokens,
            i + 1,
            pool_len(st.pool2),
            pool_len(st.pool3),
        ),
{
}

/// A `Vector3` read while a pool of `Vector3`s is open joins the end of the pool.
proof fn lemma_placement_pools_vector3(tokens: Seq<Seq<char>>, i: int, key: Seq<char>, st: Placement)
    requires
        0 <= i,
        i + 3 < tokens.len(),
        tokens[i] == "Vector3"@,
        st.pool3 is Some,
    ensures
        placement(tokens, i, key, st) == placement(
            tokens,
            i + 1,
            key,
            Placement {
                dict: st.dict,
                pool2: st.pool2,
                pool3: Some(st.pool3.unwrap().push(vec3_from(tokens[i + 1], tokens[i + 2], tokens[i + 3]))),
            },
        ),
        placement_shape(tokens, i, pool_len(st.pool2), pool_len(st.pool3)) == placement_shape(
            tokens,
            i + 1,
            pool_len(st.pool2),
            Some(st.pool3.unwrap().len() + 1),
        ),
{
    reveal_type_names();
}

/// A `Vector2` read while a pool of `Vector2`s is open joins the end of the pool.
proof fn lemma_placement_pools_vector2(tokens: Seq<Seq<char>>, i: int, key: Seq<char>, st: Placement)
    requires
        0 <= i,
        i + 2 < tokens.len(),
        tokens[i] == "Vector2"@,
        st.pool2 is Some,
    ensures
        placement(tokens, i, key, st) == placement(
            tokens,
            i + 1,
            key,
            Placement {
                dict: st.dict,
                pool2: Some(st.pool2.unwrap().push(vec2_from(tokens[i + 1], tokens[i + 2]))),
                pool3: st.pool3,
            },
        ),
        placement_shape(tokens, i, pool_len(st.pool2), pool_len(st.pool3)) == placement_shape(
            tokens,
            i + 1,
            Some(st.pool2.unwrap().len() + 1),
            pool_len(st.pool3),
        ),
{
    reveal_type_names();
}

/// A `Basis` written as three `Vector3`s takes them, in the order written, as
/// its x, y and z columns, both when the tokens are decoded and when a text
/// whose tokens they are is decoded into a dictionary; such a text is decodable.
pub proof fn lemma_basis_takes_vectors_in_order(
    dict: DictModel,
    key: Seq<char>,
    value: Seq<char>,
    a1: Seq<char>,
    a2: Seq<char>,
    a3: Seq<char>,
    b1: Seq<char>,
    b2: Seq<char>,
    b3: Seq<char>,
    c1: Seq<char>,
    c2: Seq<char>,
    c3: Seq<char>,
)
    requires
        !is_godot_type_name(a1),
        !is_godot_type_name(a2),
        !is_godot_type_name(a3),
        !is_godot_type_name(b1),
        !is_godot_type_name(b2),
        !is_godot_type_name(b3),
        !is_godot_type_name(c1),
        !is_godot_type_name(c2),
        !is_godot_type_name(c3),
    ensures
        ({
            let tokens = seq![
                "Basis"@, "Vector3"@, a1, a2, a3, "Vector3"@, b1, b2, b3, "Vector3"@, c1, c2, c3,
            ];
            let basis = VariantModel::Basis(vec3_from(a1, a2, a3), vec3_from(b1, b2, b3), vec3_from(c1, c2, c3));
            &&& placement(tokens, 0, key, Placement { dict, pool2: None, pool3: None }).dict == assoc_set(
                dict,
                key,
                basis,
            )
            &&& placement_shape(tokens, 0, None, None) is Some
            &&& text_tokens(value) == tokens ==> godot_text_decodable(value) && decoded_into(dict, key, value)
                == assoc_set(dict, key, basis)
        }),
{
    reveal_type_names();
    let tokens = seq!["Basis"@, "Vector3"@, a1, a2, a3, "Vector3"@, b1, b2, b3, "Vector3"@, c1, c2, c3];
    let inner = tokens.subrange(1, 13);
    assert(inner =~= seq!["Vector3"@, a1, a2, a3, "Vector3"@, b1, b2, b3, "Vector3"@, c1, c2, c3]);
    let va = vec3_from(a1, a2, a3);
    let vb = vec3_from(b1, b2, b3);
    let vc = vec3_from(c1, c2, c3);
    let s0 = Placement { dict, pool2: None, pool3: Some(Seq::empty()) };
    let s1 = Placement { dict, pool2: None, pool3: Some(Seq::empty().push(va)) };
    let s2 = Placement { dict, pool2: None, pool3: Some(Seq::empty().push(va).push(vb)) };
    let s3 = Placement { dict, pool2: None, pool3: Some(Seq::empty().push(va).push(vb).push(vc)) };
    lemma_placement_pools_vector3(inner, 0, key, s0);
    lemma_placement_passes_component(inner, 1, key, s1);
    lemma_placement_passes_component(inner, 2, key, s1);
    lemma_placement_passes_component(inner, 3, key, s1);
    lemma_placement_pools_vector3(inner, 4, key, s1);
    lemma_placement_passes_component(inner, 5, key, s2);
    lemma_placement_passes_component(inner, 6, key, s2);
    lemma_placement_passes_component(inner, 7, key, s2);
    lemma_placement_pools_vector3(inner, 8, key, s2);
    lemma_placement_passes_component(inner, 9, key, s3);
    lemma_placement_passes_component(inner, 10, key, s3);
    lemma_placement_passes_component(inner, 11, key, s3);
    assert(placement(inner, 12, key, s3) == s3);
    assert(placement_shape(inner, 12, None, Some(3)) == Some((None::<nat>, Some(3nat))));
    let pool = s3.pool3.unwrap();
    assert(pool[0] == va && pool[1] == vb && pool[2] == vc);
}

/// A `Rect2` written as two `Vector2`s takes the first as its position and
/// the second as its size; a `Transform2D` written as three `Vector2`s takes
/// them, in the order written, as its x and y columns and its origin. Such
/// texts are decodable.
pub proof fn lemma_2d_compounds_take_vectors_in_order(
    dict: DictModel,
    key: Seq<char>,
    value: Seq<char>,
    a1: Seq<char>,
    a2: Seq<char>,
    b1: Seq<char>,
    b2: Seq<char>,
    c1: Seq<char>,
    c2: Seq<char>,
)
    requires
        !is_godot_type_name(a1),
        !is_godot_type_name(a2),
        !is_godot_type_name(b1),
        !is_godot_type_name(b2),
        !is_godot_type_name(c1),
        !is_godot_type_name(c2),
    ensures
        ({
            let rect_tokens = seq!["Rect2"@, "Vector2"@, a1, a2, "Vector2"@, b1, b2];
            let rect = VariantModel::Rect2(vec2_from(a1, a2), vec2_from(b1, b2));
            &&& placement(rect_tokens, 0, key, Placement { dict, pool2: None, pool3: None }).dict == assoc_set(
                dict,
                key,
                rect,
            )
            &&& placement_shape(rect_tokens, 0, None, None) is Some
            &&& text_tokens(value) == rect_tokens ==> godot_text_decodable(value) && decoded_into(dict, key, value)
                == assoc_set(dict, key, rect)
        }),
        ({
            let tokens = seq!["Transform2D"@, "Vector2"@, a1, a2, "Vector2"@, b1, b2, "Vector2"@, c1, c2];
            let transform = VariantModel::Transform2D(vec2_from(a1, a2), vec2_from(b1, b2), vec2_from(c1, c2));
            &&& placement(tokens, 0, key, Placement { dict, pool2: None, pool3: None }).dict == assoc_set(
                dict,
                key,
                transform,
            )
            &&& placement_shape(tokens, 0, None, None) is Some
            &&& text_tokens(value) == tokens ==> godot_text_decodable(value) && decoded_into(dict, key, value)
                == assoc_set(dict, key, transform)
        }),
{
    reveal_type_names();
    let va = vec2_from(a1, a2);
    let vb = vec2_from(b1, b2);
    let vc = vec2_from(c1, c2);
    let s0 = Placement { dict, pool2: Some(Seq::empty()), pool3: None };
    let s1 = Placement { dict, pool2: Some(Seq::empty().push(va)), pool3: None };
    let s2 = Placement { dict, pool2: Some(Seq::empty().push(va).push(vb)), pool3: None };
    let s3 = Placement { dict, pool2: Some(Seq::empty().push(va).push(vb).push(vc)), pool3: None };

    let rect_tokens = seq!["Rect2"@, "Vector2"@, a1, a2, "Vector2"@, b1, b2];
    let rect_inner = rect_tokens.subrange(1, 7);
    assert(rect_inner =~= seq!["Vector2"@, a1, a2, "Vector2"@, b1, b2]);
    lemma_placement_pools_vector2(rect_inner, 0, key, s0);
    lemma_placement_passes_component(rect_inner, 1, key, s1);
    lemma_placement_passes_component(rect_inner, 2, key, s1);
    lemma_placement_pools_vector2(rect_inner, 3, key, s1);
    lemma_placement_passes_component(rect_inner, 4, key, s2);
    lemma_placement_passes_component(rect_inner, 5, key, s2);
    assert(placement(rect_inner, 6, key, s2) == s2);
    assert(placement_shape(rect_inner, 6, Some(2), None) == Some((Some(2nat), None::<nat>)));
    assert(s2.pool2.unwrap()[0] == va && s2.pool2.unwrap()[1] == vb);

    let tokens = seq!["Transform2D"@, "Vector2"@, a1, a2, "Vector2"@, b1, b2, "Vector2"@, c1, c2];
    let inner = tokens.subrange(1, 10);
    assert(inner =~= seq!["Vector2"@, a1, a2, "Vector2"@, b1, b2, "Vector2"@, c1, c2]);
    lemma_placement_pools_vector2(inner, 0, key, s0);
    lemma_placement_passes_component(inner, 1, key, s1);
    lemma_placement_passes_component(inner, 2, key, s1);
    lemma_placement_pools_vector2(inner, 3, key, s1);
    lemma_placement_passes_component(inner, 4, key, s2);
    lemma_placement_passes_component(inner, 5, key, s2);
    lemma_placement_pools_vector2(inner, 6, key, s2);
    lemma_placement_passes_component(inner, 7, key, s3);
    lemma_placement_passes_component(inner, 8, key, s3);
    assert(placement(inner, 9, key, s3) == s3);
    assert(placement_shape(inner, 9, Some(3), None) == Some((Some(3nat), None::<nat>)));
    let pool = s3.pool2.unwrap();
    assert(pool[0] == va && pool[1] == vb && pool[2] == vc);
}

/// A `Transform` written as four `Vector3`s takes the first three, in the
/// order written, as the x, y and z columns of its basis and the fourth as its
/// origin; a `Plane` written as a `Vector3` and a distance takes the vector as
/// its normal and the last token as its distance. Such texts are decodable.
pub proof fn lemma_3d_compounds_take_vectors_in_order(
    dict: DictModel,
    key: Seq<char>,
    value: Seq<char>,
    a: Seq<Seq<char>>,
    b: Seq<Seq<char>>,
    c: Seq<Seq<char>>,
    o: Seq<Seq<char>>,
    d: Seq<char>,
)
    requires
        a.len() == 3 && b.len() == 3 && c.len() == 3 && o.len() == 3,
        forall|i: int| 0 <= i < 3 ==> !is_godot_type_name(#[trigger] a[i]),
        forall|i: int| 0 <= i < 3 ==> !is_godot_type_name(#[trigger] b[i]),
        forall|i: int| 0 <= i < 3 ==> !is_godot_type_name(#[trigger] c[i]),
        forall|i: int| 0 <= i < 3 ==> !is_godot_type_name(#[trigger] o[i]),
        !is_godot_type_name(d),
    ensures
        ({
            let tokens = seq!["Transform"@, "Vector3"@] + a + seq!["Vector3"@] + b + seq!["Vector3"@] + c
                + seq!["Vector3"@] + o;
            let transform = VariantModel::Transform3D(
                vec3_from(a[0], a[1], a[2]),
                vec3_from(b[0], b[1], b[2]),
                vec3_from(c[0], c[1], c[2]),
                vec3_from(o[0], o[1], o[2]),
            );
            &&& placement(tokens, 0, key, Placement { dict, pool2: None, pool3: None }).dict == assoc_set(
                dict,
                key,
                transform,
            )
            &&& placement_shape(tokens, 0, None, None) is Some
            &&& text_tokens(value) == tokens ==> godot_text_decodable(value) && decoded_into(dict, key, value)
                == assoc_set(dict, key, transform)
        }),
        ({
            let tokens = seq!["Plane"@, "Vector3"@] + a + seq![d];
            let plane = VariantModel::Plane(vec3_from(a[0], a[1], a[2]), trimmed(d));
            &&& placement(tokens, 0, key, Placement { dict, pool2: None, pool3: None }).dict == assoc_set(
                dict,
                key,
                plane,
            )
            &&& placement_shape(tokens, 0, None, None) is Some
            &&& text_tokens(value) == tokens ==> godot_text_decodable(value) && decoded_into(dict, key, value)
                == assoc_set(dict, key, plane)
        }),
{
    reveal_type_names();
    assert(!is_godot_type_name(a[0]) && !is_godot_type_name(a[1]) && !is_godot_type_name(a[2]));
    assert(!is_godot_type_name(b[0]) && !is_godot_type_name(b[1]) && !is_godot_type_name(b[2]));
    assert(!is_godot_type_name(c[0]) && !is_godot_type_name(c[1]) && !is_godot_type_name(c[2]));
    assert(!is_godot_type_name(o[0]) && !is_godot_type_name(o[1]) && !is_godot_type_name(o[2]));
    let va = vec3_from(a[0], a[1], a[2]);
    let vb = vec3_from(b[0], b[1], b[2]);
    let vc = vec3_from(c[0], c[1], c[2]);
    let vo = vec3_from(o[0], o[1], o[2]);
    let s0 = Placement { dict, pool2: None, pool3: Some(Seq::empty()) };
    let s1 = Placement { dict, pool2: None, pool3: Some(Seq::empty().push(va)) };
    let s2 = Placement { dict, pool2: None, pool3: Some(Seq::empty().push(va).push(vb)) };
    let s3 = Placement { dict, pool2: None, pool3: Some(Seq::empty().push(va).push(vb).push(vc)) };
    let s4 = Placement { dict, pool2: None, pool3: Some(Seq::empty().push(va).push(vb).push(vc).push(vo)) };

    let tokens = seq!["Transform"@, "Vector3"@] + a + seq!["Vector3"@] + b + seq!["Vector3"@] + c + seq!["Vector3"@]
        + o;
    let inner = tokens.subrange(1, 17);
    assert(tokens =~= seq![
        "Transform"@, "Vector3"@, a[0], a[1], a[2], "Vector3"@, b[0], b[1], b[2], "Vector3"@, c[0], c[1], c[2],
        "Vector3"@, o[0], o[1], o[2],
    ]);
    assert(inner =~= seq![
        "Vector3"@, a[0], a[1], a[2], "Vector3"@, b[0], b[1], b[2], "Vector3"@, c[0], c[1], c[2], "Vector3"@,
        o[0], o[1], o[2],
    ]);
    lemma_placement_pools_vector3(inner, 0, key, s0);
    lemma_placement_passes_component(inner, 1, key, s1);
    lemma_placement_passes_component(inner, 2, key, s1);
    lemma_placement_passes_component(inner, 3, key, s1);
    lemma_placement_pools_vector3(inner, 4, key, s1);
    lemma_placement_passes_component(inner, 5, key, s2);
    lemma_placement_passes_component(inner, 6, key, s2);
    lemma_placement_passes_component(inner, 7, key, s2);
    lemma_placement_pools_vector3(inner, 8, key, s2);
    lemma_placement_passes_component(inner, 9, key, s3);
    lemma_placement_passes_component(inner, 10, key, s3);
    lemma_placement_passes_component(inner, 11, key, s3);
    lemma_placement_pools_vector3(inner, 12, key, s3);
    lemma_placement_passes_component(inner, 13, key, s4);
    lemma_placement_passes_component(inner, 14, key, s4);
    lemma_placement_passes_component(inner, 15, key, s4);
    assert(placement(inner, 16, key, s4) == s4);
    assert(placement_shape(inner, 16, None, Some(4)) == Some((None::<nat>, Some(4nat))));
    let pool = s4.pool3.unwrap();
    assert(pool[0] == va && pool[1] == vb && pool[2] == vc && pool[3] == vo);

    let plane_tokens = seq!["Plane"@, "Vector3"@] + a + seq![d];
    let plane_inner = plane_tokens.subrange(1, 6);
    assert(plane_tokens =~= seq!["Plane"@, "Vector3"@, a[0], a[1], a[2], d]);
    assert(plane_inner =~= seq!["Vector3"@, a[0], a[1], a[2], d]);
    lemma_placement_pools_vector3(plane_inner, 0, key, s0);
    lemma_placement_passes_component(plane_inner, 1, key, s1);
    lemma_placement_passes_component(plane_inner, 2, key, s1);
    lemma_placement_passes_component(plane_inner, 3, key, s1);
    lemma_placement_passes_component(plane_inner, 4, key, s1);
    assert(placement(plane_inner, 5, key, s1) == s1);
    assert(placement_shape(plane_inner, 5, None, Some(1)) == Some((None::<nat>, Some(1nat))));
    assert(s1.pool3.unwrap()[0] == va);
}

/// A vector or a colour written with its components takes them, in the order
/// written and trimmed, as its coordinates or its red, green, blue and alpha;
/// such texts are decodable.
pub proof fn lemma_plain_types_take_components_in_order(
    dict: DictModel,
    key: Seq<char>,
    value: Seq<char>,
    x: Seq<char>,
    y: Seq<char>,
    z: Seq<char>,
    w: Seq<char>,
)
    ensures
        ({
            let tokens = seq!["Vector2"@, x, y];
            let v = VariantModel::Vector2(vec2_from(x, y));
            &&& placement(tokens, 0, key, Placement { dict, pool2: None, pool3: None }).dict == assoc_set(dict, key, v)
            &&& placement_shape(tokens, 0, None, None) is Some
            &&& text_tokens(value) == tokens ==> godot_text_decodable(value) && decoded_into(dict, key, value)
                == assoc_set(dict, key, v)
        }),
        ({
            let tokens = seq!["Vector3"@, x, y, z];
            let v = VariantModel::Vector3(vec3_from(x, y, z));
            &&& placement(tokens, 0, key, Placement { dict, pool2: None, pool3: None }).dict == assoc_set(dict, key, v)
            &&& placement_shape(tokens, 0, None, None) is Some
            &&& text_tokens(value) == tokens ==> godot_text_decodable(value) && decoded_into(dict, key, value)
                == assoc_set(dict, key, v)
        }),
        ({
            let tokens = seq!["Color"@, x, y, z];
            let v = VariantModel::Color(trimmed(x), trimmed(y), trimmed(z), None);
            &&& placement(tokens, 0, key, Placement { dict, pool2: None, pool3: None }).dict == assoc_set(dict, key, v)
            &&& placement_shape(tokens, 0, None, None) is Some
            &&& text_tokens(value) == tokens ==> godot_text_decodable(value) && decoded_into(dict, key, value)
                == assoc_set(dict, key, v)
        }),
        ({
            let tokens = seq!["Color"@, x, y, z, w];
            let v = VariantModel::Color(trimmed(x), trimmed(y), trimmed(z), Some(trimmed(w)));
            &&& placement(tokens, 0, key, Placement { dict, pool2: None, pool3: None }).dict == assoc_set(dict, key, v)
            &&& placement_shape(tokens, 0, None, None) is Some
            &&& text_tokens(value) == tokens ==> godot_text_decodable(value) && decoded_into(dict, key, value)
                == assoc_set(dict, key, v)
        }),
{
    reveal_type_names();
}

/// Whether each value of the table can be read into a dictionary: tables and
/// arrays when each of their values can, and strings holding a `(` when they
/// are decodable as Godot types.
pub open spec fn populatable(entries: TableModel) -> bool
    decreases entries,
{
    if entries.len() == 0 {
        true
    } else {
        populatable(entries.drop_last()) && value_populatable(entries.last().1)
    }
}

/// Whether a value can be read into a dictionary.
pub open spec fn value_populatable(value: TomlModel) -> bool
    decreases value,
{
    match value {
        TomlModel::Table(t) => populatable(t),
        TomlModel::Array(items) => items_populatable(items),
        TomlModel::String(s) => s.contains('(') ==> godot_text_decodable(s),
        _ => true,
    }
}

/// Whether every item of an array can be read.
pub open spec fn items_populatable(items: Seq<TomlModel>) -> bool
    decreases items,
{
    if items.len() == 0 {
        true
    } else {
        items_populatable(items.drop_last()) && value_populatable(items.last())
    }
}

/// The dictionary after reading each entry of the table into it in turn.
pub open spec fn populated(dict: DictModel, entries: TableModel) -> DictModel
    decreases entries,
{
    if entries.len() == 0 {
        dict
    } else {
        populated_entry(populated(dict, entries.drop_last()), entries.last().0, entries.last().1)
    }
}

/// The dictionary after reading one entry into it: a table becomes a
/// dictionary, an array the array of what its items are read as, a string
/// holding a `(` the Godot type it is the text of, a date-time its text, and
/// the other values the variants of the same kind.
pub open spec fn populated_entry(dict: DictModel, key: Seq<char>, value: TomlModel) -> DictModel
    decreases value,
{
    match value {
        TomlModel::Table(t) => assoc_set(dict, key, VariantModel::Dictionary(populated(Seq::empty(), t))),
        TomlModel::Array(items) => assoc_set(dict, key, VariantModel::Array(populated_items(items))),
        TomlModel::Integer(n) => assoc_set(dict, key, VariantModel::Int(n)),
        TomlModel::String(s) => if s.contains('(') {
            decoded_into(dict, key, s)
        } else {
            assoc_set(dict, key, VariantModel::String(s))
        },
        TomlModel::Float(bits) => assoc_set(dict, key, VariantModel::Float(bits)),
        TomlModel::Boolean(b) => assoc_set(dict, key, VariantModel::Bool(b)),
        TomlModel::Datetime(text) => assoc_set(dict, key, VariantModel::String(text)),
    }
}

/// What the items of an array are read as: each the value it gets as the
/// entry of an empty key in an empty dictionary.
pub open spec fn populated_items(items: Seq<TomlModel>) -> Seq<VariantModel>
    decreases items,
{
    if items.len() == 0 {
        Seq::empty()
    } else {
        populated_items(items.drop_last()).push(
            lookup(populated_entry(Seq::empty(), Seq::empty(), items.last()), Seq::empty()).unwrap(),
        )
    }
}

proof fn lemma_populatable(entries: TableModel)
    ensures
        populatable(entries) <==> forall|i: int| 0 <= i < entries.len() ==> #[trigger] value_populatable(entries[i].1),
    decreases entries.len(),
{
    if entries.len() > 0 {
        lemma_populatable(entries.drop_last());
        if populatable(entries) {
            assert forall|i: int| 0 <= i < entries.len() implies #[trigger] value_populatable(entries[i].1) by {
                if i < entries.len() - 1 {
                    assert(value_populatable(entries.drop_last()[i].1));
                }
            }
        }
        if forall|i: int| 0 <= i < entries.len() ==> #[trigger] value_populatable(entries[i].1) {
            assert(value_populatable(entries[entries.len() - 1].1));
            assert forall|i: int| 0 <= i < entries.len() - 1 implies #[trigger] value_populatable(entries.drop_last()[i].1) by {
                assert(value_populatable(entries[i].1));
            }
        }
    }
}

proof fn lemma_items_populatable(items: Seq<TomlModel>)
    ensures
        items_populatable(items) <==> forall|i: int| 0 <= i < items.len() ==> #[trigger] value_populatable(items[i]),
    decreases items.len(),
{
    if items.len() > 0 {
        lemma_items_populatable(items.drop_last());
        if items_populatable(items) {
            assert forall|i: int| 0 <= i < items.len() implies #[trigger] value_populatable(items[i]) by {
                if i < items.len() - 1 {
                    assert(value_populatable(items.drop_last()[i]));
                }
            }
        }
        if forall|i: int| 0 <= i < items.len() ==> #[trigger] value_populatable(items[i]) {
            assert(value_populatable(items[items.len() - 1]));
            assert forall|i: int| 0 <= i < items.len() - 1 implies #[trigger] value_populatable(items.drop_last()[i]) by {
                assert(value_populatable(items[i]));
            }
        }
    }
}

/// Reading a value under a key always sets that key.
proof fn lemma_populated_entry_sets_key(dict: DictModel, key: Seq<char>, value: TomlModel)
    requires
        value_populatable(value),
    ensures
        lookup(populated_entry(dict, key, value), key) is Some,
{
    reveal_type_names();
    match value {
        TomlModel::String(s) => {
            if s.contains('(') {
                let tokens = text_tokens(s);
                if tokens.len() > 0 && is_godot_type_name(tokens[0]) {
                    let st = Placement { dict, pool2: None, pool3: None };
                    let res = placement(tokens, 0, key, st);
                    if tokens[0] == "Vector2"@ {
                        lemma_assoc_set_sets(dict, key, VariantModel::Vector2(vec2_from(tokens[1], tokens[2])));
                    } else if tokens[0] == "Vector3"@ {
                        lemma_assoc_set_sets(dict, key, VariantModel::Vector3(vec3_from(tokens[1], tokens[2], tokens[3])));
                    } else {
                        assert(exists|d: DictModel, v: VariantModel| res.dict == assoc_set(d, key, v));
                        let (d, v) = choose|d: DictModel, v: VariantModel| res.dict == assoc_set(d, key, v);
                        lemma_assoc_set_sets(d, key, v);
                    }
                } else {
                    lemma_assoc_set_sets(dict, key, VariantModel::String(s));
                }
            } else {
                lemma_assoc_set_sets(dict, key, VariantModel::String(s));
            }
        },
        TomlModel::Table(t) => lemma_assoc_set_sets(dict, key, VariantModel::Dictionary(populated(Seq::empty(), t))),
        TomlModel::Array(items) => lemma_assoc_set_sets(dict, key, VariantModel::Array(populated_items(items))),
        TomlModel::Integer(n) => lemma_assoc_set_sets(dict, key, VariantModel::Int(n)),
        TomlModel::Float(bits) => lemma_assoc_set_sets(dict, key, VariantModel::Float(bits)),
        TomlModel::Boolean(b) => lemma_assoc_set_sets(dict, key, VariantModel::Bool(b)),
        TomlModel::Datetime(text) => lemma_assoc_set_sets(dict, key, VariantModel::String(text)),
    }
}

/// Reading a scalar entry sets its key to the variant of the same kind and
/// value: an integer to that int, a float to the same bits, a boolean to the
/// same truth value, a date-time to its text, and a string without `(` to
/// that text.
pub proof fn lemma_scalar_entries_keep_value(
    dict: DictModel,
    key: Seq<char>,
    i: i64,
    bits: u64,
    b: bool,
    text: Seq<char>,
)
    ensures
        lookup(populated_entry(dict, key, TomlModel::Integer(i)), key) == Some(VariantModel::Int(i)),
        lookup(populated_entry(dict, key, TomlModel::Float(bits)), key) == Some(VariantModel::Float(bits)),
        lookup(populated_entry(dict, key, TomlModel::Boolean(b)), key) == Some(VariantModel::Bool(b)),
        lookup(populated_entry(dict, key, TomlModel::Datetime(text)), key) == Some(VariantModel::String(text)),
        !text.contains('(') ==> lookup(populated_entry(dict, key, TomlModel::String(text)), key) == Some(
            VariantModel::String(text),
        ),
{
    lemma_assoc_set_sets(dict, key, VariantModel::Int(i));
    lemma_assoc_set_sets(dict, key, VariantModel::Float(bits));
    lemma_assoc_set_sets(dict, key, VariantModel::Bool(b));
    lemma_assoc_set_sets(dict, key, VariantModel::String(text));
}

/// Takes the value of `key` out of a dictionary that holds it.
fn take_value(entries: Vec<(String, Variant)>, key: &String) -> (res: Variant)
    requires
        lookup(entry_models(entries@), key@) is Some,
    ensures
        res@ == lookup(entry_models(entries@), key@).unwrap(),
{
    let ghost models = entry_models(entries@);
    proof {
        lemma_entry_models(entries@);
    }
    let mut dictionary = entries;
    let mut i: usize = 0;
    while i < dictionary.len()
        invariant
            models == entry_models(dictionary@),
            models.len() == dictionary.len(),
            forall|j: int| 0 <= j < dictionary.len() ==> #[trigger] models[j] == (dictionary@[j].0@, variant_model(dictionary@[j].1)),
            lookup(models, key@) is Some,
            models == entry_models(entries@),
            i <= dictionary.len(),
            forall|j: int| 0 <= j < i ==> dictionary@[j].0@ != key@,
        decreases dictionary.len() - i,
    {
        if dictionary[i].0 == *key {
            proof {
                assert(is_first_key_at(models, key@, i as int));
                let c = choose|k: int| is_first_key_at(models, key@, k);
                lemma_first_key_unique(models, key@, i as int, c);
            }
            let ghost found = dictionary@[i as int];
            let (_, value) = dictionary.remove(i);
            assert(value == found.1);
            return value;
        }
        i = i + 1;
    }
    proof {
        let c = choose|k: int| is_first_key_at(models, key@, k);
        assert(models[c].0 == key@);
    }
    Variant::Nil
}

/// Reads one value into `dictionary` under `key`, as `populate_toml_dictionary`
/// reads each entry of a table. `toml` is the whole document.
pub fn populate_toml_entry(toml: &TomlValue, dictionary: &mut Vec<(String, Variant)>, key: String, value: &TomlValue)
    requires
        value_populatable(value@),
    ensures
        entry_models(final(dictionary)@) == populated_entry(entry_models(old(dictionary)@), key@, value@),
    decreases value, 0nat,
{
    match value {
        TomlValue::Table(sub_table) => {
            proof {
                assert(decreases_to!(value => value->Table_0));
            }
            let mut sub_dic: Vec<(String, Variant)> = Vec::new();
            populate_toml_dictionary(toml, &mut sub_dic, sub_table);
            dictionary_set(dictionary, key, Variant::Dictionary(sub_dic));
        },
        TomlValue::Array(toml_arr) => {
            let ghost item_models = toml_models(toml_arr@);
            proof {
                lemma_toml_models(toml_arr@);
                lemma_items_populatable(item_models);
            }
            let mut dictionary_arr: Vec<Variant> = Vec::new();
            let mut j: usize = 0;
            while j < toml_arr.len()
                invariant
                    item_models == toml_models(toml_arr@),
                    item_models.len() == toml_arr.len(),
                    forall|k: int| 0 <= k < toml_arr.len() ==> #[trigger] item_models[k] == toml_model(toml_arr@[k]),
                    forall|k: int| 0 <= k < item_models.len() ==> #[trigger] value_populatable(item_models[k]),
                    j <= toml_arr.len(),
                    *value == TomlValue::Array(*toml_arr),
                    variant_models(dictionary_arr@) == populated_items(item_models.take(j as int)),
                decreases toml_arr.len() - j,
            {
                assert(value_populatable(item_models[j as int]));
                assert(item_models.take(j + 1).drop_last() =~= item_models.take(j as int));
                proof {
                    assert(decreases_to!(value => value->Array_0));
                    assert(decreases_to!(toml_arr => toml_arr@));
                    assert(decreases_to!(toml_arr@ => toml_arr@[j as int]));
                }
                let mut scratch: Vec<(String, Variant)> = Vec::new();
                let empty_key = String::new();
                populate_toml_entry(toml, &mut scratch, String::new(), &toml_arr[j]);
                proof {
                    lemma_populated_entry_sets_key(Seq::empty(), Seq::empty(), item_models[j as int]);
                }
                let item = take_value(scratch, &empty_key);
                let ghost before = dictionary_arr@;
                dictionary_arr.push(item);
                assert(dictionary_arr@.drop_last() == before);
                assert(item_models.take(j + 1).last() == item_models[j as int]);
                j = j + 1;
            }
            assert(item_models.take(toml_arr.len() as int) =~= item_models);
            dictionary_set(dictionary, key, Variant::Array(dictionary_arr));
        },
        TomlValue::Integer(n) => {
            dictionary_set(dictionary, key, Variant::Int(*n));
        },
        TomlValue::String(value_as_str) => {
            if text_contains(value_as_str.as_str(), '(') {
                encode_godot_types(dictionary, key.as_str(), value_as_str.as_str());
            } else {
                dictionary_set(dictionary, key, Variant::String(value_as_str.clone()));
            }
        },
        TomlValue::Float(bits) => {
            dictionary_set(dictionary, key, Variant::Float(*bits));
        },
        TomlValue::Boolean(b) => {
            dictionary_set(dictionary, key, Variant::Bool(*b));
        },
        TomlValue::Datetime(text) => {
            dictionary_set(dictionary, key, Variant::String(text.clone()));
        },
    }
}

/// Reads the values of `table` into `dictionary`, entry by entry, decoding the
/// Godot types written as text in its strings. `toml` is the whole document.
pub fn populate_toml_dictionary(toml: &TomlValue, dictionary: &mut Vec<(String, Variant)>, table: &Vec<(String, TomlValue)>)
    requires
        populatable(table_models(table@)),
    ensures
        entry_models(final(dictionary)@) == populated(entry_models(old(dictionary)@), table_models(table@)),
    decreases table, 0nat,
{
    let ghost models = table_models(table@);
    let ghost d0 = entry_models(dictionary@);
    proof {
        lemma_table_models(table@);
        lemma_populatable(models);
    }
    let mut i: usize = 0;
    while i < table.len()
        invariant
            models == table_models(table@),
            models.len() == table.len(),
            forall|j: int| 0 <= j < table.len() ==> #[trigger] models[j] == (table@[j].0@, toml_model(table@[j].1)),
            forall|j: int| 0 <= j < models.len() ==> #[trigger] value_populatable(models[j].1),
            d0 == entry_models(old(dictionary)@),
            i <= table.len(),
            entry_models(dictionary@) == populated(d0, models.take(i as int)),
        decreases table.len() - i,
    {
        assert(value_populatable(models[i as int].1));
        assert(models.take(i + 1).drop_last() =~= models.take(i as int));
        proof {
            assert(decreases_to!(table => table@));
            assert(decreases_to!(table@ => table@[i as int]));
            assert(decreases_to!(table@[i as int] => table@[i as int].1));
        }
        populate_toml_entry(toml, dictionary, table[i].0.clone(), &table[i].1);
        i = i + 1;
    }
    assert(models.take(table.len() as int) =~= models);
}

/// Whether a value can be read into a dictionary, as `populate_toml_entry` requires.
pub fn toml_value_is_populatable(value: &TomlValue) -> (res: bool)
    ensures
        res == value_populatable(value@),
    decreases value, 0nat,
{
    match value {
        TomlValue::Table(sub_table) => {
            proof {
                assert(decreases_to!(value => value->Table_0));
            }
            toml_table_is_populatable(sub_table)
        },
        TomlValue::Array(toml_arr) => {
            let ghost item_models = toml_models(toml_arr@);
            proof {
                lemma_toml_models(toml_arr@);
                lemma_items_populatable(item_models);
            }
            let mut j: usize = 0;
            while j < toml_arr.len()
                invariant
                    item_models == toml_models(toml_arr@),
                    item_models.len() == toml_arr.len(),
                    forall|k: int| 0 <= k < toml_arr.len() ==> #[trigger] item_models[k] == toml_model(toml_arr@[k]),
                    items_populatable(item_models) <==> forall|k: int|
                        0 <= k < item_models.len() ==> #[trigger] value_populatable(item_models[k]),
                    j <= toml_arr.len(),
                    *value == TomlValue::Array(*toml_arr),
                    forall|k: int| 0 <= k < j ==> #[trigger] value_populatable(item_models[k]),
                decreases toml_arr.len() - j,
            {
                proof {
                    assert(decreases_to!(value => value->Array_0));
                    assert(decreases_to!(toml_arr => toml_arr@));
                    assert(decreases_to!(toml_arr@ => toml_arr@[j as int]));
                }
                if !toml_value_is_populatable(&toml_arr[j]) {
                    assert(!value_populatable(item_models[j as int]));
                    return false;
                }
                j = j + 1;
            }
            true
        },
        TomlValue::String(value_as_str) => {
            if text_contains(value_as_str.as_str(), '(') {
                godot_text_is_decodable(value_as_str.as_str())
            } else {
                true
            }
        },
        _ => true,
    }
}

/// Whether `table` can be read into a dictionary, as
/// `populate_toml_dictionary` requires.
pub fn toml_table_is_populatable(table: &Vec<(String, TomlValue)>) -> (res: bool)
    ensures
        res == populatable(table_models(table@)),
    decreases table, 0nat,
{
    let ghost models = table_models(table@);
    proof {
        lemma_table_models(table@);
        lemma_populatable(models);
    }
    let mut i: usize = 0;
    while i < table.len()
        invariant
            models == table_models(table@),
            models.len() == table.len(),
            forall|j: int| 0 <= j < table.len() ==> #[trigger] models[j] == (table@[j].0@, toml_model(table@[j].1)),
            populatable(models) <==> forall|j: int| 0 <= j < models.len() ==> #[trigger] value_populatable(models[j].1),
            i <= table.len(),
            forall|j: int| 0 <= j < i ==> #[trigger] value_populatable(models[j].1),
        decreases table.len() - i,
    {
        proof {
            assert(decreases_to!(table => table@));
            assert(decreases_to!(table@ => table@[i as int]));
            assert(decreases_to!(table@[i as int] => table@[i as int].1));
        }
        if !toml_value_is_populatable(&table[i].1) {
            assert(!value_populatable(models[i as int].1));
            return false;
        }
        i = i + 1;
    }
    true
}

/// Reads `table` into `dictionary` when it can be read, and says whether it
/// did; otherwise the dictionary is left as it was.
pub fn try_populate_toml_dictionary(
    toml: &TomlValue,
    dictionary: &mut Vec<(String, Variant)>,
    table: &Vec<(String, TomlValue)>,
) -> (done: bool)
    ensures
        done == populatable(table_models(table@)),
        done ==> entry_models(final(dictionary)@) == populated(entry_models(old(dictionary)@), table_models(table@)),
        !done ==> *final(dictionary) == *old(dictionary),
{
    if toml_table_is_populatable(table) {
        populate_toml_dictionary(toml, dictionary, table);
        true
    } else {
        false
    }
}

} // verus!
