use godot_toml::godot_types::{
    encode_basis, encode_color, encode_godot_types, encode_plane, encode_rect2, encode_transform, encode_vector2,
    encode_vector3, godot_text_is_decodable, placement_shape_of, populate_toml_dictionary, set_godot_type_to_dictionary,
    toml_table_is_populatable, try_encode_godot_types, try_populate_toml_dictionary,
};
use godot_toml::pattern::{godot_type_tokens, text_contains, trim_text};
use godot_toml::toml_value::TomlValue;
use godot_toml::variant::{Basis, Color, Plane, Rect2, Transform2D, Transform3D, Variant, Vector2, Vector3};

fn s(t: &str) -> String {
    t.to_string()
}

fn v2(x: &str, y: &str) -> Vector2 {
    Vector2 { x: s(x), y: s(y) }
}

fn v3(x: &str, y: &str, z: &str) -> Vector3 {
    Vector3 { x: s(x), y: s(y), z: s(z) }
}

fn tokens(list: &[&str]) -> Vec<String> {
    list.iter().map(|t| s(t)).collect()
}

#[test]
fn trim_text_removes_outer_white_space() {
    assert_eq!(trim_text("  1.5\t\n"), "1.5");
    assert_eq!(trim_text("a b"), "a b");
    assert_eq!(trim_text("   "), "");
}

#[test]
fn text_contains_finds_char() {
    assert!(text_contains("Vector2(1, 2)", '('));
    assert!(!text_contains("plain", '('));
}

#[test]
fn godot_type_tokens_scans_runs_of_word_characters() {
    assert_eq!(godot_type_tokens("Vector2(1.5, -2)"), tokens(&["Vector2", "1.5", "2"]));
    assert_eq!(
        godot_type_tokens("Rect2(Vector2(0, 0), Vector2(4, 3))"),
        tokens(&["Rect2", "Vector2", "0", "0", "Vector2", "4", "3"])
    );
    assert_eq!(godot_type_tokens("res://a/b.png"), tokens(&["res", "/a", "/b.png"]));
    assert_eq!(godot_type_tokens("( )"), Vec::<String>::new());
    assert_eq!(godot_type_tokens("é/x y"), tokens(&["/x", "y"]));
}

#[test]
fn godot_type_tokens_keeps_slashes() {
    assert_eq!(godot_type_tokens("a/b"), tokens(&["a", "/b"]));
    assert_eq!(godot_type_tokens("a//b"), tokens(&["a", "/b"]));
}

#[test]
fn encode_functions_build_values() {
    assert_eq!(encode_vector2(" 1 ", "2"), v2("1", "2"));
    assert_eq!(encode_vector3("1", " 2", "3 "), v3("1", "2", "3"));
    assert_eq!(encode_rect2(v2("0", "1"), v2("2", "3")), Rect2 { position: v2("0", "1"), size: v2("2", "3") });
    assert_eq!(encode_plane(v3("0", "1", "0"), " 5 "), Plane { normal: v3("0", "1", "0"), d: s("5") });
    assert_eq!(
        encode_basis(v3("1", "0", "0"), v3("0", "1", "0"), v3("0", "0", "1")),
        Basis { col_x: v3("1", "0", "0"), col_y: v3("0", "1", "0"), col_z: v3("0", "0", "1") }
    );
    assert_eq!(
        encode_transform(v3("1", "0", "0"), v3("0", "1", "0"), v3("0", "0", "1"), v3("7", "8", "9")),
        Transform3D {
            basis: Basis { col_x: v3("1", "0", "0"), col_y: v3("0", "1", "0"), col_z: v3("0", "0", "1") },
            origin: v3("7", "8", "9"),
        }
    );
    assert_eq!(encode_color("1", "0.5", "0", Some("0.25")), Color { r: s("1"), g: s("0.5"), b: s("0"), a: Some(s("0.25")) });
    assert_eq!(encode_color("1", "0.5", "0", None), Color { r: s("1"), g: s("0.5"), b: s("0"), a: None });
}

#[test]
fn set_godot_type_vector2_without_pool_sets_key() {
    let mut dict = Vec::new();
    let mut p2 = None;
    let mut p3 = None;
    set_godot_type_to_dictionary(tokens(&["Vector2", "1", "2"]), "pos", &mut dict, &mut p2, &mut p3);
    assert_eq!(dict, vec![(s("pos"), Variant::Vector2(v2("1", "2")))]);
}

#[test]
fn set_godot_type_vector2_with_pool_gathers() {
    let mut dict = Vec::new();
    let mut p2 = Some(Vec::new());
    let mut p3 = None;
    set_godot_type_to_dictionary(
        tokens(&["Vector2", "1", "2", "Vector2", "3", "4"]),
        "k",
        &mut dict,
        &mut p2,
        &mut p3,
    );
    assert!(dict.is_empty());
    assert_eq!(p2, Some(vec![v2("1", "2"), v2("3", "4")]));
}

#[test]
fn set_godot_type_compound_types() {
    let mut dict = Vec::new();
    set_godot_type_to_dictionary(
        tokens(&["Rect2", "Vector2", "0", "0", "Vector2", "4", "3"]),
        "r",
        &mut dict,
        &mut None,
        &mut None,
    );
    assert_eq!(dict, vec![(s("r"), Variant::Rect2(Rect2 { position: v2("0", "0"), size: v2("4", "3") }))]);

    let mut dict = Vec::new();
    set_godot_type_to_dictionary(
        tokens(&["Transform2D", "Vector2", "1", "0", "Vector2", "0", "1", "Vector2", "5", "6"]),
        "t",
        &mut dict,
        &mut None,
        &mut None,
    );
    assert_eq!(
        dict,
        vec![(s("t"), Variant::Transform2D(Transform2D { a: v2("1", "0"), b: v2("0", "1"), origin: v2("5", "6") }))]
    );

    let mut dict = Vec::new();
    set_godot_type_to_dictionary(tokens(&["Plane", "Vector3", "0", "1", "0", "5"]), "p", &mut dict, &mut None, &mut None);
    assert_eq!(dict, vec![(s("p"), Variant::Plane(Plane { normal: v3("0", "1", "0"), d: s("5") }))]);

    let mut dict = Vec::new();
    set_godot_type_to_dictionary(
        tokens(&["Transform", "Vector3", "1", "0", "0", "Vector3", "0", "1", "0", "Vector3", "0", "0", "1", "Vector3", "2", "3", "4"]),
        "x",
        &mut dict,
        &mut None,
        &mut None,
    );
    assert_eq!(
        dict,
        vec![(
            s("x"),
            Variant::Transform3D(Transform3D {
                basis: Basis { col_x: v3("1", "0", "0"), col_y: v3("0", "1", "0"), col_z: v3("0", "0", "1") },
                origin: v3("2", "3", "4"),
            })
        )]
    );
}

#[test]
fn set_godot_type_color_alpha_only_with_five_tokens() {
    let mut dict = Vec::new();
    set_godot_type_to_dictionary(tokens(&["Color", "1", "0", "0", "0.5"]), "c", &mut dict, &mut None, &mut None);
    assert_eq!(dict, vec![(s("c"), Variant::Color(Color { r: s("1"), g: s("0"), b: s("0"), a: Some(s("0.5")) }))]);
    let mut dict = Vec::new();
    set_godot_type_to_dictionary(tokens(&["Color", "1", "0", "0"]), "c", &mut dict, &mut None, &mut None);
    assert_eq!(dict, vec![(s("c"), Variant::Color(Color { r: s("1"), g: s("0"), b: s("0"), a: None }))]);
}

#[test]
fn placement_shape_detects_missing_tokens() {
    assert_eq!(placement_shape_of(&tokens(&["Vector2", "1"]), None, None), None);
    assert_eq!(placement_shape_of(&tokens(&["Rect2", "Vector2", "1", "2"]), None, None), None);
    assert_eq!(placement_shape_of(&tokens(&["Vector2", "1", "2"]), Some(0), None), Some((Some(1), None)));
    assert_eq!(placement_shape_of(&tokens(&["Color", "1", "2", "3"]), None, None), Some((None, None)));
}

#[test]
fn encode_godot_types_decodes_text() {
    let mut dict = Vec::new();
    encode_godot_types(&mut dict, "position", "Vector2(1.5, 2)");
    encode_godot_types(&mut dict, "label", "hello (world)");
    assert_eq!(
        dict,
        vec![
            (s("position"), Variant::Vector2(v2("1.5", "2"))),
            (s("label"), Variant::String(s("hello (world)"))),
        ]
    );
}

#[test]
fn try_encode_refuses_undecodable_text() {
    let mut dict = vec![(s("a"), Variant::Int(1))];
    assert!(!godot_text_is_decodable("Vector3(1, 2)"));
    assert!(!try_encode_godot_types(&mut dict, "b", "Vector3(1, 2)"));
    assert_eq!(dict, vec![(s("a"), Variant::Int(1))]);
    assert!(try_encode_godot_types(&mut dict, "b", "Vector3(1, 2, 3)"));
    assert_eq!(dict, vec![(s("a"), Variant::Int(1)), (s("b"), Variant::Vector3(v3("1", "2", "3")))]);
}

#[test]
fn populate_reads_nested_tables_arrays_and_godot_types() {
    let table = vec![
        (s("count"), TomlValue::Integer(2)),
        (s("when"), TomlValue::Datetime(s("1979-05-27T07:32:00Z"))),
        (
            s("player"),
            TomlValue::Table(vec![
                (s("spawn"), TomlValue::String(s("Vector3(1, 2, 3)"))),
                (s("alive"), TomlValue::Boolean(true)),
            ]),
        ),
        (
            s("items"),
            TomlValue::Array(vec![TomlValue::Table(vec![(s("w"), TomlValue::Float(0.5f64.to_bits()))])]),
        ),
        (s("name"), TomlValue::String(s("plain"))),
    ];
    let toml = TomlValue::Table(Vec::new());
    let mut dict = Vec::new();
    assert!(toml_table_is_populatable(&table));
    populate_toml_dictionary(&toml, &mut dict, &table);
    assert_eq!(
        dict,
        vec![
            (s("count"), Variant::Int(2)),
            (s("when"), Variant::String(s("1979-05-27T07:32:00Z"))),
            (
                s("player"),
                Variant::Dictionary(vec![
                    (s("spawn"), Variant::Vector3(v3("1", "2", "3"))),
                    (s("alive"), Variant::Bool(true)),
                ])
            ),
            (s("items"), Variant::Array(vec![Variant::Dictionary(vec![(s("w"), Variant::Float(0.5f64.to_bits()))])])),
            (s("name"), Variant::String(s("plain"))),
        ]
    );
}

#[test]
fn encode_godot_types_keeps_text_without_tokens() {
    let mut dict = Vec::new();
    assert!(godot_text_is_decodable(":-("));
    encode_godot_types(&mut dict, "k", ":-(");
    assert_eq!(dict, vec![(s("k"), Variant::String(s(":-(")))]);
}

#[test]
fn populate_reads_arrays_of_plain_values() {
    let table = vec![(
        s("a"),
        TomlValue::Array(vec![
            TomlValue::Integer(1),
            TomlValue::String(s("Vector2(3, 4)")),
            TomlValue::Array(vec![TomlValue::Boolean(true)]),
        ]),
    )];
    let toml = TomlValue::Table(Vec::new());
    let mut dict = Vec::new();
    assert!(try_populate_toml_dictionary(&toml, &mut dict, &table));
    assert_eq!(
        dict,
        vec![(
            s("a"),
            Variant::Array(vec![
                Variant::Int(1),
                Variant::Vector2(v2("3", "4")),
                Variant::Array(vec![Variant::Bool(true)]),
            ])
        )]
    );
}

#[test]
fn try_populate_refuses_undecodable_text() {
    let table = vec![(s("v"), TomlValue::Array(vec![TomlValue::String(s("Rect2(Vector2(1, 2))"))]))];
    let toml = TomlValue::Table(Vec::new());
    let mut dict = vec![(s("keep"), Variant::Nil)];
    assert!(!toml_table_is_populatable(&table));
    assert!(!try_populate_toml_dictionary(&toml, &mut dict, &table));
    assert_eq!(dict, vec![(s("keep"), Variant::Nil)]);
}
