use godot_toml::convert::{contains_datetime, deserialize_variant, serialize_variant};
use godot_toml::toml_value::{table_insert, TomlValue};
use godot_toml::variant::{dictionary_set, Variant};

fn sample_toml() -> TomlValue {
    TomlValue::Table(vec![
        ("enabled".to_string(), TomlValue::Boolean(true)),
        ("name".to_string(), TomlValue::String("ship".to_string())),
        ("speed".to_string(), TomlValue::Float(2.5f64.to_bits())),
        (
            "stats".to_string(),
            TomlValue::Table(vec![
                ("hp".to_string(), TomlValue::Integer(100)),
                ("tags".to_string(), TomlValue::Array(vec![TomlValue::String("a".to_string()), TomlValue::Integer(-4)])),
            ]),
        ),
    ])
}

fn sample_variant() -> Variant {
    Variant::Dictionary(vec![
        ("enabled".to_string(), Variant::Bool(true)),
        ("name".to_string(), Variant::String("ship".to_string())),
        ("speed".to_string(), Variant::Float(2.5f64.to_bits())),
        (
            "stats".to_string(),
            Variant::Dictionary(vec![
                ("hp".to_string(), Variant::Int(100)),
                ("tags".to_string(), Variant::Array(vec![Variant::String("a".to_string()), Variant::Int(-4)])),
            ]),
        ),
    ])
}

#[test]
fn deserialize_maps_each_kind() {
    assert_eq!(deserialize_variant(&sample_toml()), sample_variant());
}

#[test]
fn serialize_maps_each_kind() {
    assert_eq!(serialize_variant(sample_variant()), sample_toml());
}

#[test]
fn round_trip_toml_variant_toml() {
    let back = serialize_variant(deserialize_variant(&sample_toml()));
    assert_eq!(back, sample_toml());
}

#[test]
fn round_trip_variant_toml_variant() {
    let back = deserialize_variant(&serialize_variant(sample_variant()));
    assert_eq!(back, sample_variant());
}

#[test]
fn serialize_dictionary_with_repeated_key_keeps_last_value_in_first_place() {
    let variant = Variant::Dictionary(vec![
        ("1".to_string(), Variant::Int(10)),
        ("b".to_string(), Variant::Int(20)),
        ("1".to_string(), Variant::String("one".to_string())),
    ]);
    assert_eq!(
        serialize_variant(variant),
        TomlValue::Table(vec![
            ("1".to_string(), TomlValue::String("one".to_string())),
            ("b".to_string(), TomlValue::Integer(20)),
        ])
    );
}

#[test]
fn dictionary_set_replaces_or_appends() {
    let mut dict = vec![("a".to_string(), Variant::Int(1))];
    dictionary_set(&mut dict, "b".to_string(), Variant::Int(2));
    dictionary_set(&mut dict, "a".to_string(), Variant::Bool(false));
    assert_eq!(dict, vec![("a".to_string(), Variant::Bool(false)), ("b".to_string(), Variant::Int(2))]);
}

#[test]
fn table_insert_replaces_or_appends() {
    let mut table = Vec::new();
    table_insert(&mut table, "x".to_string(), TomlValue::Integer(1));
    table_insert(&mut table, "y".to_string(), TomlValue::Integer(2));
    table_insert(&mut table, "x".to_string(), TomlValue::Integer(3));
    assert_eq!(
        table,
        vec![("x".to_string(), TomlValue::Integer(3)), ("y".to_string(), TomlValue::Integer(2))]
    );
}

#[test]
fn contains_datetime_finds_nested_dates() {
    assert!(!contains_datetime(&sample_toml()));
    let dated = TomlValue::Table(vec![(
        "when".to_string(),
        TomlValue::Array(vec![TomlValue::Integer(1), TomlValue::Datetime("1979-05-27".to_string())]),
    )]);
    assert!(contains_datetime(&dated));
    assert!(contains_datetime(&TomlValue::Datetime("07:32:00".to_string())));
}
