use config_server::flatten::flatten_json;
use config_server::parser::{
    parse, parse_json, parse_properties, parse_yaml, to_json_text, Format,
};
use config_server::value::{ConfigValue, Number};

fn text(s: &str) -> ConfigValue {
    ConfigValue::Text(s.to_string())
}

#[test]
fn flatten_nested_json_document() {
    let tree = parse("{\"server\": {\"port\": 8080, \"hosts\": [\"a\", \"b\"]}}", Format::Json)
        .unwrap();
    let flat = flatten_json(&tree, String::new());
    assert_eq!(flat.len(), 3);
    assert_eq!(flat.get("server.port"), Some(&ConfigValue::Number(Number::PosInt(8080))));
    assert_eq!(flat.get("server.hosts[0]"), Some(&text("a")));
    assert_eq!(flat.get("server.hosts[1]"), Some(&text("b")));
    assert_eq!(flat.get("server"), None);
}

#[test]
fn flatten_joins_object_keys_with_dots() {
    let tree = ConfigValue::Object(vec![(
        "a".to_string(),
        ConfigValue::Object(vec![(
            "b".to_string(),
            ConfigValue::Object(vec![("c".to_string(), ConfigValue::Bool(true))]),
        )]),
    )]);
    let flat = flatten_json(&tree, String::new());
    assert_eq!(flat.len(), 1);
    assert_eq!(flat.get("a.b.c"), Some(&ConfigValue::Bool(true)));
}

#[test]
fn flatten_indexes_array_elements_from_zero() {
    let tree = ConfigValue::Object(vec![(
        "list".to_string(),
        ConfigValue::Array(vec![
            text("x"),
            ConfigValue::Object(vec![("k".to_string(), ConfigValue::Null)]),
            ConfigValue::Array(vec![ConfigValue::Number(Number::NegInt(-3))]),
        ]),
    )]);
    let flat = flatten_json(&tree, String::new());
    assert_eq!(flat.len(), 3);
    assert_eq!(flat.get("list[0]"), Some(&text("x")));
    assert_eq!(flat.get("list[1].k"), Some(&ConfigValue::Null));
    assert_eq!(flat.get("list[2][0]"), Some(&ConfigValue::Number(Number::NegInt(-3))));
}

#[test]
fn flatten_writes_indices_in_decimal() {
    let items: Vec<ConfigValue> =
        (0..12).map(|i| ConfigValue::Number(Number::PosInt(i))).collect();
    let flat = flatten_json(&ConfigValue::Array(items), "n".to_string());
    assert_eq!(flat.len(), 12);
    assert_eq!(flat.get("n[0]"), Some(&ConfigValue::Number(Number::PosInt(0))));
    assert_eq!(flat.get("n[9]"), Some(&ConfigValue::Number(Number::PosInt(9))));
    assert_eq!(flat.get("n[10]"), Some(&ConfigValue::Number(Number::PosInt(10))));
    assert_eq!(flat.get("n[11]"), Some(&ConfigValue::Number(Number::PosInt(11))));
}

#[test]
fn flatten_scalar_goes_under_the_prefix() {
    let flat = flatten_json(&text("v"), "some.key".to_string());
    assert_eq!(flat.len(), 1);
    assert_eq!(flat.get("some.key"), Some(&text("v")));
    let top = flatten_json(&ConfigValue::Number(Number::PosInt(42)), String::new());
    assert_eq!(top.len(), 1);
    assert_eq!(top.get(""), Some(&ConfigValue::Number(Number::PosInt(42))));
}

#[test]
fn flatten_empty_containers_have_no_leaf() {
    let tree = ConfigValue::Object(vec![
        ("empty_object".to_string(), ConfigValue::Object(vec![])),
        ("empty_array".to_string(), ConfigValue::Array(vec![])),
        ("kept".to_string(), ConfigValue::Bool(false)),
    ]);
    let flat = flatten_json(&tree, String::new());
    assert_eq!(flat.len(), 1);
    assert_eq!(flat.get("kept"), Some(&ConfigValue::Bool(false)));
    assert_eq!(flatten_json(&ConfigValue::Object(vec![]), String::new()).len(), 0);
    assert_eq!(flatten_json(&ConfigValue::Array(vec![]), String::new()).len(), 0);
}

#[test]
fn flatten_collision_last_visited_wins() {
    let first = ConfigValue::Object(vec![
        ("a.b".to_string(), ConfigValue::Number(Number::PosInt(1))),
        (
            "a".to_string(),
            ConfigValue::Object(vec![("b".to_string(), ConfigValue::Number(Number::PosInt(2)))]),
        ),
    ]);
    let flat = flatten_json(&first, String::new());
    assert_eq!(flat.len(), 1);
    assert_eq!(flat.get("a.b"), Some(&ConfigValue::Number(Number::PosInt(2))));
    let second = ConfigValue::Object(vec![
        (
            "a".to_string(),
            ConfigValue::Object(vec![("b".to_string(), ConfigValue::Number(Number::PosInt(2)))]),
        ),
        ("a.b".to_string(), ConfigValue::Number(Number::PosInt(1))),
    ]);
    let flat = flatten_json(&second, String::new());
    assert_eq!(flat.len(), 1);
    assert_eq!(flat.get("a.b"), Some(&ConfigValue::Number(Number::PosInt(1))));
}

#[test]
fn json_parses_every_kind_of_value() {
    let tree = parse(
        "{\"s\": \"x\", \"n\": -7, \"u\": 18446744073709551615, \"f\": 1.5, \"t\": true, \"z\": null, \"a\": [], \"o\": {}}",
        Format::Json,
    )
    .unwrap();
    let ConfigValue::Object(fields) = tree else { panic!("not an object") };
    let get = |name: &str| fields.iter().find(|(k, _)| k == name).map(|(_, v)| v);
    assert_eq!(get("s"), Some(&text("x")));
    assert_eq!(get("n"), Some(&ConfigValue::Number(Number::NegInt(-7))));
    assert_eq!(get("u"), Some(&ConfigValue::Number(Number::PosInt(u64::MAX))));
    assert_eq!(get("f"), Some(&ConfigValue::Number(Number::Float("1.5".to_string()))));
    assert_eq!(get("t"), Some(&ConfigValue::Bool(true)));
    assert_eq!(get("z"), Some(&ConfigValue::Null));
    assert_eq!(get("a"), Some(&ConfigValue::Array(vec![])));
    assert_eq!(get("o"), Some(&ConfigValue::Object(vec![])));
}

#[test]
fn json_parse_error_names_format_and_place() {
    let err = parse("{\n  \"a\": @\n}", Format::Json).unwrap_err();
    assert_eq!(err.format, Format::Json);
    let at = err.location.unwrap();
    assert_eq!((at.line, at.column), (2, 8));
    assert!(parse_json("{").is_err());
}

#[test]
fn yaml_parses_to_the_same_tree_as_json() {
    let yaml = parse("server:\n  port: 8080\n  hosts:\n    - a\n    - b\nflag: true\n", Format::Yaml)
        .unwrap();
    let json = parse(
        "{\"server\": {\"port\": 8080, \"hosts\": [\"a\", \"b\"]}, \"flag\": true}",
        Format::Json,
    )
    .unwrap();
    assert_eq!(yaml, json);
    let flat = parse_yaml("server:\n  port: 8080\n").unwrap();
    assert_eq!(flat.get("server.port"), Some(&ConfigValue::Number(Number::PosInt(8080))));
}

#[test]
fn yaml_parse_error_names_format() {
    let err = parse("a: [1, 2\nb: {", Format::Yaml).unwrap_err();
    assert_eq!(err.format, Format::Yaml);
    assert!(parse_yaml("@invalid_yaml").is_err());
    let at = parse("@invalid_yaml", Format::Yaml).unwrap_err().location.unwrap();
    assert_eq!((at.line, at.column), (1, 1));
}

#[test]
fn properties_split_on_first_equals_and_trim() {
    let flat = parse_properties("  server.port = 8080  \nurl=jdbc:x?a=b&c=d\n").unwrap();
    assert_eq!(flat.len(), 2);
    assert_eq!(flat.get("server.port"), Some(&text("8080")));
    assert_eq!(flat.get("url"), Some(&text("jdbc:x?a=b&c=d")));
}

#[test]
fn properties_skip_blank_comment_and_unassigned_lines() {
    let flat =
        parse_properties("# comment\n\n   \nno equals sign here\n  # indented = comment\nk=v\r\n")
            .unwrap();
    assert_eq!(flat.len(), 1);
    assert_eq!(flat.get("k"), Some(&text("v")));
}

#[test]
fn properties_always_yield_strings_and_last_line_wins() {
    let flat = parse_properties("a=1\nb=true\na=2\nempty=\n=novalue").unwrap();
    assert_eq!(flat.len(), 4);
    assert_eq!(flat.get("a"), Some(&text("2")));
    assert_eq!(flat.get("b"), Some(&text("true")));
    assert_eq!(flat.get("empty"), Some(&text("")));
    assert_eq!(flat.get(""), Some(&text("novalue")));
}

#[test]
fn properties_tree_keeps_line_order() {
    let tree = parse("b=1\na=2", Format::Properties).unwrap();
    assert_eq!(
        tree,
        ConfigValue::Object(vec![("b".to_string(), text("1")), ("a".to_string(), text("2"))])
    );
    assert_eq!(parse("", Format::Properties).unwrap(), ConfigValue::Object(vec![]));
}

use config_server::paths::{write_key, PathStep};

#[test]
fn flat_keys_are_written_from_paths() {
    assert_eq!(write_key(&vec![]), "");
    assert_eq!(write_key(&vec![PathStep::Field("server".to_string())]), "server");
    assert_eq!(
        write_key(&vec![
            PathStep::Field("server".to_string()),
            PathStep::Field("hosts".to_string()),
            PathStep::Element(10),
            PathStep::Field("name".to_string()),
        ]),
        "server.hosts[10].name"
    );
    assert_eq!(write_key(&vec![PathStep::Element(0), PathStep::Element(2)]), "[0][2]");
    assert_eq!(
        write_key(&vec![PathStep::Element(1), PathStep::Field("a".to_string())]),
        "[1].a"
    );
}

#[test]
fn round_trip_every_leaf_is_found_under_the_key_of_its_path() {
    let tree = parse(
        r#"{"a": {"b": [10, {"c": "x"}], "d": true}, "e": null, "f": [[1], []], "g": {}}"#,
        Format::Json,
    )
    .unwrap();
    let flat = flatten_json(&tree, String::new());
    let f = |name: &str| PathStep::Field(name.to_string());
    let leaves = vec![
        (vec![f("a"), f("b"), PathStep::Element(0)], ConfigValue::Number(Number::PosInt(10))),
        (vec![f("a"), f("b"), PathStep::Element(1), f("c")], text("x")),
        (vec![f("a"), f("d")], ConfigValue::Bool(true)),
        (vec![f("e")], ConfigValue::Null),
        (vec![f("f"), PathStep::Element(0), PathStep::Element(0)], ConfigValue::Number(Number::PosInt(1))),
    ];
    assert_eq!(flat.len(), leaves.len());
    for (path, value) in &leaves {
        assert_eq!(flat.get(&write_key(path)), Some(value));
    }
    // Field order and empty containers are all that flattening forgets.
    let other = parse(
        r#"{"e": null, "f": [[1]], "a": {"d": true, "b": [10, {"c": "x"}]}}"#,
        Format::Json,
    )
    .unwrap();
    let other_flat = flatten_json(&other, String::new());
    assert_eq!(other_flat.len(), flat.len());
    for (key, value) in flat.entries() {
        assert_eq!(other_flat.get(key), Some(value));
    }
}

#[test]
fn yaml_without_json_form_is_malformed_without_a_place() {
    let err = parse("? [a, b]\n: value\n", Format::Yaml).unwrap_err();
    assert_eq!(err.format, Format::Yaml);
    assert_eq!(err.location, None);
    let tree = parse("1: one\ntrue: yes\n", Format::Yaml).unwrap();
    let flat = flatten_json(&tree, String::new());
    assert_eq!(flat.get("1"), Some(&text("one")));
}

#[test]
fn json_text_is_compact_with_fields_in_the_order_of_the_map() {
    let tree = ConfigValue::Object(vec![
        ("b".to_string(), ConfigValue::Array(vec![ConfigValue::Null, ConfigValue::Bool(false)])),
        ("a".to_string(), ConfigValue::Number(Number::NegInt(-1))),
        ("b".to_string(), text("x\ny")),
        ("f".to_string(), ConfigValue::Number(Number::Float("2.5".to_string()))),
        ("g".to_string(), ConfigValue::Number(Number::Float("no number".to_string()))),
    ]);
    assert_eq!(to_json_text(&tree), r#"{"a":-1,"b":"x\ny","f":2.5,"g":null}"#);
    assert_eq!(to_json_text(&ConfigValue::Null), "null");
    assert_eq!(to_json_text(&text("s")), "\"s\"");
    let again = parse(&to_json_text(&tree), Format::Json).unwrap();
    assert_eq!(to_json_text(&again), to_json_text(&tree));
}
