use okaeri_configs::config_value::ConfigValue;
use okaeri_configs::error::ConfigError;
use okaeri_configs::format::{format_from_file_name, format_from_path, resolve_format, resolve_format_of, Format};
use okaeri_configs::metadata::{ConfigMetadata, FieldMetadata};
use okaeri_configs::options::{ConfigOptions, NamingStrategy};
use okaeri_configs::order::FieldOrder;
use okaeri_configs::{json_format, toml_format, yaml_format};

fn metadata_ab() -> ConfigMetadata {
    let mut metadata = ConfigMetadata::default();
    metadata.struct_comments = vec!["Head".to_string()];
    metadata.fields = vec![FieldMetadata::new("a").with_comment("A comment"), FieldMetadata::new("b")];
    metadata
}

fn alphabetical() -> ConfigOptions {
    let mut options = ConfigOptions::default();
    options.field_order = FieldOrder::Alphabetical;
    options
}

#[test]
fn extensions_and_default_format() {
    assert_eq!(Format::Toml.extension(), "toml");
    assert_eq!(Format::Json.extension(), "json");
    assert_eq!(Format::Yaml.extension(), "yaml");
    assert_eq!(Format::default(), Format::Toml);
}

#[test]
fn format_from_file_names() {
    assert_eq!(format_from_file_name(Some("config.toml")).unwrap(), Format::Toml);
    assert_eq!(format_from_file_name(Some("config.json")).unwrap(), Format::Json);
    assert_eq!(format_from_file_name(Some("config.yaml")).unwrap(), Format::Yaml);
    assert_eq!(format_from_file_name(Some("a.b.yml")).unwrap(), Format::Yaml);
    assert!(matches!(format_from_file_name(Some("config.txt")), Err(ConfigError::UnsupportedFormat(e)) if e == "txt"));
    assert!(matches!(format_from_file_name(Some(".toml")), Err(ConfigError::UnsupportedFormat(e)) if e == ".toml"));
    assert!(matches!(format_from_file_name(Some("README")), Err(ConfigError::UnsupportedFormat(e)) if e == "README"));
    assert!(matches!(format_from_file_name(Some("TOML.TOML")), Err(ConfigError::UnsupportedFormat(e)) if e == "TOML"));
    assert!(matches!(format_from_file_name(None), Err(ConfigError::UnsupportedFormat(e)) if e.is_empty()));
}

#[test]
fn extension_round_trip() {
    for f in [Format::Toml, Format::Json, Format::Yaml] {
        let name = format!("settings.{}", f.extension());
        assert_eq!(format_from_file_name(Some(name.as_str())).unwrap(), f);
    }
}

#[test]
fn format_from_paths() {
    assert_eq!(format_from_path("dir/sub/app.json").unwrap(), Format::Json);
    assert!(format_from_path("dir/app.ini").is_err());
}

#[test]
fn resolving_the_format() {
    assert_eq!(resolve_format(Some(Format::Yaml), Some("x.json")).unwrap(), Format::Yaml);
    assert_eq!(resolve_format(None, None).unwrap(), Format::Toml);
    assert_eq!(resolve_format(None, Some("conf/app.yml")).unwrap(), Format::Yaml);
    assert!(matches!(
        resolve_format(None, Some("app.ini")),
        Err(ConfigError::UnsupportedFormat(e)) if e == "Could not determine format from file extension"
    ));
}

#[test]
fn json_document_with_header_and_comment() {
    let value: serde_json::Value = serde_json::from_str(r#"{"b": 1, "a": 2, "zzz": 3}"#).unwrap();
    let out = json_format::to_string(value, &metadata_ab(), &alphabetical()).unwrap();
    assert_eq!(out, "// Head\n\n{\n  // A comment\n  \"a\": 2,\n  \"b\": 1\n}\n");
}

#[test]
fn json_document_in_declaration_order_without_header() {
    let mut metadata = metadata_ab();
    metadata.struct_comments = Vec::new();
    let value: serde_json::Value = serde_json::from_str(r#"{"b": 1, "a": 2}"#).unwrap();
    let out = json_format::to_string(value, &metadata, &ConfigOptions::default()).unwrap();
    assert_eq!(out, "{\n  // A comment\n  \"a\": 2,\n  \"b\": 1\n}\n");
}

#[test]
fn json_document_of_a_non_object() {
    let value: serde_json::Value = serde_json::from_str("5").unwrap();
    let out = json_format::to_string(value, &ConfigMetadata::default(), &ConfigOptions::default()).unwrap();
    assert_eq!(out, "5\n");
}

#[test]
fn json_custom_keys_naming_and_skipped_fields() {
    let mut metadata = ConfigMetadata::default();
    metadata.fields = vec![
        FieldMetadata::new("name").with_key("customName"),
        FieldMetadata::new("internal").with_exclude(true),
        FieldMetadata::new("my_age"),
    ];
    let mut options = ConfigOptions::default();
    options.naming_strategy = NamingStrategy::CamelCase;
    let value: serde_json::Value = serde_json::from_str(r#"{"name": "Test", "internal": "x", "extra": 1, "my_age": 25}"#).unwrap();
    let out = json_format::to_string(value, &metadata, &options).unwrap();
    assert_eq!(out, "{\n  \"customName\": \"Test\",\n  \"myAge\": 25\n}\n");
}

#[test]
fn json_field_renamed_by_naming_strategy_keeps_its_value() {
    let mut metadata = ConfigMetadata::default();
    metadata.fields = vec![FieldMetadata::new("my_field").with_comment("Mine")];
    let mut options = ConfigOptions::default();
    options.naming_strategy = NamingStrategy::CamelCase;
    let value: serde_json::Value = serde_json::from_str(r#"{"my_field": 1}"#).unwrap();
    let out = json_format::to_string(value, &metadata, &options).unwrap();
    assert_eq!(out, "{\n  // Mine\n  \"myField\": 1\n}\n");
}

#[test]
fn toml_comment_stays_over_its_own_key() {
    let mut metadata = ConfigMetadata::default();
    metadata.fields = vec![
        FieldMetadata::new("app_name").with_comment("A"),
        FieldMetadata::new("name").with_comment("N"),
    ];
    let out = toml_format::to_string("app_name = \"x\"\nname = \"y\"\n", &metadata, &ConfigOptions::default()).unwrap();
    assert_eq!(out, "# A\napp_name = \"x\"\n# N\nname = \"y\"\n");
    let mut reversed = ConfigOptions::default();
    reversed.field_order = FieldOrder::AlphabeticalReverse;
    let out = toml_format::to_string("app_name = \"x\"\nname = \"y\"\n", &metadata, &reversed).unwrap();
    assert_eq!(out, "# N\nname = \"y\"\n# A\napp_name = \"x\"\n");
}

#[test]
fn yaml_comment_stays_over_its_own_key() {
    let mut metadata = ConfigMetadata::default();
    metadata.fields = vec![
        FieldMetadata::new("app_name").with_comment("A"),
        FieldMetadata::new("name").with_comment("N"),
    ];
    let mut reversed = ConfigOptions::default();
    reversed.field_order = FieldOrder::AlphabeticalReverse;
    let value: serde_yaml_bw::Value = serde_yaml_bw::from_str("app_name: x\nname: y\n").unwrap();
    let out = yaml_format::to_string(value, &metadata, &reversed).unwrap();
    assert_eq!(out, "# N\nname: y\n# A\napp_name: x\n");
}

#[test]
fn toml_document_with_header_and_comment() {
    let out = toml_format::to_string("b = 1\na = 2\n", &metadata_ab(), &alphabetical()).unwrap();
    assert_eq!(out, "# Head\n\n\n# A comment\na = 2\nb = 1\n");
}

#[test]
fn toml_renames_fields_by_naming_strategy() {
    let mut metadata = ConfigMetadata::default();
    metadata.fields = vec![FieldMetadata::new("my_field").with_comment("Mine")];
    let mut options = ConfigOptions::default();
    options.naming_strategy = NamingStrategy::KebabCase;
    let out = toml_format::to_string("other = true\nmy_field = 3\n", &metadata, &options).unwrap();
    assert_eq!(out, "other = true\n# Mine\nmy-field = 3\n");
}

#[test]
fn toml_text_that_does_not_parse() {
    let r = toml_format::to_string("= = =", &metadata_ab(), &alphabetical());
    assert!(matches!(r, Err(ConfigError::TomlDe(_))));
}

#[test]
fn yaml_document_with_header_and_comment() {
    let value: serde_yaml_bw::Value = serde_yaml_bw::from_str("b: 1\na: 2\n").unwrap();
    let out = yaml_format::to_string(value, &metadata_ab(), &alphabetical()).unwrap();
    assert_eq!(out, "# Head\n\n\n# A comment\na: 2\nb: 1\n");
}

#[test]
fn yaml_renames_fields_by_naming_strategy() {
    let mut metadata = ConfigMetadata::default();
    metadata.fields = vec![FieldMetadata::new("my_field").with_comment("Mine")];
    let mut options = ConfigOptions::default();
    options.naming_strategy = NamingStrategy::ScreamingSnakeCase;
    let value: serde_yaml_bw::Value = serde_yaml_bw::from_str("my_field: 3\nother: x\n").unwrap();
    let out = yaml_format::to_string(value, &metadata, &options).unwrap();
    assert_eq!(out, "other: x\n# Mine\nMY_FIELD: 3\n");
}

fn merge_metadata(fields: &[&str]) -> ConfigMetadata {
    let mut metadata = ConfigMetadata::default();
    metadata.fields = fields.iter().map(|f| FieldMetadata::new(f)).collect();
    metadata
}

#[test]
fn json_merge_keeps_stored_values_and_adds_missing_fields() {
    let stored: serde_json::Value = serde_json::from_str(r#"{"field1": "json_value1", "field2": 200}"#).unwrap();
    let defaults: serde_json::Value =
        serde_json::from_str(r#"{"field1": "", "field2": 0, "field3": false, "field4": ""}"#).unwrap();
    let metadata = merge_metadata(&["field1", "field2", "field3", "field4"]);
    let merged = ConfigValue::merge(
        ConfigValue::Json(stored),
        ConfigValue::Json(defaults),
        &metadata,
        &ConfigOptions::default(),
    )
    .unwrap();
    match merged {
        ConfigValue::Json(v) => {
            let obj = v.as_object().unwrap();
            let keys: Vec<&String> = obj.keys().collect();
            assert_eq!(keys, vec!["field1", "field2", "field3", "field4"]);
            assert_eq!(v["field1"], "json_value1");
            assert_eq!(v["field2"], 200);
            assert_eq!(v["field3"], false);
            assert_eq!(v["field4"], "");
        },
        _ => panic!("not JSON"),
    }
}

#[test]
fn json_merge_removes_orphans_and_sorts() {
    let stored: serde_json::Value =
        serde_json::from_str(r#"{"field3": "json_extra", "field2": 200, "field1": "json_value1"}"#).unwrap();
    let defaults: serde_json::Value = serde_json::from_str(r#"{"field1": "", "field2": 0}"#).unwrap();
    let metadata = merge_metadata(&["field1", "field2"]);
    let mut options = alphabetical();
    options.remove_orphans = true;
    let merged =
        ConfigValue::merge(ConfigValue::Json(stored), ConfigValue::Json(defaults), &metadata, &options).unwrap();
    match merged {
        ConfigValue::Json(v) => {
            let keys: Vec<&String> = v.as_object().unwrap().keys().collect();
            assert_eq!(keys, vec!["field1", "field2"]);
            assert_eq!(v["field1"], "json_value1");
        },
        _ => panic!("not JSON"),
    }
}

#[test]
fn toml_merge_keeps_stored_values_and_adds_missing_fields() {
    let stored: toml::Value = toml::from_str("field1 = \"value1\"\nfield2 = 100\nextra = 1\n").unwrap();
    let defaults: toml::Value = toml::from_str("field1 = \"\"\nfield2 = 0\nfield3 = false\n").unwrap();
    let metadata = merge_metadata(&["field1", "field2", "field3"]);
    let merged = ConfigValue::merge(
        ConfigValue::Toml(stored),
        ConfigValue::Toml(defaults),
        &metadata,
        &ConfigOptions::default(),
    )
    .unwrap();
    match merged {
        ConfigValue::Toml(v) => {
            let t = v.as_table().unwrap();
            let keys: Vec<&String> = t.keys().collect();
            assert_eq!(keys, vec!["field1", "field2", "extra", "field3"]);
            assert_eq!(t["field1"].as_str(), Some("value1"));
            assert_eq!(t["field2"].as_integer(), Some(100));
            assert_eq!(t["field3"].as_bool(), Some(false));
        },
        _ => panic!("not TOML"),
    }
}

#[test]
fn yaml_merge_keeps_stored_values_adds_missing_and_removes_orphans() {
    let stored: serde_yaml_bw::Value = serde_yaml_bw::from_str("field2: 300\nfield1: yaml_value1\nold: yaml_extra\n").unwrap();
    let defaults: serde_yaml_bw::Value = serde_yaml_bw::from_str("field1: ''\nfield2: 0\nfield3: false\n").unwrap();
    let metadata = merge_metadata(&["field1", "field2", "field3"]);
    let mut options = alphabetical();
    options.remove_orphans = true;
    let merged =
        ConfigValue::merge(ConfigValue::Yaml(stored), ConfigValue::Yaml(defaults), &metadata, &options).unwrap();
    match merged {
        ConfigValue::Yaml(v) => {
            let text = serde_yaml_bw::to_string(&v).unwrap();
            assert_eq!(text, "field1: yaml_value1\nfield2: 300\nfield3: false\n");
        },
        _ => panic!("not YAML"),
    }
}

#[test]
fn merge_of_different_formats_takes_the_defaults() {
    let stored: serde_json::Value = serde_json::from_str(r#"{"a": 1}"#).unwrap();
    let defaults: toml::Value = toml::from_str("a = 2\n").unwrap();
    let merged = ConfigValue::merge(
        ConfigValue::Json(stored),
        ConfigValue::Toml(defaults.clone()),
        &ConfigMetadata::default(),
        &ConfigOptions::default(),
    )
    .unwrap();
    match merged {
        ConfigValue::Toml(v) => assert_eq!(v, defaults),
        _ => panic!("not TOML"),
    }
}

#[test]
fn merge_with_a_non_object_takes_the_default() {
    let stored: serde_json::Value = serde_json::from_str("[1, 2]").unwrap();
    let defaults: serde_json::Value = serde_json::from_str(r#"{"a": 1}"#).unwrap();
    let merged = ConfigValue::merge(
        ConfigValue::Json(stored),
        ConfigValue::Json(defaults.clone()),
        &ConfigMetadata::default(),
        &ConfigOptions::default(),
    )
    .unwrap();
    match merged {
        ConfigValue::Json(v) => assert_eq!(v, defaults),
        _ => panic!("not JSON"),
    }
}

#[test]
fn reading_stored_documents() {
    let metadata = merge_metadata(&["a", "b"]);
    let defaults: serde_json::Value = serde_json::from_str(r#"{"a": 0, "b": 0}"#).unwrap();
    let merged = ConfigValue::read_merged(
        Format::Json,
        "{ a: 5, // stored\n }",
        ConfigValue::Json(defaults),
        &metadata,
        &ConfigOptions::default(),
    )
    .unwrap();
    match merged {
        ConfigValue::Json(v) => {
            assert_eq!(v["a"], 5);
            assert_eq!(v["b"], 0);
        },
        _ => panic!("not JSON"),
    }
}

#[test]
fn reading_broken_documents_fails_with_the_format_error() {
    let m = ConfigMetadata::default();
    let o = ConfigOptions::default();
    let j = ConfigValue::read_merged(Format::Json, "{", ConfigValue::Json(serde_json::Value::Null), &m, &o);
    assert!(matches!(j, Err(ConfigError::Jsonc(_))));
    let t = ConfigValue::read_merged(Format::Toml, "= =", ConfigValue::Json(serde_json::Value::Null), &m, &o);
    assert!(matches!(t, Err(ConfigError::TomlDe(_))));
    let y = ConfigValue::read_merged(Format::Yaml, "a: [1, 2", ConfigValue::Json(serde_json::Value::Null), &m, &o);
    assert!(matches!(y, Err(ConfigError::Yaml(_))));
}

#[test]
fn resolving_the_format_from_a_file_name() {
    assert_eq!(resolve_format_of(Some(Format::Json), Some(Some("a.toml"))).unwrap(), Format::Json);
    assert_eq!(resolve_format_of(None, None).unwrap(), Format::Toml);
    assert_eq!(resolve_format_of(None, Some(Some("a.yaml"))).unwrap(), Format::Yaml);
    assert!(matches!(
        resolve_format_of(None, Some(None)),
        Err(ConfigError::UnsupportedFormat(e)) if e == "Could not determine format from file extension"
    ));
    assert!(matches!(
        resolve_format_of(None, Some(Some("a.conf"))),
        Err(ConfigError::UnsupportedFormat(e)) if e == "Could not determine format from file extension"
    ));
}

#[test]
fn json_value_under_the_field_key_comes_first() {
    let mut metadata = ConfigMetadata::default();
    metadata.fields = vec![FieldMetadata::new("my_field")];
    let mut options = ConfigOptions::default();
    options.naming_strategy = NamingStrategy::CamelCase;
    let value: serde_json::Value = serde_json::from_str(r#"{"my_field": 1, "myField": 5}"#).unwrap();
    let out = json_format::to_string(value, &metadata, &options).unwrap();
    assert_eq!(out, "{\n  \"myField\": 5\n}\n");
}

#[test]
fn reading_a_stored_document_alone() {
    match ConfigValue::read(Format::Toml, "a = 1\n").unwrap() {
        ConfigValue::Toml(v) => assert_eq!(v.as_table().unwrap()["a"].as_integer(), Some(1)),
        _ => panic!("not TOML"),
    }
    assert!(matches!(ConfigValue::read(Format::Json, "{"), Err(ConfigError::Jsonc(_))));
}
