use okaeri_configs::entries::{find_key, insert_entry, shift_remove_entry};
use okaeri_configs::merge::{build_valid_keys, merge_entries};
use okaeri_configs::metadata::{ConfigMetadata, FieldMetadata};
use okaeri_configs::options::{ConfigOptions, NamingStrategy};
use okaeri_configs::order::FieldOrder;
use okaeri_configs::sorting::sort_entries;

fn entries(pairs: &[(&str, i32)]) -> Vec<(String, i32)> {
    pairs.iter().map(|(k, v)| (k.to_string(), *v)).collect()
}

#[test]
fn sorting_entries_by_field_order() {
    let e = entries(&[("b", 1), ("c", 2), ("a", 3)]);
    assert_eq!(sort_entries(e.clone(), FieldOrder::Declaration), e);
    assert_eq!(sort_entries(e.clone(), FieldOrder::Alphabetical), entries(&[("a", 3), ("b", 1), ("c", 2)]));
    assert_eq!(sort_entries(e, FieldOrder::AlphabeticalReverse), entries(&[("c", 2), ("b", 1), ("a", 3)]));
}

#[test]
fn sorting_is_stable_for_level_keys() {
    let e = entries(&[("k", 1), ("a", 0), ("k", 2)]);
    assert_eq!(sort_entries(e, FieldOrder::Alphabetical), entries(&[("a", 0), ("k", 1), ("k", 2)]));
}

#[test]
fn map_operations_on_entries() {
    let mut m = entries(&[("a", 1), ("b", 2), ("c", 3)]);
    assert_eq!(find_key(&m, "b"), Some(1));
    assert_eq!(find_key(&m, "z"), None);
    insert_entry(&mut m, "b".to_string(), 20);
    insert_entry(&mut m, "d".to_string(), 4);
    assert_eq!(m, entries(&[("a", 1), ("b", 20), ("c", 3), ("d", 4)]));
    assert_eq!(shift_remove_entry(&mut m, "b"), Some(20));
    assert_eq!(shift_remove_entry(&mut m, "b"), None);
    assert_eq!(m, entries(&[("a", 1), ("c", 3), ("d", 4)]));
}

fn metadata(fields: Vec<FieldMetadata>) -> ConfigMetadata {
    let mut m = ConfigMetadata::default();
    m.fields = fields;
    m
}

#[test]
fn valid_keys_follow_custom_keys_naming_and_exclusion() {
    let md = metadata(vec![
        FieldMetadata::new("user_name"),
        FieldMetadata::new("secret").with_exclude(true),
        FieldMetadata::new("age").with_key("years"),
    ]);
    let mut options = ConfigOptions::default();
    options.naming_strategy = NamingStrategy::PascalCase;
    let keys: Vec<String> = build_valid_keys(&md, &options).into_iter().map(|(k, _)| k).collect();
    assert_eq!(keys, vec!["UserName".to_string(), "years".to_string()]);
}

#[test]
fn merging_entries() {
    let md = metadata(vec![FieldMetadata::new("field1"), FieldMetadata::new("field2"), FieldMetadata::new("field3")]);
    let stored = entries(&[("field2", 200), ("orphan", 9), ("field1", 100)]);
    let defaults = entries(&[("field1", 0), ("field2", 0), ("field3", 0)]);

    let keep = merge_entries(stored.clone(), defaults.clone(), &md, &ConfigOptions::default());
    assert_eq!(keep, entries(&[("field2", 200), ("orphan", 9), ("field1", 100), ("field3", 0)]));

    let mut options = ConfigOptions::default();
    options.remove_orphans = true;
    options.field_order = FieldOrder::Alphabetical;
    let cleaned = merge_entries(stored, defaults, &md, &options);
    assert_eq!(cleaned, entries(&[("field1", 100), ("field2", 200), ("field3", 0)]));
}
