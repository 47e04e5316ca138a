//! A configuration document as a value of its format, and how a stored
//! document is read and merged with a fresh default one.

use vstd::prelude::*;

use crate::entries::keys_distinct;
use crate::error::{ConfigError, ConfigResult};
use crate::format::Format;
use crate::json_format::{json5_parses, json5_read_as, json_entries, json_object_entries, json_object_from, parse_json5};
use crate::keys::insert_all;
use crate::merge::{keeps_stored, lemma_insert_all_distinct, lemma_merge_keeps_stored, merge_entries, merged_unordered};
use crate::metadata::{ConfigMetadata, FieldView};
use crate::options::ConfigOptions;
use crate::sorting::sorted_version;
use crate::toml_format::{parse_toml, toml_entries, toml_parses, toml_read_as, toml_table_entries, toml_table_from};
use crate::yaml_format::{mapping_of, parse_yaml, yaml_built, yaml_mapping, yaml_mapping_parts, yaml_parses, yaml_read_as};
use crate::yaml_merge::{
    all_plain, lemma_yaml_built_plain, lemma_yaml_merge_keeps_stored, lemma_yaml_merged_plain, plain_equality, plain_keyed, plain_text,
    yaml_merge_entries, yaml_merged_unordered, yaml_ordered,
};

verus! {

/// A configuration document, as a value of its format.
pub enum ConfigValue {
    Json(serde_json::Value),
    Toml(toml::Value),
    Yaml(serde_yaml_bw::Value),
}

/// Whether `r` is the merge of the stored JSON value `o` and the default `n`:
/// when both are objects, an object holding their entries merged (see
/// [`merged_unordered`]) and sorted by the field order; otherwise `n`.
pub open spec fn json_merged(
    o: serde_json::Value,
    n: serde_json::Value,
    fields: Seq<FieldView>,
    options: ConfigOptions,
    r: serde_json::Value,
) -> bool {
    match (json_entries(o), json_entries(n)) {
        (Some(so), Some(sn)) => exists|m: Seq<(Seq<char>, serde_json::Value)>|
            sorted_version(options.field_order, merged_unordered(so, sn, fields, options), m)
            && json_entries(r) == Some(#[trigger] insert_all(seq![], m)),
        _ => r == n,
    }
}

/// Whether `r` is the merge of the stored TOML value `o` and the default `n`:
/// when both are tables, a table holding their entries merged (see
/// [`merged_unordered`]) and sorted by the field order; otherwise `n`.
pub open spec fn toml_merged(
    o: toml::Value,
    n: toml::Value,
    fields: Seq<FieldView>,
    options: ConfigOptions,
    r: toml::Value,
) -> bool {
    match (toml_entries(o), toml_entries(n)) {
        (Some(so), Some(sn)) => exists|m: Seq<(Seq<char>, toml::Value)>|
            sorted_version(options.field_order, merged_unordered(so, sn, fields, options), m)
            && toml_entries(r) == Some(#[trigger] insert_all(seq![], m)),
        _ => r == n,
    }
}

/// Whether `r` is the merge of the stored YAML value `o` and the default `n`:
/// when both are mappings, a mapping without anchor built from their entries
/// merged (see [`yaml_merged_unordered`]) and ordered (see [`yaml_ordered`]);
/// otherwise `n`.
pub open spec fn yaml_merged(
    o: serde_yaml_bw::Value,
    n: serde_yaml_bw::Value,
    fields: Seq<FieldView>,
    options: ConfigOptions,
    r: serde_yaml_bw::Value,
) -> bool {
    match (yaml_mapping(o), yaml_mapping(n)) {
        (Some(po), Some(pn)) => exists|m: Seq<(serde_yaml_bw::Value, serde_yaml_bw::Value)>|
            #[trigger] yaml_ordered(options.field_order, yaml_merged_unordered(po.1, pn.1, fields, options), m)
            && yaml_mapping(r) is Some && yaml_mapping(r).unwrap().0 is None
            && yaml_built(m, yaml_mapping(r).unwrap().1),
        _ => r == n,
    }
}

/// Whether `r` is the merge of the stored document `old` and the default
/// `new`: of the same format, merged as that format merges; of different
/// formats, `new`.
pub open spec fn config_merged(old: ConfigValue, new: ConfigValue, fields: Seq<FieldView>, options: ConfigOptions, r: ConfigValue) -> bool {
    match (old, new) {
        (ConfigValue::Json(o), ConfigValue::Json(n)) => r matches ConfigValue::Json(v) && json_merged(o, n, fields, options, v),
        (ConfigValue::Toml(o), ConfigValue::Toml(n)) => r matches ConfigValue::Toml(v) && toml_merged(o, n, fields, options, v),
        (ConfigValue::Yaml(o), ConfigValue::Yaml(n)) => r matches ConfigValue::Yaml(v) && yaml_merged(o, n, fields, options, v),
        _ => r == new,
    }
}

/// Whether the text `content` reads as a document of `format` (JSON as
/// JSON5).
pub open spec fn parses(format: Format, content: Seq<char>) -> bool {
    match format {
        Format::Json => json5_parses(content),
        Format::Toml => toml_parses(content),
        Format::Yaml => yaml_parses(content),
    }
}

/// Whether `v` is a document of `format` holding what is read from the text
/// `content`.
pub open spec fn read_as(format: Format, content: Seq<char>, v: ConfigValue) -> bool {
    match (format, v) {
        (Format::Json, ConfigValue::Json(x)) => json5_read_as(content, x),
        (Format::Toml, ConfigValue::Toml(x)) => toml_read_as(content, x),
        (Format::Yaml, ConfigValue::Yaml(x)) => yaml_read_as(content, x),
        _ => false,
    }
}

/// Whether `e` is the error that reading a document of `format` fails with.
pub open spec fn read_error(format: Format, e: ConfigError) -> bool {
    match format {
        Format::Json => e is Jsonc,
        Format::Toml => e is TomlDe,
        Format::Yaml => e is Yaml,
    }
}

/// Merging stored and default JSON objects keeps what is stored (see
/// [`keeps_stored`]): in the merged object stored values win, keys missing
/// from the store are added with their defaults, and with `remove_orphans`
/// only the keys that fields are written under stay.
pub proof fn lemma_json_merge_keeps_stored(
    o: serde_json::Value,
    n: serde_json::Value,
    fields: Seq<FieldView>,
    options: ConfigOptions,
    r: serde_json::Value,
)
    requires
        json_entries(o) is Some,
        json_entries(n) is Some,
        keys_distinct(json_entries(o).unwrap()),
        keys_distinct(json_entries(n).unwrap()),
        json_merged(o, n, fields, options, r),
    ensures
        json_entries(r) is Some,
        keeps_stored(json_entries(o).unwrap(), json_entries(n).unwrap(), fields, options, json_entries(r).unwrap()),
{
    let (so, sn) = (json_entries(o).unwrap(), json_entries(n).unwrap());
    let m = choose|m: Seq<(Seq<char>, serde_json::Value)>|
        sorted_version(options.field_order, merged_unordered(so, sn, fields, options), m)
        && json_entries(r) == Some(#[trigger] insert_all(seq![], m));
    lemma_merge_keeps_stored(so, sn, fields, options, m);
    lemma_insert_all_distinct(m);
}

/// Merging stored and default TOML tables keeps what is stored (see
/// [`keeps_stored`]).
pub proof fn lemma_toml_merge_keeps_stored(
    o: toml::Value,
    n: toml::Value,
    fields: Seq<FieldView>,
    options: ConfigOptions,
    r: toml::Value,
)
    requires
        toml_entries(o) is Some,
        toml_entries(n) is Some,
        keys_distinct(toml_entries(o).unwrap()),
        keys_distinct(toml_entries(n).unwrap()),
        toml_merged(o, n, fields, options, r),
    ensures
        toml_entries(r) is Some,
        keeps_stored(toml_entries(o).unwrap(), toml_entries(n).unwrap(), fields, options, toml_entries(r).unwrap()),
{
    let (so, sn) = (toml_entries(o).unwrap(), toml_entries(n).unwrap());
    let m = choose|m: Seq<(Seq<char>, toml::Value)>|
        sorted_version(options.field_order, merged_unordered(so, sn, fields, options), m)
        && toml_entries(r) == Some(#[trigger] insert_all(seq![], m));
    lemma_merge_keeps_stored(so, sn, fields, options, m);
    lemma_insert_all_distinct(m);
}

/// Merging stored and default YAML mappings keeps what is stored (see
/// [`keeps_stored`]) when every key is a string without anchor, each text once
/// in each mapping: taking each entry of the merged mapping under its key's
/// text, stored values win, keys missing from the store are added with their
/// defaults, and with `remove_orphans` only the keys that fields are written
/// under stay. This rests on YAML strings without anchor being equal exactly
/// when their texts are ([`plain_equality`]).
pub proof fn lemma_yaml_value_merge_keeps_stored(
    o: serde_yaml_bw::Value,
    n: serde_yaml_bw::Value,
    fields: Seq<FieldView>,
    options: ConfigOptions,
    r: serde_yaml_bw::Value,
)
    requires
        plain_equality(),
        yaml_mapping(o) is Some,
        yaml_mapping(n) is Some,
        all_plain(yaml_mapping(o).unwrap().1),
        all_plain(yaml_mapping(n).unwrap().1),
        keys_distinct(plain_keyed(yaml_mapping(o).unwrap().1)),
        keys_distinct(plain_keyed(yaml_mapping(n).unwrap().1)),
        yaml_merged(o, n, fields, options, r),
    ensures
        yaml_mapping(r) is Some,
        keeps_stored(
            plain_keyed(yaml_mapping(o).unwrap().1),
            plain_keyed(yaml_mapping(n).unwrap().1),
            fields,
            options,
            plain_keyed(yaml_mapping(r).unwrap().1),
        ),
{
    let (so, sn) = (yaml_mapping(o).unwrap().1, yaml_mapping(n).unwrap().1);
    let m = choose|m: Seq<(serde_yaml_bw::Value, serde_yaml_bw::Value)>|
        #[trigger] yaml_ordered(options.field_order, yaml_merged_unordered(so, sn, fields, options), m)
        && yaml_mapping(r) is Some && yaml_mapping(r).unwrap().0 is None
        && yaml_built(m, yaml_mapping(r).unwrap().1);
    lemma_yaml_merge_keeps_stored(so, sn, fields, options, m);
    let u = yaml_merged_unordered(so, sn, fields, options);
    lemma_yaml_merged_plain(so, sn, fields, options);
    assert(all_plain(m)) by {
        broadcast use vstd::seq_lib::group_to_multiset_ensures;
        assert forall|j: int| 0 <= j < m.len() implies (#[trigger] plain_text(m[j].0)) is Some by {
            let x = plain_keyed(m)[j];
            assert(plain_keyed(m).contains(x));
            assert(plain_keyed(m).to_multiset().count(x) > 0);
            assert(plain_keyed(u).contains(x));
            let a = choose|a: int| 0 <= a < plain_keyed(u).len() && plain_keyed(u)[a] == x;
            assert(plain_text(u[a].0) is Some);
        }
    }
    lemma_yaml_built_plain(m, yaml_mapping(r).unwrap().1);
}

fn merge_json(o: serde_json::Value, n: serde_json::Value, metadata: &ConfigMetadata, options: &ConfigOptions) -> (r: serde_json::Value)
    ensures
        json_merged(o, n, metadata@.fields, *options, r),
{
    match json_object_entries(o) {
        Ok(so) => match json_object_entries(n) {
            Ok(sn) => {
                let m = merge_entries(so, sn, metadata, options);
                json_object_from(m)
            },
            Err(w) => w,
        },
        Err(_) => n,
    }
}

fn merge_toml(o: toml::Value, n: toml::Value, metadata: &ConfigMetadata, options: &ConfigOptions) -> (r: toml::Value)
    ensures
        toml_merged(o, n, metadata@.fields, *options, r),
{
    match toml_table_entries(o) {
        Ok(so) => match toml_table_entries(n) {
            Ok(sn) => {
                let m = merge_entries(so, sn, metadata, options);
                toml_table_from(m)
            },
            Err(w) => w,
        },
        Err(_) => n,
    }
}

fn merge_yaml(o: serde_yaml_bw::Value, n: serde_yaml_bw::Value, metadata: &ConfigMetadata, options: &ConfigOptions) -> (r: serde_yaml_bw::Value)
    ensures
        yaml_merged(o, n, metadata@.fields, *options, r),
{
    let ghost (go, gn) = (o, n);
    match yaml_mapping_parts(o) {
        Ok((_, so)) => match yaml_mapping_parts(n) {
            Ok((_, sn)) => {
                let ghost (gs, gd) = (so@, sn@);
                let m = yaml_merge_entries(so, sn, metadata, options);
                let ghost gm = m@;
                let r = mapping_of(m);
                assert(yaml_mapping(go).unwrap().1 == gs && yaml_mapping(gn).unwrap().1 == gd);
                assert(yaml_ordered(options.field_order, yaml_merged_unordered(gs, gd, metadata@.fields, *options), gm));
                r
            },
            Err(w) => w,
        },
        Err(_) => n,
    }
}

impl ConfigValue {
    /// Merges the default document `new` into the stored document `old` (see
    /// [`config_merged`]): stored values win, keys missing from the store are
    /// added with their defaults, stale keys go when `remove_orphans` holds,
    /// and the keys are ordered. Never fails.
    pub fn merge(old: Self, new: Self, metadata: &ConfigMetadata, options: &ConfigOptions) -> (r: ConfigResult<Self>)
        ensures
            r matches Ok(v) && config_merged(old, new, metadata@.fields, *options, v),
    {
        match (old, new) {
            (ConfigValue::Json(o), ConfigValue::Json(n)) => Ok(ConfigValue::Json(merge_json(o, n, metadata, options))),
            (ConfigValue::Toml(o), ConfigValue::Toml(n)) => Ok(ConfigValue::Toml(merge_toml(o, n, metadata, options))),
            (ConfigValue::Yaml(o), ConfigValue::Yaml(n)) => Ok(ConfigValue::Yaml(merge_yaml(o, n, metadata, options))),
            (_, n) => Ok(n),
        }
    }

    /// Reads the stored document `content` in `format` (JSON as JSON5). Fails
    /// exactly when the content does not read as that format, with that
    /// format's error.
    pub fn read(format: Format, content: &str) -> (r: ConfigResult<Self>)
        ensures
            match r {
                Ok(v) => parses(format, content@) && read_as(format, content@, v),
                Err(e) => !parses(format, content@) && read_error(format, e),
            },
    {
        match format {
            Format::Json => match parse_json5(content) {
                Ok(v) => Ok(ConfigValue::Json(v)),
                Err(e) => Err(ConfigError::Jsonc(e)),
            },
            Format::Toml => match parse_toml(content) {
                Ok(v) => Ok(ConfigValue::Toml(v)),
                Err(e) => Err(ConfigError::TomlDe(e)),
            },
            Format::Yaml => match parse_yaml(content) {
                Ok(v) => Ok(ConfigValue::Yaml(v)),
                Err(e) => Err(ConfigError::Yaml(e)),
            },
        }
    }

    /// Reads the stored document `content` in `format` (see [`Self::read`])
    /// and merges the default document `defaults` into it (see
    /// [`Self::merge`]). Fails exactly when the content does not read as that
    /// format, with that format's error.
    pub fn read_merged(
        format: Format,
        content: &str,
        defaults: Self,
        metadata: &ConfigMetadata,
        options: &ConfigOptions,
    ) -> (r: ConfigResult<Self>)
        ensures
            match r {
                Ok(v) => parses(format, content@) && exists|stored: ConfigValue|
                    read_as(format, content@, stored) && #[trigger] config_merged(stored, defaults, metadata@.fields, *options, v),
                Err(e) => !parses(format, content@) && read_error(format, e),
            },
    {
        let stored = match Self::read(format, content) {
            Ok(v) => v,
            Err(e) => return Err(e),
        };
        let ghost s = stored;
        let r = Self::merge(stored, defaults, metadata, options);
        assert(read_as(format, content@, s));
        r
    }
}

} // verus!
