//! JSON: writing a configuration with comments and header, reading it as
//! JSON5, and merging documents.

use vstd::prelude::*;

use crate::common::{binding_views, build_comment_map, comment_entries, format_header, header_text};
use crate::entries::keys_distinct;
use crate::error::ConfigError;
use crate::keys::{declared_bindings, insert_all, json_arrange, json_arranged};
use crate::metadata::{ConfigMetadata, FieldMetadata, FieldView, MetadataView};
use crate::options::ConfigOptions;
use crate::render::{json_document, render_json};
use crate::sorting::ev;

verus! {

/// `serde_json::Value`, carried as it is.
#[verifier::external_type_specification]
#[verifier::external_body]
pub struct ExJsonValue(serde_json::Value);

/// The entries of the JSON value `v` when it is an object, in the map's order;
/// `None` when it is not an object.
pub uninterp spec fn json_entries(v: serde_json::Value) -> Option<Seq<(Seq<char>, serde_json::Value)>>;

/// The text that `serde_json::to_string_pretty` writes for `v`; `None` when it
/// fails.
pub uninterp spec fn json_pretty_text(v: serde_json::Value) -> Option<Seq<char>>;

/// The entries of `v` when it is an object (`serde_json::Value::Object`), in
/// the map's order; `v` itself otherwise. The keys of a map are distinct.
#[verifier::external_body]
pub(crate) fn json_object_entries(v: serde_json::Value) -> (r: Result<Vec<(String, serde_json::Value)>, serde_json::Value>)
    ensures
        match r {
            Ok(e) => json_entries(v) == Some(ev(e@)) && keys_distinct(ev(e@)),
            Err(w) => json_entries(v) is None && w == v,
        },
{
    match v {
        serde_json::Value::Object(map) => Ok(map.into_iter().collect()),
        other => Err(other),
    }
}

/// `serde_json::Value::Object` of a `serde_json::Map` into which `entries`
/// are inserted in order (`FromIterator`): a key met again keeps its place and
/// takes the later value.
#[verifier::external_body]
pub(crate) fn json_object_from(entries: Vec<(String, serde_json::Value)>) -> (r: serde_json::Value)
    ensures
        json_entries(r) == Some(insert_all(seq![], ev(entries@))),
{
    serde_json::Value::Object(entries.into_iter().collect())
}

/// `serde_json::to_string_pretty` of a value.
#[verifier::external_body]
pub(crate) fn json_pretty(v: &serde_json::Value) -> (r: Result<String, serde_json::Error>)
    ensures
        match r {
            Ok(s) => json_pretty_text(*v) == Some(s@),
            Err(_) => json_pretty_text(*v) is None,
        },
{
    serde_json::to_string_pretty(v)
}

/// Whether `json5::from_str` reads the text `content` as a JSON value.
pub uninterp spec fn json5_parses(content: Seq<char>) -> bool;

/// Whether `v` holds what `json5::from_str` reads from the text `content`.
pub uninterp spec fn json5_read_as(content: Seq<char>, v: serde_json::Value) -> bool;

/// `json5::from_str` into a `serde_json::Value`: succeeds exactly when the
/// text parses, with the value read from it.
#[verifier::external_body]
pub(crate) fn parse_json5(content: &str) -> (r: Result<serde_json::Value, json5::Error>)
    ensures
        match r {
            Ok(v) => json5_parses(content@) && json5_read_as(content@, v),
            Err(_) => !json5_parses(content@),
        },
{
    json5::from_str(content)
}

/// The fields that the bindings `b` point at, each with its key.
pub open spec fn bound_fields(b: Seq<(Seq<char>, usize)>, fields: Seq<FieldView>) -> Seq<(Seq<char>, FieldView)> {
    b.map_values(|e: (Seq<char>, usize)| (e.0, fields[e.1 as int]))
}

/// Each binding of `bindings` with the field it points at in `metadata`.
pub fn bind_fields<'a>(metadata: &'a ConfigMetadata, bindings: &Vec<(String, usize)>) -> (r: Vec<(String, &'a FieldMetadata)>)
    requires
        forall|j: int| 0 <= j < bindings@.len() ==> #[trigger] bindings@[j].1 < metadata@.fields.len(),
    ensures
        binding_views(r@) == bound_fields(ev(bindings@), metadata@.fields),
{
    let mut r: Vec<(String, &'a FieldMetadata)> = Vec::new();
    let mut i: usize = 0;
    while i < bindings.len()
        invariant
            i <= bindings@.len(),
            forall|j: int| 0 <= j < bindings@.len() ==> #[trigger] bindings@[j].1 < metadata@.fields.len(),
            binding_views(r@) == bound_fields(ev(bindings@), metadata@.fields).take(i as int),
        decreases bindings.len() - i,
    {
        let idx = bindings[i].1;
        let f: &'a FieldMetadata = &metadata.fields[idx];
        assert(metadata@.fields[idx as int] == f@);
        let ghost rb = binding_views(r@);
        let k = bindings[i].0.clone();
        let ghost kv = k@;
        r.push((k, f));
        assert(binding_views(r@) =~= rb.push((kv, f@)));
        assert(bound_fields(ev(bindings@), metadata@.fields).take(i + 1) =~= bound_fields(ev(bindings@), metadata@.fields).take(i as int).push((kv, f@)));
        i = i + 1;
    }
    assert(bound_fields(ev(bindings@), metadata@.fields).take(bindings.len() as int) =~= bound_fields(ev(bindings@), metadata@.fields));
    r
}

/// The characters of `//`.
pub open spec fn slashes() -> Seq<char> {
    seq!['/', '/']
}

/// What a JSON configuration is printed from: when `value` is an object, an
/// object `w` holding the values of the fields not left out under their keys
/// (see [`json_arranged`]), with the comments `cm` of those keys; otherwise
/// `value` itself and no comments.
pub open spec fn json_layout(
    value: serde_json::Value,
    md: MetadataView,
    options: ConfigOptions,
    w: serde_json::Value,
    cm: Seq<(Seq<char>, Seq<char>)>,
) -> bool {
    match json_entries(value) {
        Some(es) => {
            &&& exists|arr: Seq<(Seq<char>, serde_json::Value)>|
                json_arranged(es, md.fields, options.naming_strategy, options.field_order, arr)
                && json_entries(w) == Some(#[trigger] insert_all(seq![], arr))
            &&& cm == comment_entries(slashes(), bound_fields(
                declared_bindings(md.fields, options.naming_strategy, md.fields.len()),
                md.fields,
            ))
        },
        None => w == value && cm.len() == 0,
    }
}

/// Writes a configuration, given as the JSON value it serializes to, as a JSON
/// document: the value laid out for writing (see [`json_layout`]),
/// pretty-printed, with each written key's comment as `// ` lines above the
/// first line that mentions it, and the header's comment lines at the top.
/// Only pretty-printing can fail.
pub fn to_string(value: serde_json::Value, metadata: &ConfigMetadata, options: &ConfigOptions) -> (r: Result<String, ConfigError>)
    ensures
        exists|w: serde_json::Value, cm: Seq<(Seq<char>, Seq<char>)>|
            #[trigger] json_layout(value, metadata@, *options, w, cm) && match r {
                Ok(s) => json_pretty_text(w) matches Some(t)
                    && s@ == json_document(t, header_text(slashes(), metadata@.struct_comments), cm),
                Err(e) => e is Json && json_pretty_text(w) is None,
            },
{
    let ghost orig = value;
    let (value, bindings) = match json_object_entries(value) {
        Ok(entries) => {
            let ghost es = ev(entries@);
            let (arr, b) = json_arrange(entries, metadata, options);
            assert(json_arranged(es, metadata@.fields, options.naming_strategy, options.field_order, ev(arr@)));
            (json_object_from(arr), b)
        },
        Err(v) => (v, Vec::new()),
    };
    let key_to_field = bind_fields(metadata, &bindings);
    proof {
        reveal_strlit("//");
        assert("//"@ =~= slashes());
        if bindings@.len() == 0 {
            assert(binding_views(key_to_field@) =~= seq![]);
        }
    }
    let comments = build_comment_map(&key_to_field, "//");
    assert(json_layout(orig, metadata@, *options, value, comments@));
    let json_str = match json_pretty(&value) {
        Ok(s) => s,
        Err(e) => return Err(ConfigError::Json(e)),
    };
    let header = format_header(metadata, "//");
    let rendered = match &header {
        Some(h) => render_json(json_str.as_str(), Some(h.as_str()), &comments),
        None => render_json(json_str.as_str(), None, &comments),
    };
    Ok(rendered)
}

} // verus!
