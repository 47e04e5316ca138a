//! TOML: writing a configuration with comments and header, and merging
//! documents.

use vstd::prelude::*;

use crate::common::{binding_views, build_comment_map, comment_entries, format_header, header_text};
use crate::entries::keys_distinct;
use crate::error::ConfigError;
use crate::format::Format;
use crate::json_format::{bind_fields, bound_fields};
use crate::keys::{insert_all, arrange_entries, arranged, renaming};
use crate::metadata::{ConfigMetadata, MetadataView};
use crate::options::ConfigOptions;
use crate::render::{headed_document, render_headed};
use crate::sorting::ev;

verus! {

/// `toml::Value`, carried as it is.
#[verifier::external_type_specification]
#[verifier::external_body]
pub struct ExTomlValue(toml::Value);

/// The entries of the TOML value `v` when it is a table, in the map's order;
/// `None` when it is not a table.
pub uninterp spec fn toml_entries(v: toml::Value) -> Option<Seq<(Seq<char>, toml::Value)>>;

/// The text that `toml::to_string_pretty` writes for `v`; `None` when it
/// fails.
pub uninterp spec fn toml_pretty_text(v: toml::Value) -> Option<Seq<char>>;

/// Whether `toml::from_str` reads the text `content` as a TOML value.
pub uninterp spec fn toml_parses(content: Seq<char>) -> bool;

/// Whether `v` holds what `toml::from_str` reads from the text `content`.
pub uninterp spec fn toml_read_as(content: Seq<char>, v: toml::Value) -> bool;

/// `toml::from_str` into a `toml::Value`: succeeds exactly when the text
/// parses, with the value read from it.
#[verifier::external_body]
pub(crate) fn parse_toml(content: &str) -> (r: Result<toml::Value, toml::de::Error>)
    ensures
        match r {
            Ok(v) => toml_parses(content@) && toml_read_as(content@, v),
            Err(_) => !toml_parses(content@),
        },
{
    toml::from_str(content)
}

/// The entries of `v` when it is a table (`toml::Value::Table`), in the map's
/// order; `v` itself otherwise. The keys of a map are distinct.
#[verifier::external_body]
pub(crate) fn toml_table_entries(v: toml::Value) -> (r: Result<Vec<(String, toml::Value)>, toml::Value>)
    ensures
        match r {
            Ok(e) => toml_entries(v) == Some(ev(e@)) && keys_distinct(ev(e@)),
            Err(w) => toml_entries(v) is None && w == v,
        },
{
    match v {
        toml::Value::Table(map) => Ok(map.into_iter().collect()),
        other => Err(other),
    }
}

/// `toml::Value::Table` of a `toml::map::Map` into which `entries` are
/// inserted in order (`FromIterator`): a key met again keeps its place and
/// takes the later value.
#[verifier::external_body]
pub(crate) fn toml_table_from(entries: Vec<(String, toml::Value)>) -> (r: toml::Value)
    ensures
        toml_entries(r) == Some(insert_all(seq![], ev(entries@))),
{
    toml::Value::Table(entries.into_iter().collect())
}

/// `toml::to_string_pretty` of a value.
#[verifier::external_body]
pub(crate) fn toml_pretty(v: &toml::Value) -> (r: Result<String, toml::ser::Error>)
    ensures
        match r {
            Ok(s) => toml_pretty_text(*v) == Some(s@),
            Err(_) => toml_pretty_text(*v) is None,
        },
{
    toml::to_string_pretty(v)
}

/// The characters of `#`.
pub open spec fn hash_mark() -> Seq<char> {
    seq!['#']
}

/// What a TOML configuration is printed from, given the table `p` read back
/// from its text: when `p` is a table, a table `w` holding its entries renamed
/// and ordered for writing (see [`arranged`]), with the comments `cm` of
/// the renamed keys; otherwise `p` itself and no comments.
pub open spec fn toml_layout(
    p: toml::Value,
    md: MetadataView,
    options: ConfigOptions,
    w: toml::Value,
    cm: Seq<(Seq<char>, Seq<char>)>,
) -> bool {
    match toml_entries(p) {
        Some(es) => {
            &&& exists|arr: Seq<(Seq<char>, toml::Value)>|
                arranged(es, md.fields, options.naming_strategy, options.field_order, arr)
                && toml_entries(w) == Some(#[trigger] insert_all(seq![], arr))
            &&& cm == comment_entries(hash_mark(), bound_fields(
                renaming(es, md.fields, options.naming_strategy, es.len()).2,
                md.fields,
            ))
        },
        None => w == p && cm.len() == 0,
    }
}

/// Writes a configuration, given as the TOML text it serializes to, as a TOML
/// document: the text read back as a value, laid out for writing (see
/// [`toml_layout`]), pretty-printed below the header, with each renamed key's
/// comment as `# ` lines above the first line that mentions it. Reading the
/// text back and pretty-printing can fail.
pub fn to_string(toml_text: &str, metadata: &ConfigMetadata, options: &ConfigOptions) -> (r: Result<String, ConfigError>)
    ensures
        r matches Err(e) ==> e is TomlDe || e is TomlSer,
        (r matches Err(ConfigError::TomlDe(_))) <==> !toml_parses(toml_text@),
        toml_parses(toml_text@) ==> exists|p: toml::Value, w: toml::Value, cm: Seq<(Seq<char>, Seq<char>)>|
            toml_read_as(toml_text@, p) && #[trigger] toml_layout(p, metadata@, *options, w, cm) && match r {
                Ok(s) => toml_pretty_text(w) matches Some(t)
                    && s@ == headed_document(Format::Toml, t, header_text(hash_mark(), metadata@.struct_comments), cm),
                Err(_) => toml_pretty_text(w) is None,
            },
{
    let table = match parse_toml(toml_text) {
        Ok(t) => t,
        Err(e) => return Err(ConfigError::TomlDe(e)),
    };
    let ghost parsed = table;
    let (table, bindings) = match toml_table_entries(table) {
        Ok(entries) => {
            let ghost es = ev(entries@);
            let (arr, b) = arrange_entries(entries, metadata, options);
            assert(arranged(es, metadata@.fields, options.naming_strategy, options.field_order, ev(arr@)));
            (toml_table_from(arr), b)
        },
        Err(v) => (v, Vec::new()),
    };
    let key_to_field = bind_fields(metadata, &bindings);
    proof {
        reveal_strlit("#");
        assert("#"@ =~= hash_mark());
        if bindings@.len() == 0 {
            assert(binding_views(key_to_field@) =~= seq![]);
        }
    }
    let comments = build_comment_map(&key_to_field, "#");
    assert(toml_layout(parsed, metadata@, *options, table, comments@));
    let origin = match toml_pretty(&table) {
        Ok(s) => s,
        Err(e) => return Err(ConfigError::TomlSer(e)),
    };
    let header = format_header(metadata, "#");
    let rendered = match &header {
        Some(h) => render_headed(Format::Toml, origin.as_str(), Some(h.as_str()), &comments),
        None => render_headed(Format::Toml, origin.as_str(), None, &comments),
    };
    Ok(rendered)
}

} // verus!
