# okaeri_configs

Configuration files with comments, headers, key naming and ordering, in TOML,
JSON and YAML.

`src/` is the verified library. Every decision the library makes is a Verus
function with a contract:

- `options`, `order`: naming strategies (camelCase, PascalCase, snake_case,
  kebab-case, SCREAMING_SNAKE_CASE) and field orders;
- `metadata`: what a configuration type says of its fields;
- `common`, `render`: header and field comments, and where they are written in
  a rendered document;
- `keys`, `sorting`, `entries`: which key each field is written under and how
  the top-level entries of a document are renamed, filtered and ordered;
- `json_format`, `toml_format`, `yaml_format`: writing a document in each
  format;
- `merge`, `yaml_merge`, `config_value`: merging a stored document with a
  fresh default one;
- `format`: file formats and how a file name tells its format.

The calls into `serde_json`, `json5`, `toml` and `serde_yaml_bw` stand behind
small trusted wrappers whose contracts say what the crates' sources show.

`app/` holds what Verus does not see: the file-backed `ConfigManager`, the
`Config` and `ConfigMiddleware` traits, serde conversions of user types, and
the error type with its `std::error::Error` implementation.

Design notes:

- The top level of a document is held as an ordered list of key/value
  entries, a type of the library's own (`entries`); the trusted wrappers turn
  a `serde_json`, `toml` or `serde_yaml_bw` map into entries and back, one for
  one, and the map operations the library performs (find, insert in place or
  at the end, remove keeping order) are verified on that list. Comments are
  kept in `CommentMap`, a list with distinct keys, and the valid keys of a
  merge in a list, where a `HashMap` or `HashSet` would hold `String` keys
  that Verus cannot reason about.
- `FieldOrder` has no `Custom` variant: it would hold a function pointer,
  which Verus does not support, and `Ordering` cannot stand in a variant here.
- There is no `#[derive(Config)]` macro: a derive needs a procedural-macro
  crate. A configuration type implements `Config` (in `app/`) by hand, giving
  its metadata and applying its environment overrides in `apply_env`.
