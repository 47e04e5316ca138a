//! The file formats, and how a file's name tells its format.

use vstd::prelude::*;

use crate::error::ConfigError;
use crate::text::{chars_of, same_text, string_from_chars};

verus! {

/// A configuration file format.
#[derive(Debug, Clone, Copy, PartialEq, Eq, Structural)]
pub enum Format {
    Toml,
    Json,
    Yaml,
}

/// The characters of `toml`.
pub open spec fn toml_text() -> Seq<char> {
    seq!['t', 'o', 'm', 'l']
}

/// The characters of `json`.
pub open spec fn json_text() -> Seq<char> {
    seq!['j', 's', 'o', 'n']
}

/// The characters of `yaml`.
pub open spec fn yaml_text() -> Seq<char> {
    seq!['y', 'a', 'm', 'l']
}

/// The characters of `yml`.
pub open spec fn yml_text() -> Seq<char> {
    seq!['y', 'm', 'l']
}

impl Format {
    /// The file extension written for this format.
    pub open spec fn extension_text(self) -> Seq<char> {
        match self {
            Format::Toml => toml_text(),
            Format::Json => json_text(),
            Format::Yaml => yaml_text(),
        }
    }

    /// The file extension written for this format.
    pub fn extension(&self) -> (r: &'static str)
        ensures
            r@ == self.extension_text(),
    {
        match self {
            Format::Toml => {
                proof {
                    reveal_strlit("toml");
                }
                "toml"
            },
            Format::Json => {
                proof {
                    reveal_strlit("json");
                }
                "json"
            },
            Format::Yaml => {
                proof {
                    reveal_strlit("yaml");
                }
                "yaml"
            },
        }
    }

    /// The format used when nothing else decides: TOML.
    pub fn default() -> (r: Self)
        ensures
            r == Format::Toml,
    {
        Format::Toml
    }
}

/// The format that the file extension `ext` names: `toml`, `json`, and `yaml`
/// or `yml`.
pub open spec fn format_for_extension(ext: Seq<char>) -> Option<Format> {
    if ext == toml_text() {
        Some(Format::Toml)
    } else if ext == json_text() {
        Some(Format::Json)
    } else if ext == yaml_text() || ext == yml_text() {
        Some(Format::Yaml)
    } else {
        None
    }
}

/// The position of the last `.` among the first `n` characters of `s`, or -1.
pub open spec fn last_dot_upto(s: Seq<char>, n: nat) -> int
    decreases n,
{
    if n == 0 {
        -1
    } else if s[n - 1] == '.' {
        n - 1
    } else {
        last_dot_upto(s, (n - 1) as nat)
    }
}

/// The extension of the file name `name`, as `Path::extension` gives it: what
/// follows the last `.`; none when there is no `.`, or when the only `.` is the
/// name's first character.
pub open spec fn file_extension(name: Seq<char>) -> Option<Seq<char>> {
    let d = last_dot_upto(name, name.len());
    if d <= 0 {
        None
    } else {
        Some(name.skip(d + 1))
    }
}

proof fn lemma_no_dot_after(s: Seq<char>, n: nat, m: nat)
    requires
        m <= n <= s.len(),
        forall|i: int| m <= i < n ==> s[i] != '.',
    ensures
        last_dot_upto(s, n) == last_dot_upto(s, m),
    decreases n,
{
    if n > m {
        lemma_no_dot_after(s, (n - 1) as nat, m);
    }
}

/// A file named with the extension written for a format is read in that
/// format: `name.toml`, `name.json`, `name.yaml`, for any name that is not
/// empty.
pub proof fn lemma_extension_round_trip(f: Format, stem: Seq<char>)
    requires
        stem.len() > 0,
    ensures
        format_of_file_name(Some(stem + seq!['.'] + f.extension_text())) == Ok::<Format, Seq<char>>(f),
{
    let ext = f.extension_text();
    let s = stem + seq!['.'] + ext;
    let d: int = stem.len() as int;
    assert(s[d] == '.');
    assert forall|i: int| d + 1 <= i < s.len() implies s[i] != '.' by {
        assert(s[i] == ext[i - d - 1]);
    }
    lemma_no_dot_after(s, s.len(), (d + 1) as nat);
    assert(last_dot_upto(s, (d + 1) as nat) == d);
    assert(s.skip(d + 1) =~= ext);
    assert(file_extension(s) == Some(ext));
}

/// The extension of the file name `name` (see [`file_extension`]).
pub fn extension_of(name: &str) -> (r: Option<String>)
    ensures
        match r {
            Some(e) => file_extension(name@) == Some(e@),
            None => file_extension(name@) is None,
        },
{
    let cs = chars_of(name);
    let mut n = cs.len();
    while n > 0 && cs[n - 1] != '.'
        invariant
            n <= cs.len(),
            cs@ == name@,
            last_dot_upto(name@, name@.len()) == last_dot_upto(name@, n as nat),
        decreases n,
    {
        n = n - 1;
    }
    if n <= 1 {
        return None;
    }
    let mut e: Vec<char> = Vec::new();
    let mut i = n;
    while i < cs.len()
        invariant
            n <= i <= cs.len(),
            cs@ == name@,
            e@ == name@.subrange(n as int, i as int),
        decreases cs.len() - i,
    {
        e.push(cs[i]);
        i = i + 1;
        assert(e@ == name@.subrange(n as int, i as int));
    }
    assert(name@.skip(n as int) == name@.subrange(n as int, name@.len() as int));
    Some(string_from_chars(e.as_slice()))
}

/// The format that the extension `ext` names, if any.
pub fn format_for(ext: &str) -> (r: Option<Format>)
    ensures
        r == format_for_extension(ext@),
{
    proof {
        reveal_strlit("toml");
        reveal_strlit("json");
        reveal_strlit("yaml");
        reveal_strlit("yml");
        assert("toml"@ =~= toml_text());
        assert("json"@ =~= json_text());
        assert("yaml"@ =~= yaml_text());
        assert("yml"@ =~= yml_text());
    }
    if same_text(ext, "toml") {
        Some(Format::Toml)
    } else if same_text(ext, "json") {
        Some(Format::Json)
    } else if same_text(ext, "yaml") || same_text(ext, "yml") {
        Some(Format::Yaml)
    } else {
        None
    }
}

/// The format of a file whose name is `file_name` (none: the path has no file
/// name). Unsupported: the extension when there is one, else the file name, or
/// nothing without one.
pub open spec fn format_of_file_name(file_name: Option<Seq<char>>) -> Result<Format, Seq<char>> {
    match file_name {
        Some(n) => match file_extension(n) {
            Some(e) => match format_for_extension(e) {
                Some(f) => Ok(f),
                None => Err(e),
            },
            None => Err(n),
        },
        None => Err(seq![]),
    }
}

/// Whether `r` is what [`format_of_file_name`] tells: the format, or an
/// `UnsupportedFormat` error with the text it gives.
pub open spec fn format_result_is(r: Result<Format, ConfigError>, expected: Result<Format, Seq<char>>) -> bool {
    match expected {
        Ok(f) => r == Ok::<Format, ConfigError>(f),
        Err(t) => r matches Err(ConfigError::UnsupportedFormat(s)) && s@ == t,
    }
}

/// The format of a file named `file_name`, from its extension.
pub fn format_from_file_name(file_name: Option<&str>) -> (r: Result<Format, ConfigError>)
    ensures
        format_result_is(r, format_of_file_name(
            match file_name {
                Some(n) => Some(n@),
                None => None,
            },
        )),
{
    match file_name {
        Some(n) => match extension_of(n) {
            Some(e) => match format_for(e.as_str()) {
                Some(f) => Ok(f),
                None => Err(ConfigError::UnsupportedFormat(e)),
            },
            None => Err(ConfigError::UnsupportedFormat(n.to_string())),
        },
        None => Err(ConfigError::UnsupportedFormat(String::new())),
    }
}


/// The last component of the path `path` that `Path::file_name` gives, as
/// text (`OsStr::to_string_lossy`), under the path syntax of the platform the
/// library is built for; `None` when the path has none.
pub uninterp spec fn file_name_of(path: Seq<char>) -> Option<Seq<char>>;

/// `Path::file_name` of `path`, as text.
#[verifier::external_body]
fn path_file_name(path: &str) -> (r: Option<String>)
    ensures
        match r {
            Some(n) => file_name_of(path@) == Some(n@),
            None => file_name_of(path@) is None,
        },
{
    std::path::Path::new(path).file_name().map(|n| n.to_string_lossy().into_owned())
}

/// The format of the file at `path`, from the extension of its file name
/// (see [`file_name_of`] and [`format_of_file_name`]).
pub fn format_from_path(path: &str) -> (r: Result<Format, ConfigError>)
    ensures
        format_result_is(r, format_of_file_name(file_name_of(path@))),
{
    let name = path_file_name(path);
    match &name {
        Some(n) => format_from_file_name(Some(n.as_str())),
        None => format_from_file_name(None),
    }
}

/// The text of the error when a path's extension names no format.
pub open spec fn undetermined_text() -> Seq<char> {
    "Could not determine format from file extension"@
}

/// The format of a configuration: `given` if any; else, for a path whose file
/// name is `file_name`, the format that the name's extension names (failing
/// with [`undetermined_text`] when there is none); else, without a path, TOML.
pub open spec fn resolved_format(given: Option<Format>, file_name: Option<Option<Seq<char>>>) -> Result<Format, Seq<char>> {
    match given {
        Some(f) => Ok(f),
        None => match file_name {
            None => Ok(Format::Toml),
            Some(name) => match format_of_file_name(name) {
                Ok(f) => Ok(f),
                Err(_) => Err(undetermined_text()),
            },
        },
    }
}

/// The format of a configuration, given the file name of its path when it has
/// a path (see [`resolved_format`]).
pub fn resolve_format_of(given: Option<Format>, file_name: Option<Option<&str>>) -> (r: Result<Format, ConfigError>)
    ensures
        format_result_is(r, resolved_format(given, match file_name {
            Some(Some(n)) => Some(Some(n@)),
            Some(None) => Some(None),
            None => None,
        })),
{
    match given {
        Some(f) => Ok(f),
        None => match file_name {
            None => Ok(Format::default()),
            Some(name) => match format_from_file_name(name) {
                Ok(f) => Ok(f),
                Err(_) => {
                    let msg = "Could not determine format from file extension";
                    proof {
                        reveal_strlit("Could not determine format from file extension");
                    }
                    Err(ConfigError::UnsupportedFormat(msg.to_string()))
                },
            },
        },
    }
}

/// The format of a configuration: `given` if any; else, with a path, the format
/// that its file name's extension names (an `UnsupportedFormat` error when that
/// fails); else TOML (see [`resolved_format`] and [`file_name_of`]).
pub fn resolve_format(given: Option<Format>, path: Option<&str>) -> (r: Result<Format, ConfigError>)
    ensures
        format_result_is(r, resolved_format(given, match path {
            Some(p) => Some(file_name_of(p@)),
            None => None,
        })),
{
    match path {
        None => resolve_format_of(given, None),
        Some(p) => {
            let name = path_file_name(p);
            match &name {
                Some(n) => resolve_format_of(given, Some(Some(n.as_str()))),
                None => resolve_format_of(given, Some(None)),
            }
        },
    }
}

} // verus!
