//! The errors of the library.

use vstd::prelude::*;

verus! {

/// `std::io::Error`, carried as it is.
#[verifier::external_type_specification]
#[verifier::external_body]
pub struct ExIoError(std::io::Error);

/// `serde_json::Error`, carried as it is.
#[verifier::external_type_specification]
#[verifier::external_body]
pub struct ExJsonError(serde_json::Error);

/// `json5::Error`, carried as it is.
#[verifier::external_type_specification]
#[verifier::external_body]
pub struct ExJson5Error(json5::Error);

/// `toml::de::Error`, carried as it is.
#[verifier::external_type_specification]
#[verifier::external_body]
pub struct ExTomlDeError(toml::de::Error);

/// `toml::ser::Error`, carried as it is.
#[verifier::external_type_specification]
#[verifier::external_body]
pub struct ExTomlSerError(toml::ser::Error);

/// `serde_yaml_bw::Error`, carried as it is.
#[verifier::external_type_specification]
#[verifier::external_body]
pub struct ExYamlError(serde_yaml_bw::Error);

/// Why an operation on a configuration failed.
#[derive(Debug)]
pub enum ConfigError {
    Io(std::io::Error),
    Serialization(String),
    Deserialization(String),
    UnsupportedFormat(String),
    EnvVar(String),
    Middleware(String),
    Path(String),
    Json(serde_json::Error),
    Jsonc(json5::Error),
    TomlDe(toml::de::Error),
    TomlSer(toml::ser::Error),
    Yaml(serde_yaml_bw::Error),
}

/// The result of an operation on a configuration.
pub type ConfigResult<T> = Result<T, ConfigError>;

} // verus!
