//! Configuration files with comments, headers, key naming and ordering,
//! in TOML, JSON and YAML.
//!
//! The verified core of the library: how field names become keys, how keys
//! are ordered, how comments and headers are laid out in the rendered text,
//! and how a stored document is merged with a fresh default one.

pub mod text;
pub mod options;
pub mod order;
pub mod sorting;
pub mod metadata;
pub mod common;
pub mod entries;
pub mod keys;
pub mod merge;
pub mod render;
pub mod json_format;
pub mod toml_format;
pub mod yaml_format;
pub mod yaml_merge;
pub mod error;
pub mod format;
pub mod config_value;
