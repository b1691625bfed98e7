//! Configuration aggregation and version-resolution engine for a polyglot
//! runtime-version manager.
//!
//! The crate discovers candidate configuration sources, parses the flat
//! `.tool-versions` format (round-trip preserving), folds configuration
//! fragments into a [`toolset::Toolset`] under a strict precedence order,
//! resolves settings and aliases, and turns symbolic version requests into
//! concrete versions against a plugin's listed versions.

pub mod cli;
pub mod config;
pub mod error;
pub mod file;
pub mod kv;
pub mod lines;
pub mod node;
pub mod pad;
pub mod plugins;
pub mod roundtrip;
pub mod settings;
pub mod strutil;
pub mod tool_versions;
pub mod toolset;
pub mod tracking;
pub mod version;
