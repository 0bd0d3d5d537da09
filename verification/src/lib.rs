//! `dev.mcpg.catalog.builtin`: a config-driven catalog provider for the
//! MCPG gateway.
//!
//! Operators declare per-tool catalog metadata; the provider matches it
//! against `tools/list` results, dropping hidden tools and enriching the
//! rest with catalog annotations. It performs no I/O.

pub mod catalog;
pub mod config;
pub mod metadata;
pub mod text;
pub mod trust;

pub use catalog::{BuiltinCatalog, CatalogEntry, EnrichedToolDescriptor, PluginManifest, ToolDescriptor};
pub use config::{CatalogConfig, ConfigError, Defaults, ToolEntry, ToolMap};
pub use metadata::CatalogMetadata;
