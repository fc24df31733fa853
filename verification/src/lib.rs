//! Icon registry generation and fallback dispatch.
//!
//! A catalogue of named vector-icon fragments is turned into a registry of
//! unique, grammar-safe identifiers, and arbitrary names are resolved to
//! content through a three-tier chain: catalogue, bundled fallback set,
//! placeholder.

pub mod text;
pub mod ident;
pub mod catalogue;
pub mod content;
pub mod registry;
pub mod config;
