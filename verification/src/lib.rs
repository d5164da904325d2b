//! A site template assembler: merges HTML fragments that reference each
//! other through a small templating language, with JSON-driven bindings.
//!
//! Two engines share one template source: a scan engine that resolves
//! placeholders on demand until a fixed point, and a preprocess engine that
//! applies precomputed replacement mappings. Both are specified against the
//! same mathematical model of the templating language.

pub mod text;
pub mod template_utils;
pub mod json;
pub mod binding;
pub mod engine_normal;
pub mod model_preprocess;
pub mod loader_normal;
pub mod loader_preprocess;
pub mod engine_preprocess;
pub mod laws;
