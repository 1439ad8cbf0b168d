//! Verified core of a structural-analysis tool for source trees.

pub mod cognitive;
pub mod config;
pub mod docs;
pub mod doc_specs;
pub mod docs_route;
pub mod fmt;
pub mod item_walk;
pub mod focus;
pub mod logger;
pub mod maps;
pub mod module_walk;
pub mod paths;
pub mod plugins;
pub mod py_structure;
pub mod python;
pub mod report;
pub mod rust_text;
pub mod sample;
pub mod scorecard;
pub mod strs;
pub mod test_strip;
pub mod text;
pub mod use_graph;
pub mod use_resolve;
