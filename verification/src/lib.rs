//! Generation of Rhai definition files from the contents of an engine.

pub mod text;
pub mod sort;
pub mod tokenizer;
pub mod type_names;
pub mod engine;
pub mod definitions;
pub mod laws;
pub mod rendering_laws;
