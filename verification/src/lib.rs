//! A markdown-ingestion core: classifies paths, extracts and decodes
//! front matter, renders bodies to HTML, computes output paths, and
//! aggregates processed documents into a topic index and a table of
//! contents, all behind verified contracts.

pub mod batch;
pub mod dates;
pub mod document;
pub mod front_matter;
pub mod index;
pub mod json;
pub mod paths;
pub mod render;
pub mod text;
