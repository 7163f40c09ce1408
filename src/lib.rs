//! Content-ingestion core: splits documents into a YAML metadata block and a
//! Markdown body, flattens the metadata into dotted keys, normalizes the
//! Markdown tree into position-tracked nodes and extracts `[[wiki links]]`.
pub mod doke_parser;
pub mod error;
pub mod flatmap;
pub mod frontmatter;
pub mod mdtree;
pub mod normalize;
pub mod parser_api;
pub mod position;
pub mod text;
pub mod yaml;
