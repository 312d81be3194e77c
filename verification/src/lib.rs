//! complai: a local compliance-engineering library.
//!
//! The verified core of the compliance knowledge base: control identifiers and
//! their natural ordering, frontmatter fencing, safe storage paths, the ingest
//! protocol's validation and planning rules, matrix assessment rules and the
//! renderers of the textual outputs.

pub mod cli;
pub mod compliance;
pub mod digest;
pub mod frontmatter;
pub mod ids;
pub mod ingest;
pub mod kb;
pub mod model;
pub mod parse;
pub mod paths;
pub mod project;
pub mod reports;
pub mod revision;
pub mod skill;
pub mod sorted;
pub mod system;
pub mod text;
