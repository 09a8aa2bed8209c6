//! A compiler from a small jq-like path query language into a merged
//! traversal plan, together with the semantics of the single-pass decoder
//! that the plan drives.
//!
//! Query strings such as `.commits.[].author` are lexed and parsed into
//! `QueryFragment`s, one per output field.  All fragments of an output
//! structure are merged into one shared decision tree (`Node`), with
//! structural conflicts reported as diagnostics.  The tree is then executed
//! against an abstract structured document (`Value`), extracting exactly
//! the requested values and aggregating per-field failures into one
//! composite error.

pub mod compile;
pub mod container;
pub mod decode;
pub mod error;
pub mod laws;
pub mod lexer;
pub mod node;
pub mod parse_query;
pub mod query;
pub mod text;
pub mod value;
