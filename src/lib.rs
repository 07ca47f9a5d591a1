//! Catalogs that map JSON Schema identifiers to files: an index over them,
//! their validation, the merging of groups and the rewriting of references.
use vstd::prelude::*;

pub mod check;
pub mod index;
pub mod json;
pub mod laws;
pub mod merge;
pub mod merge_laws;
pub mod model;
pub mod order;
pub mod path;
pub mod rewrite;
pub mod synth;

pub use check::{CatalogError, CheckOptions, GroupError, SchemaError, SchemaFile};
pub use index::{index_catalogs, Index};
pub use json::EmbeddedId;
pub use merge::{catalog_from_groups, group_key};
pub use model::{Catalog, CatalogGroup, Schema};
pub use path::join_path;
pub use rewrite::{rewrite_refs, Json, RewriteError};
pub use synth::{group_from_meta, group_from_schema, SynthesisError};
