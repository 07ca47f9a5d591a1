use vstd::prelude::*;
use crate::json::{is_schema_doc, schema_error_of, schema_id_of, schema_meta, schema_title_of, SchemaMeta};
use crate::model::{CatalogGroup, Schema};
use crate::path::{file_name, file_name_of, parent_dir, parent_of};

verus! {

/// Why no group could be made from a schema document.
pub enum SynthesisError {
    /// The document is no schema, for this reason.
    NotSchema { file: String, reason: String },
    NoId { file: String },
    NoParentDir { file: String },
    NoFileName { file: String },
    NoTitle { file: String },
}

/// Makes the one-schema group for the schema file `file`, given what reading
/// its document gave: named by its title, based in the file's directory, with
/// the schema's `$id` located at the file's name.
pub fn group_from_meta(file: &str, meta: Result<SchemaMeta, String>) -> (r: Result<CatalogGroup, SynthesisError>)
    ensures
        match meta {
            Err(e) => r matches Err(SynthesisError::NotSchema { file: f, reason }) && f@ == file@ && reason@ == e@,
            Ok(m) => {
                if m.id is None {
                    r matches Err(SynthesisError::NoId { file: f }) && f@ == file@
                } else if parent_of(file@) is None {
                    r matches Err(SynthesisError::NoParentDir { file: f }) && f@ == file@
                } else if file_name_of(file@) is None {
                    r matches Err(SynthesisError::NoFileName { file: f }) && f@ == file@
                } else if m.title is None {
                    r matches Err(SynthesisError::NoTitle { file: f }) && f@ == file@
                } else {
                    r matches Ok(g) && g.name@ == m.title->0@ && g.base_location@ == parent_of(file@)->0
                        && g.schemas@.len() == 1 && g.schemas@[0].id@ == m.id->0@
                        && g.schemas@[0].location@ == file_name_of(file@)->0
                }
            },
        },
{
    let m = match meta {
        Ok(m) => m,
        Err(e) => return Err(SynthesisError::NotSchema { file: file.to_string(), reason: e }),
    };
    let id = match m.id {
        Some(id) => id,
        None => return Err(SynthesisError::NoId { file: file.to_string() }),
    };
    let base_dir = match parent_dir(file) {
        Some(d) => d,
        None => return Err(SynthesisError::NoParentDir { file: file.to_string() }),
    };
    let name_in_dir = match file_name(file) {
        Some(f) => f,
        None => return Err(SynthesisError::NoFileName { file: file.to_string() }),
    };
    let title = match m.title {
        Some(t) => t,
        None => return Err(SynthesisError::NoTitle { file: file.to_string() }),
    };
    let mut schemas: Vec<Schema> = Vec::new();
    schemas.push(Schema { id, location: name_in_dir });
    Ok(CatalogGroup { name: title, base_location: base_dir, schemas })
}

/// Makes the one-schema group for the schema document `schema`, read from `file`.
pub fn group_from_schema(file: &str, schema: &serde_json::Value) -> (r: Result<CatalogGroup, SynthesisError>)
    ensures
        if !is_schema_doc(*schema) {
            r matches Err(SynthesisError::NotSchema { file: f, reason }) && f@ == file@ && reason@
                == schema_error_of(*schema)
        } else if schema_id_of(*schema) is None {
            r matches Err(SynthesisError::NoId { file: f }) && f@ == file@
        } else if parent_of(file@) is None {
            r matches Err(SynthesisError::NoParentDir { file: f }) && f@ == file@
        } else if file_name_of(file@) is None {
            r matches Err(SynthesisError::NoFileName { file: f }) && f@ == file@
        } else if schema_title_of(*schema) is None {
            r matches Err(SynthesisError::NoTitle { file: f }) && f@ == file@
        } else {
            r matches Ok(g) && g.name@ == schema_title_of(*schema)->0 && g.base_location@ == parent_of(
                file@,
            )->0 && g.schemas@.len() == 1 && g.schemas@[0].id@ == schema_id_of(*schema)->0
                && g.schemas@[0].location@ == file_name_of(file@)->0
        },
{
    group_from_meta(file, schema_meta(schema))
}

} // verus!
