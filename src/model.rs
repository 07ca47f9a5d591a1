use vstd::prelude::*;

verus! {

/// One schema of a group: its identifier and its file, relative to the group's base location.
#[derive(Debug)]
pub struct Schema {
    pub id: String,
    pub location: String,
}

/// Schemas that share a base location.
#[derive(Debug)]
pub struct CatalogGroup {
    pub name: String,
    pub base_location: String,
    pub schemas: Vec<Schema>,
}

/// A catalog document: a name and its groups.
#[derive(Debug)]
pub struct Catalog {
    pub name: String,
    pub groups: Vec<CatalogGroup>,
}

/// A schema as a pair of character sequences: (id, location).
pub type SchemaView = (Seq<char>, Seq<char>);

impl Schema {
    pub open spec fn view(&self) -> SchemaView {
        (self.id@, self.location@)
    }

    pub fn copy(&self) -> (r: Schema)
        ensures
            r@ == self@,
    {
        Schema { id: self.id.clone(), location: self.location.clone() }
    }
}

pub open spec fn schemas_view(v: Seq<Schema>) -> Seq<SchemaView> {
    v.map_values(|s: Schema| s@)
}

impl CatalogGroup {
    /// The key by which groups are merged: (base location, name).
    pub open spec fn key(&self) -> (Seq<char>, Seq<char>) {
        (self.base_location@, self.name@)
    }
}

impl PartialEq for Schema {
    fn eq(&self, o: &Schema) -> (r: bool) {
        self.id == o.id && self.location == o.location
    }
}

impl vstd::std_specs::cmp::PartialEqSpecImpl for Schema {
    open spec fn obeys_eq_spec() -> bool {
        true
    }

    open spec fn eq_spec(&self, o: &Schema) -> bool {
        self@ == o@
    }
}

} // verus!
