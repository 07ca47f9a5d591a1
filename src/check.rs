use vstd::prelude::*;
use crate::json::{embedded_id, is_json, json_error_of, json_value_of, member_of, parse_json, EmbeddedId};
use crate::model::{Catalog, CatalogGroup, Schema};
use crate::path::{join_path, parent_dir, parent_of, path_push};

verus! {

/// Options of a catalog check.
pub struct CheckOptions {
    /// Where a schema file holds an `id` member, it must equal the recorded id.
    pub require_matching_id: bool,
}

impl CheckOptions {
    pub fn new() -> (r: Self)
        ensures
            r.require_matching_id,
    {
        CheckOptions { require_matching_id: true }
    }
}

impl Default for CheckOptions {
    fn default() -> (r: Self)
        ensures
            r.require_matching_id,
    {
        Self::new()
    }
}

/// What reading the file of a schema gave.
pub enum SchemaFile {
    /// Its metadata could not be had, for this reason.
    Inaccessible(String),
    /// It could not be read as text, for this reason.
    Unreadable(String),
    /// Its text.
    Text(String),
}

/// Why a schema failed its check.
pub enum SchemaError {
    IdEmpty,
    LocationEmpty,
    Inaccessible { path: String, reason: String },
    Unreadable { path: String, reason: String },
    NotJson { path: String, reason: String },
    IdMismatch { recorded: String, found: String, path: String },
}

/// Why a group failed its check.
pub enum GroupError {
    NameEmpty,
    BaseLocationEmpty,
    /// A schema of the named group failed.
    InGroup { group: String, cause: SchemaError },
}

/// Why a catalog failed its check.
pub enum CatalogError {
    /// The catalog's file name has no parent directory.
    NoParentDir { file: String },
    /// A group of the named catalog, read from the named file, failed.
    InCatalog { catalog: String, file: String, cause: GroupError },
}

/// A schema's failure, over plain values.
pub enum SchemaFault {
    IdEmpty,
    LocationEmpty,
    /// (path, reason)
    Inaccessible(Seq<char>, Seq<char>),
    /// (path, reason)
    Unreadable(Seq<char>, Seq<char>),
    /// (path, reason)
    NotJson(Seq<char>, Seq<char>),
    /// (recorded id, found id, path)
    IdMismatch(Seq<char>, Seq<char>, Seq<char>),
}

/// A group's failure, over plain values.
pub enum GroupFault {
    NameEmpty,
    BaseLocationEmpty,
    /// (group name, the first failing schema's fault)
    InGroup(Seq<char>, SchemaFault),
}

/// A catalog's failure, over plain values.
pub enum CatalogFault {
    /// (file name)
    NoParentDir(Seq<char>),
    /// (catalog name, file name, the first failing group's fault)
    InCatalog(Seq<char>, Seq<char>, GroupFault),
}

impl SchemaError {
    pub open spec fn view(&self) -> SchemaFault {
        match self {
            SchemaError::IdEmpty => SchemaFault::IdEmpty,
            SchemaError::LocationEmpty => SchemaFault::LocationEmpty,
            SchemaError::Inaccessible { path, reason } => SchemaFault::Inaccessible(path@, reason@),
            SchemaError::Unreadable { path, reason } => SchemaFault::Unreadable(path@, reason@),
            SchemaError::NotJson { path, reason } => SchemaFault::NotJson(path@, reason@),
            SchemaError::IdMismatch { recorded, found, path } => SchemaFault::IdMismatch(recorded@, found@, path@),
        }
    }
}

impl GroupError {
    pub open spec fn view(&self) -> GroupFault {
        match self {
            GroupError::NameEmpty => GroupFault::NameEmpty,
            GroupError::BaseLocationEmpty => GroupFault::BaseLocationEmpty,
            GroupError::InGroup { group, cause } => GroupFault::InGroup(group@, cause@),
        }
    }
}

impl CatalogError {
    pub open spec fn view(&self) -> CatalogFault {
        match self {
            CatalogError::NoParentDir { file } => CatalogFault::NoParentDir(file@),
            CatalogError::InCatalog { catalog, file, cause } => CatalogFault::InCatalog(catalog@, file@, cause@),
        }
    }
}

/// The key of the identifier member of a schema file.
pub open spec fn id_key() -> Seq<char> {
    seq!['i', 'd']
}

/// How the id found in a schema file compares with the recorded one.
pub open spec fn id_outcome(recorded: Seq<char>, found: Option<(bool, Seq<char>)>, path: Seq<char>) -> Option<SchemaFault> {
    match found {
        None => None,
        Some((is_str, t)) => if is_str && t == recorded {
            None
        } else {
            Some(SchemaFault::IdMismatch(recorded, t, path))
        },
    }
}

/// The outcome of checking schema `s` under `base_dir`, whose file gave `f`.
pub open spec fn schema_outcome(s: Schema, require_matching_id: bool, base_dir: Seq<char>, f: SchemaFile) -> Option<SchemaFault> {
    if s.id@.len() == 0 {
        Some(SchemaFault::IdEmpty)
    } else if s.location@.len() == 0 {
        Some(SchemaFault::LocationEmpty)
    } else {
        let path = path_push(base_dir, s.location@);
        match f {
            SchemaFile::Inaccessible(e) => Some(SchemaFault::Inaccessible(path, e@)),
            SchemaFile::Unreadable(e) => Some(SchemaFault::Unreadable(path, e@)),
            SchemaFile::Text(t) => if !is_json(t@) {
                Some(SchemaFault::NotJson(path, json_error_of(t@)))
            } else if !require_matching_id {
                None
            } else {
                id_outcome(s.id@, member_of(json_value_of(t@), id_key()), path)
            },
        }
    }
}

/// The first fault among the first `n` schemas of `ss`, checked in order.
pub open spec fn schemas_outcome(
    ss: Seq<Schema>,
    require_matching_id: bool,
    dir: Seq<char>,
    fs: Seq<SchemaFile>,
    n: int,
) -> Option<SchemaFault>
    decreases n,
{
    if n <= 0 {
        None
    } else {
        match schemas_outcome(ss, require_matching_id, dir, fs, n - 1) {
            Some(e) => Some(e),
            None => schema_outcome(ss[n - 1], require_matching_id, dir, fs[n - 1]),
        }
    }
}

/// The outcome of checking group `g` under `base_dir`, whose schema files gave `fs`.
pub open spec fn group_outcome(g: CatalogGroup, require_matching_id: bool, base_dir: Seq<char>, fs: Seq<SchemaFile>) -> Option<GroupFault> {
    if g.name@.len() == 0 {
        Some(GroupFault::NameEmpty)
    } else if g.base_location@.len() == 0 {
        Some(GroupFault::BaseLocationEmpty)
    } else {
        match schemas_outcome(g.schemas@, require_matching_id, path_push(base_dir, g.base_location@), fs, g.schemas@.len() as int) {
            Some(e) => Some(GroupFault::InGroup(g.name@, e)),
            None => None,
        }
    }
}

/// The first fault among the first `n` groups of `gs`, checked in order.
pub open spec fn groups_outcome(
    gs: Seq<CatalogGroup>,
    require_matching_id: bool,
    base_dir: Seq<char>,
    fss: Seq<Vec<SchemaFile>>,
    n: int,
) -> Option<GroupFault>
    decreases n,
{
    if n <= 0 {
        None
    } else {
        match groups_outcome(gs, require_matching_id, base_dir, fss, n - 1) {
            Some(e) => Some(e),
            None => group_outcome(gs[n - 1], require_matching_id, base_dir, fss[n - 1]@),
        }
    }
}

/// The outcome of checking catalog `c`, read from `file`, whose groups'
/// schema files gave `fss`: groups are checked under the file's parent directory.
pub open spec fn catalog_outcome(c: Catalog, require_matching_id: bool, file: Seq<char>, fss: Seq<Vec<SchemaFile>>) -> Option<CatalogFault> {
    match parent_of(file) {
        None => Some(CatalogFault::NoParentDir(file)),
        Some(d) => match groups_outcome(c.groups@, require_matching_id, d, fss, c.groups@.len() as int) {
            Some(e) => Some(CatalogFault::InCatalog(c.name@, file, e)),
            None => None,
        },
    }
}

proof fn lemma_schemas_outcome_stays(ss: Seq<Schema>, req: bool, dir: Seq<char>, fs: Seq<SchemaFile>, n: int, n2: int)
    requires
        0 <= n <= n2,
        schemas_outcome(ss, req, dir, fs, n) is Some,
    ensures
        schemas_outcome(ss, req, dir, fs, n2) == schemas_outcome(ss, req, dir, fs, n),
    decreases n2 - n,
{
    if n < n2 {
        lemma_schemas_outcome_stays(ss, req, dir, fs, n, n2 - 1);
    }
}

proof fn lemma_groups_outcome_stays(gs: Seq<CatalogGroup>, req: bool, d: Seq<char>, fss: Seq<Vec<SchemaFile>>, n: int, n2: int)
    requires
        0 <= n <= n2,
        groups_outcome(gs, req, d, fss, n) is Some,
    ensures
        groups_outcome(gs, req, d, fss, n2) == groups_outcome(gs, req, d, fss, n),
    decreases n2 - n,
{
    if n < n2 {
        lemma_groups_outcome_stays(gs, req, d, fss, n, n2 - 1);
    }
}

/// Compares the id found in a schema file with the recorded one: a string
/// must equal it, any other value never does, and no `id` passes.
pub fn check_embedded_id(recorded: &String, found: EmbeddedId, path: &String) -> (r: Result<(), SchemaError>)
    ensures
        match found {
            EmbeddedId::Absent => r is Ok,
            EmbeddedId::Str(s) => (r is Ok <==> s@ == recorded@),
            EmbeddedId::Other(_) => !(r is Ok),
        },
        r matches Err(SchemaError::IdMismatch { recorded: a, found: b, path: p }) ==> a@ == recorded@ && p@
            == path@ && match found {
            EmbeddedId::Str(s) => b@ == s@,
            EmbeddedId::Other(t) => b@ == t@,
            EmbeddedId::Absent => false,
        },
        r is Err ==> r matches Err(SchemaError::IdMismatch { .. }),
{
    match found {
        EmbeddedId::Absent => Ok(()),
        EmbeddedId::Str(s) => {
            if s == *recorded {
                Ok(())
            } else {
                Err(SchemaError::IdMismatch { recorded: recorded.clone(), found: s, path: path.clone() })
            }
        },
        EmbeddedId::Other(t) => Err(
            SchemaError::IdMismatch { recorded: recorded.clone(), found: t, path: path.clone() },
        ),
    }
}

impl Schema {
    /// Checks a schema whose file, at `base_dir` joined with its location,
    /// gave `file` when read.
    pub fn check(&self, opts: &CheckOptions, base_dir: &str, file: &SchemaFile) -> (r: Result<(), SchemaError>)
        ensures
            r is Ok <==> schema_outcome(*self, opts.require_matching_id, base_dir@, *file) is None,
            r matches Err(e) ==> schema_outcome(*self, opts.require_matching_id, base_dir@, *file) == Some(e@),
    {
        if self.id.as_str().unicode_len() == 0 {
            return Err(SchemaError::IdEmpty);
        }
        if self.location.as_str().unicode_len() == 0 {
            return Err(SchemaError::LocationEmpty);
        }
        let path = join_path(base_dir, self.location.as_str());
        match file {
            SchemaFile::Inaccessible(e) => Err(SchemaError::Inaccessible { path, reason: e.clone() }),
            SchemaFile::Unreadable(e) => Err(SchemaError::Unreadable { path, reason: e.clone() }),
            SchemaFile::Text(t) => match parse_json(t.as_str()) {
                Err(e) => Err(SchemaError::NotJson { path, reason: e }),
                Ok(v) => {
                    if opts.require_matching_id {
                        proof {
                            reveal_strlit("id");
                            assert("id"@ =~= id_key());
                        }
                        let found = embedded_id(&v, "id");
                        check_embedded_id(&self.id, found, &path)
                    } else {
                        Ok(())
                    }
                },
            },
        }
    }
}

impl CatalogGroup {
    /// Checks the group, whose schemas' files, under `base_dir`, gave `files`
    /// when read (one for each schema, in order). Stops at the first failure.
    pub fn check(&self, opts: &CheckOptions, base_dir: &str, files: &Vec<SchemaFile>) -> (r: Result<(), GroupError>)
        requires
            files@.len() == self.schemas@.len(),
        ensures
            r is Ok <==> group_outcome(*self, opts.require_matching_id, base_dir@, files@) is None,
            r matches Err(e) ==> group_outcome(*self, opts.require_matching_id, base_dir@, files@) == Some(e@),
    {
        if self.name.as_str().unicode_len() == 0 {
            return Err(GroupError::NameEmpty);
        }
        if self.base_location.as_str().unicode_len() == 0 {
            return Err(GroupError::BaseLocationEmpty);
        }
        let dir = join_path(base_dir, self.base_location.as_str());
        let ghost req = opts.require_matching_id;
        let mut i: usize = 0;
        while i < self.schemas.len()
            invariant
                i <= self.schemas@.len(),
                files@.len() == self.schemas@.len(),
                self.name@.len() > 0,
                self.base_location@.len() > 0,
                dir@ == path_push(base_dir@, self.base_location@),
                req == opts.require_matching_id,
                schemas_outcome(self.schemas@, req, dir@, files@, i as int) is None,
            decreases self.schemas@.len() - i,
        {
            match self.schemas[i].check(opts, dir.as_str(), &files[i]) {
                Ok(()) => {},
                Err(e) => {
                    proof {
                        lemma_schemas_outcome_stays(self.schemas@, req, dir@, files@, i + 1, self.schemas@.len() as int);
                    }
                    return Err(GroupError::InGroup { group: self.name.clone(), cause: e });
                },
            }
            i = i + 1;
        }
        Ok(())
    }
}

impl Catalog {
    /// Checks the catalog read from `file_name`, whose groups' schema files
    /// gave `files` when read (one list for each group, one entry for each
    /// schema, in order). Groups are checked under the parent directory of
    /// `file_name`, in order; the check stops at the first failure.
    pub fn check(&self, opts: &CheckOptions, file_name: &str, files: &Vec<Vec<SchemaFile>>) -> (r: Result<(), CatalogError>)
        requires
            files@.len() == self.groups@.len(),
            forall|g: int| 0 <= g < files@.len() ==> (#[trigger] files@[g])@.len() == self.groups@[g].schemas@.len(),
        ensures
            r is Ok <==> catalog_outcome(*self, opts.require_matching_id, file_name@, files@) is None,
            r matches Err(e) ==> catalog_outcome(*self, opts.require_matching_id, file_name@, files@) == Some(e@),
    {
        let base_dir = match parent_dir(file_name) {
            Some(d) => d,
            None => return Err(CatalogError::NoParentDir { file: file_name.to_string() }),
        };
        let ghost req = opts.require_matching_id;
        let mut i: usize = 0;
        while i < self.groups.len()
            invariant
                i <= self.groups@.len(),
                files@.len() == self.groups@.len(),
                forall|g: int| 0 <= g < files@.len() ==> (#[trigger] files@[g])@.len() == self.groups@[g].schemas@.len(),
                parent_of(file_name@) == Some(base_dir@),
                req == opts.require_matching_id,
                groups_outcome(self.groups@, req, base_dir@, files@, i as int) is None,
            decreases self.groups@.len() - i,
        {
            match self.groups[i].check(opts, base_dir.as_str(), &files[i]) {
                Ok(()) => {},
                Err(e) => {
                    proof {
                        lemma_groups_outcome_stays(self.groups@, req, base_dir@, files@, i + 1, self.groups@.len() as int);
                    }
                    return Err(CatalogError::InCatalog { catalog: self.name.clone(), file: file_name.to_string(), cause: e });
                },
            }
            i = i + 1;
        }
        Ok(())
    }
}

} // verus!
