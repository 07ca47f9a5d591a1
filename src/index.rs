use vstd::prelude::*;
use crate::model::{Catalog, CatalogGroup, Schema};
use crate::path::{join_path, path_push};

verus! {

/// What the index records of one schema: (basedir, base location, file).
pub type EntryView = (Seq<char>, Seq<char>, Seq<char>);

/// What the index holds: identifier to entry.
pub type IndexView = Map<Seq<char>, EntryView>;

/// The three path segments whose composition is the file of a schema.
pub struct IndexEntry {
    basedir: String,
    base_location: String,
    file: String,
}

/// The path that an entry stands for: the three segments joined in order.
pub open spec fn entry_path(e: EntryView) -> Seq<char> {
    path_push(path_push(path_push(Seq::empty(), e.0), e.1), e.2)
}

impl IndexEntry {
    pub closed spec fn view(&self) -> EntryView {
        (self.basedir@, self.base_location@, self.file@)
    }

    fn get_path(&self) -> (r: String)
        ensures
            r@ == entry_path(self@),
    {
        let first = join_path("", self.basedir.as_str());
        let second = join_path(first.as_str(), self.base_location.as_str());
        proof {
            reveal_strlit("");
        }
        join_path(second.as_str(), self.file.as_str())
    }
}

/// The map that a sequence of insertions leaves, later ones winning.
pub closed spec fn map_of(s: Seq<(String, IndexEntry)>) -> IndexView
    decreases s.len(),
{
    if s.len() == 0 {
        Map::empty()
    } else {
        map_of(s.drop_last()).insert(s.last().0@, s.last().1@)
    }
}

/// Indexing the schemas of one group, in order.
pub open spec fn index_schemas(
    m: IndexView,
    basedir: Seq<char>,
    base_location: Seq<char>,
    schemas: Seq<Schema>,
) -> IndexView
    decreases schemas.len(),
{
    if schemas.len() == 0 {
        m
    } else {
        index_schemas(m, basedir, base_location, schemas.drop_last()).insert(
            schemas.last().id@,
            (basedir, base_location, schemas.last().location@),
        )
    }
}

/// Indexing the groups of a catalog, in order.
pub open spec fn index_groups(m: IndexView, basedir: Seq<char>, groups: Seq<CatalogGroup>) -> IndexView
    decreases groups.len(),
{
    if groups.len() == 0 {
        m
    } else {
        index_schemas(
            index_groups(m, basedir, groups.drop_last()),
            basedir,
            groups.last().base_location@,
            groups.last().schemas@,
        )
    }
}

/// An index for looking up schema files by their id.
///
/// Entries are kept in the order of insertion; a lookup takes the latest one.
pub struct Index {
    by_id: Vec<(String, IndexEntry)>,
}

proof fn lemma_map_of_prefix(s: Seq<(String, IndexEntry)>, i: int, k: Seq<char>)
    requires
        0 <= i <= s.len(),
        forall|j: int| i <= j < s.len() ==> s[j].0@ != k,
    ensures
        map_of(s).contains_key(k) == map_of(s.subrange(0, i)).contains_key(k),
        map_of(s).contains_key(k) ==> map_of(s)[k] == map_of(s.subrange(0, i))[k],
    decreases s.len() - i,
{
    if i < s.len() {
        lemma_map_of_prefix(s, i + 1, k);
        assert(s.subrange(0, i + 1).drop_last() =~= s.subrange(0, i));
    } else {
        assert(s.subrange(0, i) =~= s);
    }
}

impl Index {
    pub closed spec fn view(&self) -> IndexView {
        map_of(self.by_id@)
    }

    pub fn new() -> (r: Self)
        ensures
            r@ == Map::<Seq<char>, EntryView>::empty(),
    {
        Index { by_id: Vec::new() }
    }

    /// Records `e` under `id`, replacing what was there.
    fn insert(&mut self, id: String, e: IndexEntry)
        ensures
            final(self)@ == old(self)@.insert(id@, e@),
    {
        self.by_id.push((id, e));
        proof {
            assert(self.by_id@.drop_last() =~= old(self).by_id@);
        }
    }

    fn get_entry(&self, id: &str) -> (r: Option<&IndexEntry>)
        ensures
            r is Some <==> self@.contains_key(id@),
            r is Some ==> r->0@ == self@[id@],
    {
        let key = id.to_string();
        let mut i = self.by_id.len();
        while i > 0
            invariant
                i <= self.by_id@.len(),
                key@ == id@,
                forall|j: int| i <= j < self.by_id@.len() ==> self.by_id@[j].0@ != id@,
            decreases i,
        {
            proof {
                lemma_map_of_prefix(self.by_id@, i as int, id@);
                assert(self.by_id@.subrange(0, i as int).drop_last() =~= self.by_id@.subrange(
                    0,
                    i - 1,
                ));
            }
            if self.by_id[i - 1].0 == key {
                proof {
                    let pre = self.by_id@.subrange(0, i as int);
                    assert(self.by_id@[i - 1].0@ == id@);
                    assert(pre.last() == self.by_id@[i - 1]);
                    assert(map_of(pre) == map_of(pre.drop_last()).insert(pre.last().0@, pre.last().1@));
                }
                return Some(&self.by_id[i - 1].1);
            }
            i = i - 1;
        }
        proof {
            lemma_map_of_prefix(self.by_id@, 0, id@);
        }
        None
    }

    pub fn get_path(&self, id: &str) -> (r: Option<String>)
        ensures
            r is Some <==> self@.contains_key(id@),
            r is Some ==> r->0@ == entry_path(self@[id@]),
    {
        match self.get_entry(id) {
            Some(e) => Some(e.get_path()),
            None => None,
        }
    }
}

impl Schema {
    pub fn index(&self, basedir: &str, base_location: &str, index: &mut Index)
        ensures
            final(index)@ == old(index)@.insert(self.id@, (basedir@, base_location@, self.location@)),
    {
        let e = IndexEntry {
            basedir: basedir.to_string(),
            base_location: base_location.to_string(),
            file: self.location.clone(),
        };
        index.insert(self.id.clone(), e);
    }
}

impl CatalogGroup {
    pub fn index(&self, basedir: &str, index: &mut Index)
        ensures
            final(index)@ == index_schemas(old(index)@, basedir@, self.base_location@, self.schemas@),
    {
        let mut i: usize = 0;
        while i < self.schemas.len()
            invariant
                i <= self.schemas@.len(),
                index@ == index_schemas(
                    old(index)@,
                    basedir@,
                    self.base_location@,
                    self.schemas@.subrange(0, i as int),
                ),
            decreases self.schemas@.len() - i,
        {
            self.schemas[i].index(basedir, self.base_location.as_str(), index);
            proof {
                assert(self.schemas@.subrange(0, i + 1).drop_last() =~= self.schemas@.subrange(
                    0,
                    i as int,
                ));
            }
            i = i + 1;
        }
        proof {
            assert(self.schemas@.subrange(0, i as int) =~= self.schemas@);
        }
    }
}

impl Catalog {
    pub fn index(&self, basedir: &str, index: &mut Index)
        ensures
            final(index)@ == index_groups(old(index)@, basedir@, self.groups@),
    {
        let mut i: usize = 0;
        while i < self.groups.len()
            invariant
                i <= self.groups@.len(),
                index@ == index_groups(old(index)@, basedir@, self.groups@.subrange(0, i as int)),
            decreases self.groups@.len() - i,
        {
            self.groups[i].index(basedir, index);
            proof {
                assert(self.groups@.subrange(0, i + 1).drop_last() =~= self.groups@.subrange(
                    0,
                    i as int,
                ));
            }
            i = i + 1;
        }
        proof {
            assert(self.groups@.subrange(0, i as int) =~= self.groups@);
        }
    }
}

/// Indexing catalogs in order, each with its base directory.
pub open spec fn index_catalogs_spec(m: IndexView, cs: Seq<(String, Catalog)>) -> IndexView
    decreases cs.len(),
{
    if cs.len() == 0 {
        m
    } else {
        index_groups(index_catalogs_spec(m, cs.drop_last()), cs.last().0@, cs.last().1.groups@)
    }
}

/// Builds the index of catalogs, each paired with its base directory, in
/// list order: where two define one id, the later one wins.
pub fn index_catalogs(catalogs: &Vec<(String, Catalog)>) -> (r: Index)
    ensures
        r@ == index_catalogs_spec(Map::empty(), catalogs@),
{
    let mut index = Index::new();
    let mut i: usize = 0;
    while i < catalogs.len()
        invariant
            i <= catalogs@.len(),
            index@ == index_catalogs_spec(Map::empty(), catalogs@.subrange(0, i as int)),
        decreases catalogs@.len() - i,
    {
        catalogs[i].1.index(catalogs[i].0.as_str(), &mut index);
        proof {
            assert(catalogs@.subrange(0, i + 1).drop_last() =~= catalogs@.subrange(0, i as int));
        }
        i = i + 1;
    }
    proof {
        assert(catalogs@.subrange(0, i as int) =~= catalogs@);
    }
    index
}

} // verus!
