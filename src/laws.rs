use vstd::prelude::*;
use crate::index::{entry_path, index_groups, index_schemas, IndexView};
use crate::merge::{cluster, has_key, keys_ascending, merged, sorted_schemas};
use crate::model::{schemas_view, Catalog, CatalogGroup, Schema};
use crate::order::lemma_pair_irreflexive;
use crate::path::path_push;

verus! {

/// No identifier stands twice among the schemas of `groups`.
pub open spec fn ids_unique(groups: Seq<CatalogGroup>) -> bool {
    forall|g1: int, s1: int, g2: int, s2: int|
        0 <= g1 < groups.len() && 0 <= g2 < groups.len() && 0 <= s1 < groups[g1].schemas@.len()
            && 0 <= s2 < groups[g2].schemas@.len() && #[trigger] groups[g1].schemas@[s1].id@
            == #[trigger] groups[g2].schemas@[s2].id@ ==> g1 == g2 && s1 == s2
}

proof fn lemma_schemas_absent(m: IndexView, d: Seq<char>, l: Seq<char>, ss: Seq<Schema>, k: Seq<char>)
    requires
        forall|j: int| 0 <= j < ss.len() ==> ss[j].id@ != k,
    ensures
        index_schemas(m, d, l, ss).contains_key(k) == m.contains_key(k),
        m.contains_key(k) ==> index_schemas(m, d, l, ss)[k] == m[k],
    decreases ss.len(),
{
    if ss.len() > 0 {
        lemma_schemas_absent(m, d, l, ss.drop_last(), k);
    }
}

proof fn lemma_schemas_last(m: IndexView, d: Seq<char>, l: Seq<char>, ss: Seq<Schema>, si: int)
    requires
        0 <= si < ss.len(),
        forall|j: int| si < j < ss.len() ==> ss[j].id@ != ss[si].id@,
    ensures
        index_schemas(m, d, l, ss).contains_key(ss[si].id@),
        index_schemas(m, d, l, ss)[ss[si].id@] == (d, l, ss[si].location@),
    decreases ss.len(),
{
    if si < ss.len() - 1 {
        lemma_schemas_last(m, d, l, ss.drop_last(), si);
    }
}

proof fn lemma_groups_absent(m: IndexView, d: Seq<char>, gs: Seq<CatalogGroup>, k: Seq<char>)
    requires
        forall|g: int, s: int| 0 <= g < gs.len() && 0 <= s < gs[g].schemas@.len() ==> gs[g].schemas@[s].id@ != k,
    ensures
        index_groups(m, d, gs).contains_key(k) == m.contains_key(k),
        m.contains_key(k) ==> index_groups(m, d, gs)[k] == m[k],
    decreases gs.len(),
{
    if gs.len() > 0 {
        let n = gs.len() - 1;
        assert forall|g: int, s: int| 0 <= g < gs.drop_last().len() && 0 <= s < gs.drop_last()[g].schemas@.len()
            implies gs.drop_last()[g].schemas@[s].id@ != k by {
            assert(gs.drop_last()[g] == gs[g]);
        }
        lemma_groups_absent(m, d, gs.drop_last(), k);
        assert forall|j: int| 0 <= j < gs[n].schemas@.len() implies gs[n].schemas@[j].id@ != k by {}
        lemma_schemas_absent(index_groups(m, d, gs.drop_last()), d, gs[n].base_location@, gs[n].schemas@, k);
    }
}

proof fn lemma_groups_unique(m: IndexView, d: Seq<char>, gs: Seq<CatalogGroup>, gi: int, si: int)
    requires
        ids_unique(gs),
        0 <= gi < gs.len(),
        0 <= si < gs[gi].schemas@.len(),
    ensures
        index_groups(m, d, gs).contains_key(gs[gi].schemas@[si].id@),
        index_groups(m, d, gs)[gs[gi].schemas@[si].id@] == (d, gs[gi].base_location@, gs[gi].schemas@[si].location@),
    decreases gs.len(),
{
    let n = gs.len() - 1;
    let k = gs[gi].schemas@[si].id@;
    let prev = index_groups(m, d, gs.drop_last());
    if gi < n {
        assert(ids_unique(gs.drop_last())) by {
            assert forall|g1: int, s1: int, g2: int, s2: int|
                0 <= g1 < gs.drop_last().len() && 0 <= g2 < gs.drop_last().len()
                    && 0 <= s1 < gs.drop_last()[g1].schemas@.len()
                    && 0 <= s2 < gs.drop_last()[g2].schemas@.len()
                    && #[trigger] gs.drop_last()[g1].schemas@[s1].id@
                    == #[trigger] gs.drop_last()[g2].schemas@[s2].id@ implies g1 == g2 && s1 == s2 by {
                assert(gs[g1].schemas@[s1].id@ == gs[g2].schemas@[s2].id@);
            }
        }
        lemma_groups_unique(m, d, gs.drop_last(), gi, si);
        assert forall|j: int| 0 <= j < gs[n].schemas@.len() implies gs[n].schemas@[j].id@ != k by {
            if gs[n].schemas@[j].id@ == k {
                assert(gs[n].schemas@[j].id@ == gs[gi].schemas@[si].id@);
            }
        }
        lemma_schemas_absent(prev, d, gs[n].base_location@, gs[n].schemas@, k);
    } else {
        assert forall|j: int| si < j < gs[n].schemas@.len() implies gs[n].schemas@[j].id@ != k by {
            if gs[n].schemas@[j].id@ == k {
                assert(gs[n].schemas@[j].id@ == gs[gi].schemas@[si].id@);
            }
        }
        lemma_schemas_last(prev, d, gs[n].base_location@, gs[n].schemas@, si);
    }
}

/// Index composition: once a catalog whose identifiers are unique has been
/// indexed with base directory `d`, each of its schemas is found under its id,
/// and its path is `d`, the group's base location and the schema's location,
/// joined in that order.
pub proof fn lemma_index_composition(c: Catalog, d: Seq<char>, m: IndexView, gi: int, si: int)
    requires
        ids_unique(c.groups@),
        0 <= gi < c.groups@.len(),
        0 <= si < c.groups@[gi].schemas@.len(),
    ensures
        ({
            let g = c.groups@[gi];
            let s = g.schemas@[si];
            let r = index_groups(m, d, c.groups@);
            &&& r.contains_key(s.id@)
            &&& r[s.id@] == (d, g.base_location@, s.location@)
            &&& entry_path(r[s.id@]) == path_push(path_push(d, g.base_location@), s.location@)
        }),
{
    lemma_groups_unique(m, d, c.groups@, gi, si);
    assert(path_push(Seq::empty(), d) =~= d);
}

/// Last write wins: indexing catalog `a` and then catalog `b`, where `b` holds
/// the identifier of its schema (`gi`, `si`) once, leaves that identifier
/// mapped to `b`'s entry, whatever `a` held.
pub proof fn lemma_index_overwrite(
    a: Catalog,
    da: Seq<char>,
    b: Catalog,
    db: Seq<char>,
    m: IndexView,
    gi: int,
    si: int,
)
    requires
        ids_unique(b.groups@),
        0 <= gi < b.groups@.len(),
        0 <= si < b.groups@[gi].schemas@.len(),
    ensures
        ({
            let g = b.groups@[gi];
            let s = g.schemas@[si];
            let r = index_groups(index_groups(m, da, a.groups@), db, b.groups@);
            &&& r.contains_key(s.id@)
            &&& r[s.id@] == (db, g.base_location@, s.location@)
        }),
{
    lemma_index_composition(b, db, index_groups(m, da, a.groups@), gi, si);
}

/// Merge grouping: two groups that share base location and name merge into
/// exactly one group, whose schemas are those of both, ordered by id and
/// location.
pub proof fn lemma_merge_pair(name: Seq<char>, a: CatalogGroup, b: CatalogGroup, c: Catalog)
    requires
        a.key() == b.key(),
        merged(name, seq![a, b], c),
    ensures
        c.groups@.len() == 1,
        c.groups@[0].key() == a.key(),
        sorted_schemas(schemas_view(c.groups@[0].schemas@)),
        schemas_view(c.groups@[0].schemas@).to_multiset() == (schemas_view(a.schemas@) + schemas_view(
            b.schemas@,
        )).to_multiset(),
{
    let gs = seq![a, b];
    let k = a.key();
    assert(gs[0].key() == k);
    assert(has_key(gs, k));
    assert(has_key(c.groups@, k));
    assert forall|j: int| 0 <= j < c.groups@.len() implies #[trigger] c.groups@[j].key() == k by {
        assert(has_key(c.groups@, c.groups@[j].key()));
        assert(has_key(gs, c.groups@[j].key()));
        let w = choose|w: int| 0 <= w < gs.len() && #[trigger] gs[w].key() == c.groups@[j].key();
        assert(w == 0 || w == 1);
    }
    if c.groups@.len() >= 2 {
        assert(keys_ascending(c.groups@));
        assert(c.groups@[0].key() == c.groups@[1].key());
        lemma_pair_irreflexive(k);
        assert(false);
    }
    assert(gs.drop_last() =~= seq![a]);
    assert(seq![a].drop_last() =~= Seq::<CatalogGroup>::empty());
    assert(seq![a].last() == a);
    assert(cluster(Seq::<CatalogGroup>::empty(), k) == Seq::<(Seq<char>, Seq<char>)>::empty());
    assert(cluster(seq![a], k) == cluster(Seq::<CatalogGroup>::empty(), k) + schemas_view(a.schemas@));
    assert(cluster(seq![a], k) =~= schemas_view(a.schemas@));
    assert(cluster(gs, k) == cluster(seq![a], k) + schemas_view(b.schemas@));
}

} // verus!
