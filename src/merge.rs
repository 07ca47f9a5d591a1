use vstd::prelude::*;
use vstd::seq_lib::{to_multiset_build, to_multiset_insert};
use crate::model::{schemas_view, Catalog, CatalogGroup, Schema, SchemaView};
use crate::order::{
    compare_pairs, lemma_pair_irreflexive, lemma_pair_total, lemma_pair_transitive, pair_le,
    pair_lt,
};

verus! {

/// The schemas of the groups of `gs` whose key is `k`, concatenated in order.
pub open spec fn cluster(gs: Seq<CatalogGroup>, k: (Seq<char>, Seq<char>)) -> Seq<SchemaView>
    decreases gs.len(),
{
    if gs.len() == 0 {
        Seq::empty()
    } else if gs.last().key() == k {
        cluster(gs.drop_last(), k) + schemas_view(gs.last().schemas@)
    } else {
        cluster(gs.drop_last(), k)
    }
}

/// Some group of `gs` has key `k`.
pub open spec fn has_key(gs: Seq<CatalogGroup>, k: (Seq<char>, Seq<char>)) -> bool {
    exists|j: int| 0 <= j < gs.len() && #[trigger] gs[j].key() == k
}

/// The keys of `gs` ascend strictly, so no key stands twice.
pub open spec fn keys_ascending(gs: Seq<CatalogGroup>) -> bool {
    forall|a: int, b: int| 0 <= a < b < gs.len() ==> pair_lt(#[trigger] gs[a].key(), #[trigger] gs[b].key())
}

/// `ss` ascends by id, and by location among equal ids.
pub open spec fn sorted_schemas(ss: Seq<SchemaView>) -> bool {
    forall|a: int, b: int| 0 <= a < b < ss.len() ==> pair_le(#[trigger] ss[a], #[trigger] ss[b])
}

proof fn lemma_cluster_absent(gs: Seq<CatalogGroup>, k: (Seq<char>, Seq<char>))
    requires
        !has_key(gs, k),
    ensures
        cluster(gs, k) == Seq::<SchemaView>::empty(),
    decreases gs.len(),
{
    if gs.len() > 0 {
        assert(gs.last() == gs[gs.len() - 1]);
        assert forall|j: int| 0 <= j < gs.drop_last().len() implies #[trigger] gs.drop_last()[j].key() != k by {
            assert(gs.drop_last()[j] == gs[j]);
        }
        lemma_cluster_absent(gs.drop_last(), k);
    }
}

/// The key of a group: (base location, name).
pub fn group_key(group: &CatalogGroup) -> (r: (String, String))
    ensures
        r.0@ == group.base_location@,
        r.1@ == group.name@,
{
    (group.base_location.clone(), group.name.clone())
}

fn compare_keys(a: &CatalogGroup, b: &CatalogGroup) -> (r: i8)
    ensures
        r < 0 <==> pair_lt(a.key(), b.key()),
        r == 0 <==> a.key() == b.key(),
{
    let ka = group_key(a);
    let kb = group_key(b);
    compare_pairs(ka.0.as_str(), ka.1.as_str(), kb.0.as_str(), kb.1.as_str())
}

/// Appends copies of `src` to `dst`.
fn append_schemas(src: &Vec<Schema>, dst: &mut Vec<Schema>)
    ensures
        schemas_view(final(dst)@) == schemas_view(old(dst)@) + schemas_view(src@),
{
    let mut i: usize = 0;
    while i < src.len()
        invariant
            i <= src@.len(),
            schemas_view(dst@) == schemas_view(old(dst)@) + schemas_view(src@.subrange(0, i as int)),
        decreases src@.len() - i,
    {
        let ghost before = dst@;
        dst.push(src[i].copy());
        proof {
            assert(schemas_view(dst@) =~= schemas_view(before).push(src@[i as int]@));
            assert(schemas_view(src@.subrange(0, i + 1)) =~= schemas_view(src@.subrange(0, i as int)).push(src@[i as int]@));
        }
        i = i + 1;
    }
    proof {
        assert(src@.subrange(0, i as int) =~= src@);
    }
}

/// Where the schema `x` goes among `s`: before the first schema that comes
/// after it.
pub open spec fn insert_pos(s: Seq<SchemaView>, x: SchemaView) -> int
    decreases s.len(),
{
    if s.len() == 0 {
        0
    } else if pair_lt(x, s[0]) {
        0
    } else {
        1 + insert_pos(s.drop_first(), x)
    }
}

/// `s` ordered by id, and by location among equal ids (an insertion sort).
pub open spec fn sort_schemas(s: Seq<SchemaView>) -> Seq<SchemaView>
    decreases s.len(),
{
    if s.len() == 0 {
        s
    } else {
        let r = sort_schemas(s.drop_last());
        r.insert(insert_pos(r, s.last()), s.last())
    }
}

proof fn lemma_insert_pos(s: Seq<SchemaView>, x: SchemaView, p: int)
    requires
        0 <= p <= s.len(),
        forall|q: int| 0 <= q < p ==> !pair_lt(x, #[trigger] s[q]),
        p == s.len() || pair_lt(x, s[p]),
    ensures
        insert_pos(s, x) == p,
    decreases p,
{
    if p > 0 {
        assert forall|q: int| 0 <= q < p - 1 implies !pair_lt(x, #[trigger] s.drop_first()[q]) by {
            assert(s.drop_first()[q] == s[q + 1]);
        }
        lemma_insert_pos(s.drop_first(), x, p - 1);
    }
}

/// Copies of `v` ordered by id, and by location among equal ids.
fn sort_by_id_location(v: &Vec<Schema>) -> (r: Vec<Schema>)
    ensures
        sorted_schemas(schemas_view(r@)),
        schemas_view(r@).to_multiset() == schemas_view(v@).to_multiset(),
        schemas_view(r@) == sort_schemas(schemas_view(v@)),
{
    broadcast use to_multiset_build, to_multiset_insert;

    let mut r: Vec<Schema> = Vec::new();
    let mut i: usize = 0;
    proof {
        assert(schemas_view(r@) =~= schemas_view(v@.subrange(0, 0)));
    }
    while i < v.len()
        invariant
            i <= v@.len(),
            sorted_schemas(schemas_view(r@)),
            schemas_view(r@).to_multiset() == schemas_view(v@.subrange(0, i as int)).to_multiset(),
            schemas_view(r@) == sort_schemas(schemas_view(v@.subrange(0, i as int))),
        decreases v@.len() - i,
    {
        let x = v[i].copy();
        let mut p: usize = 0;
        while p < r.len() && compare_pairs(
            x.id.as_str(),
            x.location.as_str(),
            r[p].id.as_str(),
            r[p].location.as_str(),
        ) >= 0
            invariant
                p <= r@.len(),
                forall|q: int| 0 <= q < p ==> !pair_lt(x@, #[trigger] r@[q]@),
            decreases r@.len() - p,
        {
            p = p + 1;
        }
        let ghost before = r@;
        let ghost sb = schemas_view(before);
        proof {
            assert forall|q: int| 0 <= q < p implies !pair_lt(x@, #[trigger] sb[q]) by {
                assert(sb[q] == before[q]@);
            }
            if p < before.len() {
                assert(sb[p as int] == before[p as int]@);
                assert forall|q: int| p <= q < before.len() implies pair_lt(x@, #[trigger] sb[q]) by {
                    if q > p && pair_lt(sb[p as int], sb[q]) {
                        lemma_pair_transitive(x@, sb[p as int], sb[q]);
                    }
                }
            }
            lemma_insert_pos(sb, x@, p as int);
            let pre = schemas_view(v@.subrange(0, i as int));
            let post = schemas_view(v@.subrange(0, i + 1));
            assert(post.drop_last() =~= pre);
            assert(post.last() == x@);
        }
        r.insert(p, x);
        proof {
            let sv = schemas_view(r@);
            assert(sv =~= sb.insert(p as int, x@));
            assert(schemas_view(v@.subrange(0, i + 1)) =~= schemas_view(v@.subrange(0, i as int)).push(v@[i as int]@));
            to_multiset_insert(sb, p as int, x@);
            to_multiset_build(schemas_view(v@.subrange(0, i as int)), v@[i as int]@);
            assert forall|a: int, b: int| 0 <= a < b < sv.len() implies pair_le(#[trigger] sv[a], #[trigger] sv[b]) by {
                if a < p && b == p {
                    lemma_pair_total(sb[a], x@);
                } else if a == p && b > p {
                    assert(sv[b] == sb[b - 1]);
                } else if a < p && b > p {
                    assert(sb[a] == sv[a] && sb[b - 1] == sv[b]);
                } else if a > p {
                    assert(sb[a - 1] == sv[a] && sb[b - 1] == sv[b]);
                } else {
                    assert(sb[a] == sv[a] && sb[b] == sv[b]);
                }
            }
        }
        i = i + 1;
    }
    proof {
        assert(v@.subrange(0, i as int) =~= v@);
    }
    r
}

/// What the merged catalog is: its groups carry each key of the input once, in
/// ascending order of key, and each holds the schemas of all input groups with
/// that key, ordered by id and, among equal ids, by location.
pub open spec fn merged(name: Seq<char>, groups: Seq<CatalogGroup>, c: Catalog) -> bool {
    &&& c.name@ == name
    &&& keys_ascending(c.groups@)
    &&& forall|k: (Seq<char>, Seq<char>)| has_key(c.groups@, k) <==> has_key(groups, k)
    &&& forall|j: int|
        0 <= j < c.groups@.len() ==> {
            let sv = schemas_view(#[trigger] c.groups@[j].schemas@);
            &&& sorted_schemas(sv)
            &&& sv.to_multiset() == cluster(groups, c.groups@[j].key()).to_multiset()
            &&& sv == sort_schemas(cluster(groups, c.groups@[j].key()))
        }
}

proof fn lemma_cluster_step(gs: Seq<CatalogGroup>, i: int, k: (Seq<char>, Seq<char>))
    requires
        0 <= i < gs.len(),
    ensures
        cluster(gs.subrange(0, i + 1), k) == if gs[i].key() == k {
            cluster(gs.subrange(0, i), k) + schemas_view(gs[i].schemas@)
        } else {
            cluster(gs.subrange(0, i), k)
        },
{
    assert(gs.subrange(0, i + 1).drop_last() =~= gs.subrange(0, i));
}

/// Merges groups into a single catalog named `name`. Groups with equal base
/// location and name become one group; the groups come in ascending order of
/// (base location, name) and each group's schemas in ascending order of
/// (id, location).
#[verifier::rlimit(50)]
pub fn catalog_from_groups(name: String, groups: Vec<CatalogGroup>) -> (r: Catalog)
    ensures
        merged(name@, groups@, r),
{
    let mut out: Vec<CatalogGroup> = Vec::new();
    let mut i: usize = 0;
    while i < groups.len()
        invariant
            i <= groups@.len(),
            keys_ascending(out@),
            forall|k: (Seq<char>, Seq<char>)| has_key(out@, k) <==> has_key(groups@.subrange(0, i as int), k),
            forall|j: int| 0 <= j < out@.len() ==> schemas_view(#[trigger] out@[j].schemas@) == cluster(groups@.subrange(0, i as int), out@[j].key()),
        decreases groups@.len() - i,
    {
        let g = &groups[i];
        let ghost pre = groups@.subrange(0, i as int);
        let ghost post = groups@.subrange(0, i + 1);
        let mut p: usize = 0;
        while p < out.len() && compare_keys(&out[p], g) < 0
            invariant
                p <= out@.len(),
                forall|q: int| 0 <= q < p ==> pair_lt(#[trigger] out@[q].key(), g.key()),
            decreases out@.len() - p,
        {
            p = p + 1;
        }
        let ghost before = out@;
        proof {
            assert forall|k: (Seq<char>, Seq<char>)| #[trigger] has_key(before, k) <==> has_key(pre, k) by {}
            assert forall|k: (Seq<char>, Seq<char>)| #[trigger] has_key(post, k) <==> (has_key(pre, k) || k == g.key()) by {
                if has_key(post, k) {
                    let j = choose|j: int| 0 <= j < post.len() && #[trigger] post[j].key() == k;
                    if j < i {
                        assert(pre[j] == post[j]);
                    }
                }
                if has_key(pre, k) {
                    let j = choose|j: int| 0 <= j < pre.len() && #[trigger] pre[j].key() == k;
                    assert(pre[j] == post[j]);
                }
                if k == g.key() {
                    assert(post[i as int] == g);
                }
            }
            assert forall|k: (Seq<char>, Seq<char>)| true implies #[trigger] cluster(post, k) == if g.key() == k {
                cluster(pre, k) + schemas_view(g.schemas@)
            } else {
                cluster(pre, k)
            } by {
                lemma_cluster_step(groups@, i as int, k);
            }
        }
        if p < out.len() && compare_keys(&out[p], g) == 0 {
            let mut grp = out.remove(p);
            append_schemas(&g.schemas, &mut grp.schemas);
            out.insert(p, grp);
            proof {
                assert(has_key(before, g.key())) by {
                    assert(before[p as int].key() == g.key());
                }
                assert(out@ =~= before.update(p as int, grp));
                assert forall|k: (Seq<char>, Seq<char>)| has_key(out@, k) <==> has_key(before, k) by {
                    if has_key(out@, k) {
                        let j = choose|j: int| 0 <= j < out@.len() && #[trigger] out@[j].key() == k;
                        assert(before[j].key() == k);
                    }
                    if has_key(before, k) {
                        let j = choose|j: int| 0 <= j < before.len() && #[trigger] before[j].key() == k;
                        assert(out@[j].key() == k);
                    }
                }
                assert forall|j: int| 0 <= j < out@.len() implies schemas_view(#[trigger] out@[j].schemas@) == cluster(post, out@[j].key()) by {
                    lemma_cluster_step(groups@, i as int, out@[j].key());
                    if j != p {
                        assert(out@[j] == before[j]);
                        assert(pair_lt(before[j].key(), before[p as int].key()) || pair_lt(before[p as int].key(), before[j].key()));
                        lemma_pair_irreflexive(before[j].key());
                    }
                }
                assert forall|a: int, b: int| 0 <= a < b < out@.len() implies pair_lt(#[trigger] out@[a].key(), #[trigger] out@[b].key()) by {
                    assert(before[a].key() == out@[a].key() && before[b].key() == out@[b].key());
                }
                assert forall|k: (Seq<char>, Seq<char>)| has_key(out@, k) <==> (has_key(before, k) || k == g.key()) by {}
            }
        } else {
            let mut schemas: Vec<Schema> = Vec::new();
            append_schemas(&g.schemas, &mut schemas);
            let ng = CatalogGroup {
                name: g.name.clone(),
                base_location: g.base_location.clone(),
                schemas,
            };
            proof {
                assert(schemas_view(Seq::<Schema>::empty()) =~= Seq::<SchemaView>::empty());
                assert(ng.key() == g.key());
                if p < before.len() {
                    lemma_pair_total(before[p as int].key(), g.key());
                }
                assert forall|q: int| p <= q < before.len() implies pair_lt(g.key(), #[trigger] before[q].key()) by {
                    if q > p {
                        lemma_pair_transitive(g.key(), before[p as int].key(), before[q].key());
                    }
                }
                assert(!has_key(before, g.key())) by {
                    if has_key(before, g.key()) {
                        let j = choose|j: int| 0 <= j < before.len() && #[trigger] before[j].key() == g.key();
                        lemma_pair_irreflexive(g.key());
                    }
                }
                lemma_cluster_absent(pre, g.key());
                assert(Seq::<SchemaView>::empty() + schemas_view(g.schemas@) =~= schemas_view(g.schemas@));
            }
            out.insert(p, ng);
            proof {
                assert(out@ =~= before.insert(p as int, ng));
                assert forall|k: (Seq<char>, Seq<char>)| has_key(out@, k) <==> (has_key(before, k) || k == g.key()) by {
                    if has_key(out@, k) {
                        let j = choose|j: int| 0 <= j < out@.len() && #[trigger] out@[j].key() == k;
                        if j < p {
                            assert(before[j].key() == k);
                        } else if j > p {
                            assert(before[j - 1].key() == k);
                        }
                    }
                    if has_key(before, k) {
                        let j = choose|j: int| 0 <= j < before.len() && #[trigger] before[j].key() == k;
                        if j < p {
                            assert(out@[j].key() == k);
                        } else {
                            assert(out@[j + 1].key() == k);
                        }
                    }
                    if k == g.key() {
                        assert(out@[p as int].key() == k);
                    }
                }
                assert forall|j: int| 0 <= j < out@.len() implies schemas_view(#[trigger] out@[j].schemas@) == cluster(post, out@[j].key()) by {
                    lemma_cluster_step(groups@, i as int, out@[j].key());
                    if j == p {
                        assert(out@[j] == ng);
                    } else if j < p {
                        assert(out@[j] == before[j]);
                        lemma_pair_irreflexive(g.key());
                    } else if j > p {
                        assert(out@[j] == before[j - 1]);
                        lemma_pair_irreflexive(g.key());
                    }
                }
                assert forall|a: int, b: int| 0 <= a < b < out@.len() implies pair_lt(#[trigger] out@[a].key(), #[trigger] out@[b].key()) by {
                    if a < p && b == p {
                    } else if a < p && b > p {
                        assert(out@[b] == before[b - 1]);
                        lemma_pair_transitive(before[a].key(), g.key(), before[b - 1].key());
                    } else if a == p {
                        assert(out@[b] == before[b - 1]);
                    } else if a > p {
                        assert(out@[a] == before[a - 1] && out@[b] == before[b - 1]);
                    } else {
                        assert(out@[a] == before[a] && out@[b] == before[b]);
                    }
                }
            }
        }
        proof {
            assert forall|k: (Seq<char>, Seq<char>)| has_key(out@, k) <==> has_key(post, k) by {
                assert(has_key(post, k) <==> (has_key(pre, k) || k == g.key()));
                assert(has_key(before, k) <==> has_key(pre, k));
                assert(has_key(out@, k) <==> (has_key(before, k) || k == g.key()));
            }
        }
        i = i + 1;
    }
    proof {
        assert(groups@.subrange(0, i as int) =~= groups@);
    }
    let mut result: Vec<CatalogGroup> = Vec::new();
    let mut j: usize = 0;
    while j < out.len()
        invariant
            j <= out@.len(),
            result@.len() == j,
            forall|q: int| 0 <= q < j ==> (#[trigger] result@[q]).key() == out@[q].key(),
            forall|q: int|
                0 <= q < j ==> {
                    let sv = schemas_view(#[trigger] result@[q].schemas@);
                    &&& sorted_schemas(sv)
                    &&& sv.to_multiset() == schemas_view(out@[q].schemas@).to_multiset()
                    &&& sv == sort_schemas(schemas_view(out@[q].schemas@))
                },
        decreases out@.len() - j,
    {
        let grp = &out[j];
        let schemas = sort_by_id_location(&grp.schemas);
        let ng = CatalogGroup {
            name: grp.name.clone(),
            base_location: grp.base_location.clone(),
            schemas,
        };
        let ghost prev = result@;
        result.push(ng);
        proof {
            assert(result@[j as int] == ng);
            assert(sorted_schemas(schemas_view(result@[j as int].schemas@)));
            assert(schemas_view(result@[j as int].schemas@).to_multiset() == schemas_view(out@[j as int].schemas@).to_multiset());
            assert(schemas_view(result@[j as int].schemas@) == sort_schemas(schemas_view(out@[j as int].schemas@)));
            assert forall|q: int| 0 <= q < j implies {
                let sv = schemas_view(#[trigger] result@[q].schemas@);
                &&& sorted_schemas(sv)
                &&& sv.to_multiset() == schemas_view(out@[q].schemas@).to_multiset()
                &&& sv == sort_schemas(schemas_view(out@[q].schemas@))
            } && result@[q].key() == out@[q].key() by {
                assert(result@[q] == prev[q]);
            }
        }
        j = j + 1;
    }
    proof {
        assert forall|k: (Seq<char>, Seq<char>)| has_key(result@, k) <==> has_key(out@, k) by {
            if has_key(result@, k) {
                let q = choose|q: int| 0 <= q < result@.len() && #[trigger] result@[q].key() == k;
                assert(out@[q].key() == k);
            }
            if has_key(out@, k) {
                let q = choose|q: int| 0 <= q < out@.len() && #[trigger] out@[q].key() == k;
                assert(result@[q].key() == k);
            }
        }
        assert forall|a: int, b: int| 0 <= a < b < result@.len() implies pair_lt(#[trigger] result@[a].key(), #[trigger] result@[b].key()) by {
            assert(result@[a].key() == out@[a].key() && result@[b].key() == out@[b].key());
        }
    }
    Catalog { name, groups: result }
}

} // verus!
