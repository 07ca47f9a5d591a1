use vstd::prelude::*;
use vstd::multiset::group_multiset_axioms;
use vstd::seq_lib::{lemma_multiset_commutative, to_multiset_build, to_multiset_contains, to_multiset_len, to_multiset_remove};
use crate::merge::{cluster, has_key, merged, sorted_schemas};
use crate::model::{schemas_view, Catalog, CatalogGroup, SchemaView};
use crate::order::{lemma_pair_asymmetric, lemma_pair_irreflexive, lemma_pair_transitive, pair_le, pair_lt};

verus! {

/// The keys of groups, in order.
pub open spec fn keys_of(gs: Seq<CatalogGroup>) -> Seq<(Seq<char>, Seq<char>)> {
    gs.map_values(|g: CatalogGroup| g.key())
}

/// What a group adds to the cluster of key `k`.
pub open spec fn contribution(g: CatalogGroup, k: (Seq<char>, Seq<char>)) -> Seq<SchemaView> {
    if g.key() == k {
        schemas_view(g.schemas@)
    } else {
        Seq::empty()
    }
}

proof fn lemma_ascending_unique(a: Seq<(Seq<char>, Seq<char>)>, b: Seq<(Seq<char>, Seq<char>)>)
    requires
        forall|i: int, j: int| 0 <= i < j < a.len() ==> pair_lt(#[trigger] a[i], #[trigger] a[j]),
        forall|i: int, j: int| 0 <= i < j < b.len() ==> pair_lt(#[trigger] b[i], #[trigger] b[j]),
        forall|k: (Seq<char>, Seq<char>)| a.contains(k) <==> b.contains(k),
    ensures
        a == b,
    decreases a.len(),
{
    if a.len() == 0 {
        if b.len() > 0 {
            assert(b.contains(b[0]));
        }
        assert(a =~= b);
    } else {
        assert(a.contains(a[0]));
        let m = choose|m: int| 0 <= m < b.len() && b[m] == a[0];
        assert(b.contains(b[0]));
        let m2 = choose|m2: int| 0 <= m2 < a.len() && a[m2] == b[0];
        lemma_pair_irreflexive(a[0]);
        if m > 0 {
            if m2 > 0 {
                lemma_pair_transitive(a[0], b[0], a[0]);
            }
        }
        assert(a[0] == b[0]);
        let a1 = a.drop_first();
        let b1 = b.drop_first();
        assert forall|k: (Seq<char>, Seq<char>)| a1.contains(k) <==> b1.contains(k) by {
            if a1.contains(k) {
                let i = choose|i: int| 0 <= i < a1.len() && a1[i] == k;
                assert(a[i + 1] == k);
                assert(a.contains(k));
                let j = choose|j: int| 0 <= j < b.len() && b[j] == k;
                assert(pair_lt(a[0], a[i + 1]));
                if j == 0 {
                    lemma_pair_irreflexive(k);
                }
                assert(b1[j - 1] == k);
            }
            if b1.contains(k) {
                let i = choose|i: int| 0 <= i < b1.len() && b1[i] == k;
                assert(b[i + 1] == k);
                assert(b.contains(k));
                let j = choose|j: int| 0 <= j < a.len() && a[j] == k;
                assert(pair_lt(b[0], b[i + 1]));
                if j == 0 {
                    lemma_pair_irreflexive(k);
                }
                assert(a1[j - 1] == k);
            }
        }
        lemma_ascending_unique(a1, b1);
        assert(a =~= b) by {
            assert forall|i: int| 0 <= i < a.len() implies a[i] == b[i] by {
                if i > 0 {
                    assert(a1[i - 1] == b1[i - 1]);
                }
            }
        }
    }
}

proof fn lemma_cluster_remove(s: Seq<CatalogGroup>, i: int, k: (Seq<char>, Seq<char>))
    requires
        0 <= i < s.len(),
    ensures
        cluster(s, k).to_multiset() == cluster(s.remove(i), k).to_multiset().add(contribution(s[i], k).to_multiset()),
    decreases s.len(),
{
    broadcast use group_multiset_axioms, lemma_multiset_commutative;

    let n = s.len() - 1;
    assert(cluster(s, k) =~= cluster(s.drop_last(), k) + contribution(s.last(), k));
    if i == n {
        assert(s.remove(i) =~= s.drop_last());
    } else {
        lemma_cluster_remove(s.drop_last(), i, k);
        let r = s.remove(i);
        assert(r.drop_last() =~= s.drop_last().remove(i));
        assert(r.last() == s.last());
        assert(cluster(r, k) =~= cluster(r.drop_last(), k) + contribution(r.last(), k));
        assert(s.drop_last()[i] == s[i]);
        assert(cluster(s, k).to_multiset() =~= cluster(r, k).to_multiset().add(contribution(s[i], k).to_multiset()));
    }
}

proof fn lemma_cluster_permutation(s1: Seq<CatalogGroup>, s2: Seq<CatalogGroup>, k: (Seq<char>, Seq<char>))
    requires
        s1.to_multiset() == s2.to_multiset(),
    ensures
        cluster(s1, k).to_multiset() == cluster(s2, k).to_multiset(),
    decreases s1.len(),
{
    broadcast use group_multiset_axioms, lemma_multiset_commutative, to_multiset_contains, to_multiset_len;

    if s1.len() == 0 {
        assert(s2.to_multiset().len() == 0);
        assert(s2.len() == 0);
        assert(s1 =~= s2);
    } else {
        let x = s1.last();
        assert(s1.contains(x)) by {
            assert(s1[s1.len() - 1] == x);
        }
        assert(s1.to_multiset().count(x) > 0);
        assert(s2.to_multiset().count(x) > 0);
        assert(s2.contains(x));
        let i = choose|i: int| 0 <= i < s2.len() && s2[i] == x;
        to_multiset_remove(s2, i);
        assert(s1 =~= s1.drop_last().push(x));
        to_multiset_build(s1.drop_last(), x);
        assert(s1.drop_last().to_multiset() =~= s2.remove(i).to_multiset());
        lemma_cluster_permutation(s1.drop_last(), s2.remove(i), k);
        lemma_cluster_remove(s2, i, k);
        assert(cluster(s1, k) =~= cluster(s1.drop_last(), k) + contribution(x, k));
    }
}

proof fn lemma_sorted_unique(a: Seq<SchemaView>, b: Seq<SchemaView>)
    requires
        sorted_schemas(a),
        sorted_schemas(b),
        a.to_multiset() == b.to_multiset(),
    ensures
        a == b,
    decreases a.len(),
{
    broadcast use group_multiset_axioms, to_multiset_contains, to_multiset_len;

    if a.len() == 0 {
        assert(b.to_multiset().len() == 0);
        assert(a =~= b);
    } else {
        assert(a.to_multiset().len() == a.len());
        assert(b.to_multiset().len() == b.len());
        assert(a.contains(a[0]));
        assert(a.to_multiset().count(a[0]) > 0);
        assert(b.contains(a[0]));
        let m = choose|m: int| 0 <= m < b.len() && b[m] == a[0];
        assert(b.contains(b[0]));
        assert(b.to_multiset().count(b[0]) > 0);
        assert(a.contains(b[0]));
        let m2 = choose|m2: int| 0 <= m2 < a.len() && a[m2] == b[0];
        if m > 0 {
            assert(pair_le(b[0], b[m]));
        }
        if m2 > 0 {
            assert(pair_le(a[0], a[m2]));
        }
        if a[0] != b[0] {
            lemma_pair_asymmetric(a[0], b[0]);
        }
        assert(a[0] == b[0]);
        let a1 = a.drop_first();
        let b1 = b.drop_first();
        to_multiset_remove(a, 0);
        to_multiset_remove(b, 0);
        assert(a.remove(0) =~= a1);
        assert(b.remove(0) =~= b1);
        assert(sorted_schemas(a1)) by {
            assert forall|i: int, j: int| 0 <= i < j < a1.len() implies pair_le(#[trigger] a1[i], #[trigger] a1[j]) by {
                assert(a[i + 1] == a1[i] && a[j + 1] == a1[j]);
            }
        }
        assert(sorted_schemas(b1)) by {
            assert forall|i: int, j: int| 0 <= i < j < b1.len() implies pair_le(#[trigger] b1[i], #[trigger] b1[j]) by {
                assert(b[i + 1] == b1[i] && b[j + 1] == b1[j]);
            }
        }
        lemma_sorted_unique(a1, b1);
        assert(a =~= b) by {
            assert forall|i: int| 0 <= i < a.len() implies a[i] == b[i] by {
                if i > 0 {
                    assert(a1[i - 1] == b1[i - 1]);
                }
            }
        }
    }
}

proof fn lemma_has_key_permutation(s1: Seq<CatalogGroup>, s2: Seq<CatalogGroup>, k: (Seq<char>, Seq<char>))
    requires
        s1.to_multiset() == s2.to_multiset(),
        has_key(s1, k),
    ensures
        has_key(s2, k),
{
    broadcast use to_multiset_contains;

    let j = choose|j: int| 0 <= j < s1.len() && #[trigger] s1[j].key() == k;
    assert(s1.contains(s1[j]));
    assert(s1.to_multiset().count(s1[j]) > 0);
    assert(s2.contains(s1[j]));
    let i = choose|i: int| 0 <= i < s2.len() && s2[i] == s1[j];
    assert(s2[i].key() == k);
}

/// Merge determinism: merging the same groups in any order gives the same
/// catalog.
pub proof fn lemma_merge_permutation(
    name: Seq<char>,
    gs1: Seq<CatalogGroup>,
    gs2: Seq<CatalogGroup>,
    c1: Catalog,
    c2: Catalog,
)
    requires
        gs1.to_multiset() == gs2.to_multiset(),
        merged(name, gs1, c1),
        merged(name, gs2, c2),
    ensures
        c1.name@ == c2.name@,
        c1.groups@.len() == c2.groups@.len(),
        forall|j: int|
            0 <= j < c1.groups@.len() ==> (#[trigger] c1.groups@[j]).key() == c2.groups@[j].key()
                && schemas_view(c1.groups@[j].schemas@) == schemas_view(c2.groups@[j].schemas@),
{
    broadcast use to_multiset_contains;

    let k1 = keys_of(c1.groups@);
    let k2 = keys_of(c2.groups@);
    assert forall|k: (Seq<char>, Seq<char>)| k1.contains(k) <==> k2.contains(k) by {
        if k1.contains(k) {
            let j = choose|j: int| 0 <= j < k1.len() && k1[j] == k;
            assert(c1.groups@[j].key() == k);
            assert(has_key(c1.groups@, k));
            lemma_has_key_permutation(gs1, gs2, k);
            assert(has_key(c2.groups@, k));
            let i = choose|i: int| 0 <= i < c2.groups@.len() && #[trigger] c2.groups@[i].key() == k;
            assert(k2[i] == k);
        }
        if k2.contains(k) {
            let j = choose|j: int| 0 <= j < k2.len() && k2[j] == k;
            assert(c2.groups@[j].key() == k);
            assert(has_key(c2.groups@, k));
            lemma_has_key_permutation(gs2, gs1, k);
            assert(has_key(c1.groups@, k));
            let i = choose|i: int| 0 <= i < c1.groups@.len() && #[trigger] c1.groups@[i].key() == k;
            assert(k1[i] == k);
        }
    }
    assert forall|i: int, j: int| 0 <= i < j < k1.len() implies pair_lt(#[trigger] k1[i], #[trigger] k1[j]) by {
        assert(pair_lt(c1.groups@[i].key(), c1.groups@[j].key()));
    }
    assert forall|i: int, j: int| 0 <= i < j < k2.len() implies pair_lt(#[trigger] k2[i], #[trigger] k2[j]) by {
        assert(pair_lt(c2.groups@[i].key(), c2.groups@[j].key()));
    }
    lemma_ascending_unique(k1, k2);
    assert forall|j: int| 0 <= j < c1.groups@.len() implies (#[trigger] c1.groups@[j]).key() == c2.groups@[j].key()
        && schemas_view(c1.groups@[j].schemas@) == schemas_view(c2.groups@[j].schemas@) by {
        assert(k1[j] == k2[j]);
        let k = c1.groups@[j].key();
        let a = schemas_view(c1.groups@[j].schemas@);
        let b = schemas_view(c2.groups@[j].schemas@);
        lemma_cluster_permutation(gs1, gs2, k);
        lemma_sorted_unique(a, b);
    }
}

} // verus!
