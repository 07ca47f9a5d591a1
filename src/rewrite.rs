use vstd::prelude::*;
use crate::index::{entry_path, Index, IndexView};
use crate::order::compare_str;
use vstd::std_specs::vec::axiom_vec_index_decreases;

verus! {

/// A JSON value. Numbers keep their JSON text; object members keep their order.
pub enum Json {
    Null,
    Bool(bool),
    Number(String),
    Str(String),
    Array(Vec<Json>),
    Object(Vec<(String, Json)>),
}

/// Why references could not be rewritten.
pub enum RewriteError {
    /// No schema of the index has this id.
    UnknownId { id: String },
}

/// The keys whose string values are schema identifiers: `$ref` and `$schema`.
pub open spec fn is_ref_key(k: Seq<char>) -> bool {
    k == seq!['$', 'r', 'e', 'f'] || k == seq!['$', 's', 'c', 'h', 'e', 'm', 'a']
}

/// The identifiers under reference keys of `j` that `m` does not know, in
/// the order of a depth-first walk (members and elements in order).
pub open spec fn unknown_ids(m: IndexView, j: Json) -> Seq<Seq<char>>
    decreases j, 1int, 0int,
{
    match j {
        Json::Array(v) => unknown_ids_upto(m, j, v@.len() as int),
        Json::Object(v) => unknown_ids_upto(m, j, v@.len() as int),
        _ => Seq::empty(),
    }
}

/// `unknown_ids` over the first `n` elements or members of `j`.
pub open spec fn unknown_ids_upto(m: IndexView, j: Json, n: int) -> Seq<Seq<char>>
    decreases j, 0int, n,
{
    if n <= 0 {
        Seq::empty()
    } else {
        match j {
            Json::Array(v) => if n <= v@.len() {
                unknown_ids_upto(m, j, n - 1) + unknown_ids(m, v@[n - 1])
            } else {
                Seq::empty()
            },
            Json::Object(v) => if n <= v@.len() {
                let k = v@[n - 1].0@;
                let c = v@[n - 1].1;
                unknown_ids_upto(m, j, n - 1) + if is_ref_key(k) && c is Str {
                    if m.contains_key(c->Str_0@) {
                        Seq::empty()
                    } else {
                        seq![c->Str_0@]
                    }
                } else {
                    unknown_ids(m, c)
                }
            } else {
                Seq::empty()
            },
            _ => Seq::empty(),
        }
    }
}

proof fn lemma_upto_prefix(m: IndexView, j: Json, n: int, n2: int)
    requires
        0 <= n <= n2,
        match j {
            Json::Array(v) => n2 <= v@.len(),
            Json::Object(v) => n2 <= v@.len(),
            _ => true,
        },
    ensures
        unknown_ids_upto(m, j, n).len() <= unknown_ids_upto(m, j, n2).len(),
        forall|q: int| 0 <= q < unknown_ids_upto(m, j, n).len() ==> #[trigger] unknown_ids_upto(m, j, n2)[q] == unknown_ids_upto(m, j, n)[q],
    decreases n2 - n,
{
    if n < n2 {
        lemma_upto_prefix(m, j, n, n2 - 1);
        let a = unknown_ids_upto(m, j, n2 - 1);
        match j {
            Json::Array(v) => {
                assert(unknown_ids_upto(m, j, n2) == a + unknown_ids(m, v@[n2 - 1]));
            },
            Json::Object(v) => {
                assert(unknown_ids_upto(m, j, n2).subrange(0, a.len() as int) =~= a);
            },
            _ => {},
        }
    }
}

/// `out` is `j` with each identifier under a reference key that `m` knows
/// replaced by the path of its entry; all else, unknown identifiers included,
/// is kept as it was.
pub open spec fn rewritten(m: IndexView, j: Json, out: Json) -> bool
    decreases j,
{
    match j {
        Json::Null => out is Null,
        Json::Bool(b) => out == Json::Bool(b),
        Json::Number(n) => out is Number && out->Number_0@ == n@,
        Json::Str(s) => out is Str && out->Str_0@ == s@,
        Json::Array(v) => out is Array && out->Array_0@.len() == v@.len() && forall|i: int|
            0 <= i < v@.len() ==> rewritten(m, #[trigger] v@[i], out->Array_0@[i]),
        Json::Object(v) => out is Object && out->Object_0@.len() == v@.len() && forall|i: int|
            0 <= i < v@.len() ==> {
                let k = (#[trigger] v@[i]).0@;
                let w = out->Object_0@[i];
                &&& w.0@ == k
                &&& if is_ref_key(k) && v@[i].1 is Str {
                    let id = v@[i].1->Str_0@;
                    w.1 is Str && w.1->Str_0@ == if m.contains_key(id) {
                        entry_path(m[id])
                    } else {
                        id
                    }
                } else {
                    rewritten(m, v@[i].1, w.1)
                }
            },
    }
}

fn is_ref_key_exec(k: &String) -> (r: bool)
    ensures
        r == is_ref_key(k@),
{
    proof {
        reveal_strlit("$ref");
        reveal_strlit("$schema");
        assert("$ref"@ =~= seq!['$', 'r', 'e', 'f']);
        assert("$schema"@ =~= seq!['$', 's', 'c', 'h', 'e', 'm', 'a']);
    }
    compare_str(k.as_str(), "$ref") == 0 || compare_str(k.as_str(), "$schema") == 0
}

/// Replaces each identifier under a `$ref` or `$schema` key of `value` by the
/// path that `index` gives for it, descending through arrays and all other
/// members. An unknown identifier is kept where `ignore_unknown` is set, and
/// otherwise fails the rewrite at the first one met.
pub fn rewrite_refs(index: &Index, value: &Json, ignore_unknown: bool) -> (r: Result<Json, RewriteError>)
    ensures
        r is Ok <==> (ignore_unknown || unknown_ids(index@, *value).len() == 0),
        r matches Ok(out) ==> rewritten(index@, *value, out),
        r matches Err(RewriteError::UnknownId { id }) ==> unknown_ids(index@, *value).len() > 0
            && id@ == unknown_ids(index@, *value)[0],
    decreases value,
{
    match value {
        Json::Null => Ok(Json::Null),
        Json::Bool(b) => Ok(Json::Bool(*b)),
        Json::Number(n) => Ok(Json::Number(n.clone())),
        Json::Str(s) => Ok(Json::Str(s.clone())),
        Json::Array(v) => {
            let mut out: Vec<Json> = Vec::new();
            let mut i: usize = 0;
            while i < v.len()
                invariant
                    i <= v@.len(),
                    out@.len() == i,
                    *value == Json::Array(*v),
                    forall|q: int| 0 <= q < i ==> rewritten(index@, #[trigger] v@[q], out@[q]),
                    ignore_unknown || unknown_ids_upto(index@, *value, i as int).len() == 0,
                decreases v@.len() - i,
            {
                let child = &v[i];
                proof {
                    axiom_vec_index_decreases(*v, i as int);
                    assert(*child == v[i as int]);
                    assert(value->Array_0 == *v);
                    assert(decreases_to!(*value => value->Array_0));
                }
                match rewrite_refs(index, child, ignore_unknown) {
                    Ok(w) => out.push(w),
                    Err(e) => {
                        proof {
                            assert(unknown_ids_upto(index@, *value, i + 1) == unknown_ids_upto(index@, *value, i as int) + unknown_ids(index@, v@[i as int]));
                            lemma_upto_prefix(index@, *value, i + 1, v@.len() as int);
                        }
                        return Err(e);
                    },
                }
                i = i + 1;
            }
            Ok(Json::Array(out))
        },
        Json::Object(v) => {
            let mut out: Vec<(String, Json)> = Vec::new();
            let mut i: usize = 0;
            while i < v.len()
                invariant
                    i <= v@.len(),
                    out@.len() == i,
                    *value == Json::Object(*v),
                    forall|q: int| 0 <= q < i ==> {
                        let k = (#[trigger] v@[q]).0@;
                        let w = out@[q];
                        &&& w.0@ == k
                        &&& if is_ref_key(k) && v@[q].1 is Str {
                            let id = v@[q].1->Str_0@;
                            w.1 is Str && w.1->Str_0@ == if index@.contains_key(id) {
                                entry_path(index@[id])
                            } else {
                                id
                            }
                        } else {
                            rewritten(index@, v@[q].1, w.1)
                        }
                    },
                    ignore_unknown || unknown_ids_upto(index@, *value, i as int).len() == 0,
                decreases v@.len() - i,
            {
                let k = &v[i].0;
                let child = &v[i].1;
                let key_is_ref = is_ref_key_exec(k);
                let ref_id: Option<&String> = if key_is_ref {
                    match child {
                        Json::Str(s) => Some(s),
                        _ => None,
                    }
                } else {
                    None
                };
                if let Some(id) = ref_id {
                    match index.get_path(id.as_str()) {
                        Some(p) => out.push((k.clone(), Json::Str(p))),
                        None => {
                            if ignore_unknown {
                                out.push((k.clone(), Json::Str(id.clone())));
                            } else {
                                proof {
                                    assert(unknown_ids_upto(index@, *value, i + 1) == unknown_ids_upto(index@, *value, i as int) + seq![id@]);
                                    lemma_upto_prefix(index@, *value, i + 1, v@.len() as int);
                                }
                                return Err(RewriteError::UnknownId { id: id.clone() });
                            }
                        },
                    }
                } else {
                    proof {
                        axiom_vec_index_decreases(*v, i as int);
                        assert(value->Object_0 == *v);
                        assert(decreases_to!(*value => value->Object_0));
                        assert(decreases_to!(v[i as int] => v[i as int].1));
                    }
                    match rewrite_refs(index, child, ignore_unknown) {
                        Ok(w) => out.push((k.clone(), w)),
                        Err(e) => {
                            proof {
                                assert(unknown_ids_upto(index@, *value, i + 1) == unknown_ids_upto(index@, *value, i as int) + unknown_ids(index@, v@[i as int].1));
                                lemma_upto_prefix(index@, *value, i + 1, v@.len() as int);
                            }
                            return Err(e);
                        },
                    }
                }
                i = i + 1;
            }
            Ok(Json::Object(out))
        },
    }
}

} // verus!
