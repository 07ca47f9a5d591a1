use vstd::prelude::*;

verus! {

/// Appending `p` to the path `base`, as a Unix path buffer does: an absolute `p`
/// replaces `base`; otherwise a `/` separates the two unless `base` is empty or
/// already ends with one. Nothing is normalised.
pub open spec fn path_push(base: Seq<char>, p: Seq<char>) -> Seq<char> {
    if p.len() > 0 && p[0] == '/' {
        p
    } else if base.len() > 0 && base.last() != '/' {
        base + seq!['/'] + p
    } else {
        base + p
    }
}

/// Joins two path segments (see `path_push`).
pub fn join_path(base: &str, p: &str) -> (r: String)
    ensures
        r@ == path_push(base@, p@),
{
    let plen = p.unicode_len();
    if plen > 0 && p.get_char(0) == '/' {
        return p.to_string();
    }
    let blen = base.unicode_len();
    let mut r = base.to_string();
    if blen > 0 && base.get_char(blen - 1) != '/' {
        r.append("/");
    }
    r.append(p);
    proof {
        reveal_strlit("/");
    }
    r
}

} // verus!

verus! {

/// The parent directory of a path, as `std::path::Path::parent` gives it.
pub uninterp spec fn parent_of(p: Seq<char>) -> Option<Seq<char>>;

/// The final component of a path, as `std::path::Path::file_name` gives it.
pub uninterp spec fn file_name_of(p: Seq<char>) -> Option<Seq<char>>;

/// Relies on `std::path::Path::parent`: the path without its final component;
/// none for a path that ends in a root, and for the empty path.
#[verifier::external_body]
pub(crate) fn parent_dir(p: &str) -> (r: Option<String>)
    ensures
        r is Some <==> parent_of(p@) is Some,
        r is Some ==> r->0@ == parent_of(p@)->0,
        p@.len() == 0 ==> r is None,
{
    match std::path::Path::new(p).parent() {
        Some(d) => Some(d.to_string_lossy().to_string()),
        None => None,
    }
}

/// Relies on `std::path::Path::file_name`: the final component of the path;
/// none where the path ends in `..` or is a root.
#[verifier::external_body]
pub(crate) fn file_name(p: &str) -> (r: Option<String>)
    ensures
        r is Some <==> file_name_of(p@) is Some,
        r is Some ==> r->0@ == file_name_of(p@)->0,
{
    match std::path::Path::new(p).file_name() {
        Some(f) => Some(f.to_string_lossy().to_string()),
        None => None,
    }
}

} // verus!
