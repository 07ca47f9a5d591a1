use vstd::prelude::*;

verus! {

/// Strict lexicographic order on character sequences, by code point; this is
/// the order of `str`, whose bytes are UTF-8.
pub open spec fn lex_lt(a: Seq<char>, b: Seq<char>) -> bool
    decreases a.len(),
{
    if b.len() == 0 {
        false
    } else if a.len() == 0 {
        true
    } else if a[0] != b[0] {
        a[0] < b[0]
    } else {
        lex_lt(a.drop_first(), b.drop_first())
    }
}

pub open spec fn lex_le(a: Seq<char>, b: Seq<char>) -> bool {
    lex_lt(a, b) || a == b
}

/// Strict order on pairs, the first component deciding first.
pub open spec fn pair_lt(a: (Seq<char>, Seq<char>), b: (Seq<char>, Seq<char>)) -> bool {
    lex_lt(a.0, b.0) || (a.0 == b.0 && lex_lt(a.1, b.1))
}

/// `a` comes before `b` or equals it, in `pair_lt`'s order.
pub open spec fn pair_le(a: (Seq<char>, Seq<char>), b: (Seq<char>, Seq<char>)) -> bool {
    pair_lt(a, b) || a == b
}

pub proof fn lemma_lex_irreflexive(a: Seq<char>)
    ensures
        !lex_lt(a, a),
    decreases a.len(),
{
    if a.len() > 0 {
        lemma_lex_irreflexive(a.drop_first());
    }
}

pub proof fn lemma_lex_transitive(a: Seq<char>, b: Seq<char>, c: Seq<char>)
    requires
        lex_lt(a, b),
        lex_lt(b, c),
    ensures
        lex_lt(a, c),
    decreases a.len(),
{
    if a.len() > 0 && b.len() > 0 && c.len() > 0 {
        if a[0] == b[0] && b[0] == c[0] {
            lemma_lex_transitive(a.drop_first(), b.drop_first(), c.drop_first());
        }
    }
}

pub proof fn lemma_lex_total(a: Seq<char>, b: Seq<char>)
    ensures
        lex_lt(a, b) || lex_lt(b, a) || a == b,
    decreases a.len(),
{
    if a.len() > 0 && b.len() > 0 && a[0] == b[0] {
        lemma_lex_total(a.drop_first(), b.drop_first());
        if a.drop_first() == b.drop_first() {
            assert(a =~= seq![a[0]] + a.drop_first());
            assert(b =~= seq![b[0]] + b.drop_first());
        }
    } else if a.len() == 0 && b.len() == 0 {
        assert(a =~= b);
    } else if a.len() > 0 && b.len() > 0 {
        assert(a[0] < b[0] || b[0] < a[0]);
    }
}

pub proof fn lemma_lex_asymmetric(a: Seq<char>, b: Seq<char>)
    requires
        lex_lt(a, b),
    ensures
        !lex_lt(b, a),
{
    if lex_lt(b, a) {
        lemma_lex_transitive(a, b, a);
        lemma_lex_irreflexive(a);
    }
}

pub proof fn lemma_pair_transitive(a: (Seq<char>, Seq<char>), b: (Seq<char>, Seq<char>), c: (Seq<char>, Seq<char>))
    requires
        pair_lt(a, b),
        pair_lt(b, c),
    ensures
        pair_lt(a, c),
{
    if lex_lt(a.0, b.0) && lex_lt(b.0, c.0) {
        lemma_lex_transitive(a.0, b.0, c.0);
    }
    if a.0 == b.0 && b.0 == c.0 {
        lemma_lex_irreflexive(a.0);
        lemma_lex_transitive(a.1, b.1, c.1);
    }
}

pub proof fn lemma_pair_total(a: (Seq<char>, Seq<char>), b: (Seq<char>, Seq<char>))
    ensures
        pair_lt(a, b) || pair_lt(b, a) || a == b,
{
    lemma_lex_total(a.0, b.0);
    lemma_lex_total(a.1, b.1);
}

pub proof fn lemma_pair_irreflexive(a: (Seq<char>, Seq<char>))
    ensures
        !pair_lt(a, a),
{
    lemma_lex_irreflexive(a.0);
    lemma_lex_irreflexive(a.1);
}

pub proof fn lemma_pair_asymmetric(a: (Seq<char>, Seq<char>), b: (Seq<char>, Seq<char>))
    requires
        pair_lt(a, b),
    ensures
        !pair_lt(b, a),
{
    if pair_lt(b, a) {
        lemma_pair_transitive(a, b, a);
        lemma_pair_irreflexive(a);
    }
}

proof fn lemma_lex_common_prefix(a: Seq<char>, b: Seq<char>, i: int)
    requires
        0 <= i <= a.len(),
        i <= b.len(),
        a.subrange(0, i) == b.subrange(0, i),
    ensures
        lex_lt(a, b) == lex_lt(a.subrange(i, a.len() as int), b.subrange(i, b.len() as int)),
    decreases i,
{
    if i > 0 {
        assert(a[0] == a.subrange(0, i)[0]);
        assert(b[0] == b.subrange(0, i)[0]);
        assert(a.drop_first().subrange(0, i - 1) =~= a.subrange(0, i).drop_first());
        assert(b.drop_first().subrange(0, i - 1) =~= b.subrange(0, i).drop_first());
        lemma_lex_common_prefix(a.drop_first(), b.drop_first(), i - 1);
        assert(a.drop_first().subrange(i - 1, a.len() - 1) =~= a.subrange(i, a.len() as int));
        assert(b.drop_first().subrange(i - 1, b.len() - 1) =~= b.subrange(i, b.len() as int));
    } else {
        assert(a.subrange(0, a.len() as int) =~= a);
        assert(b.subrange(0, b.len() as int) =~= b);
    }
}

/// Compares two strings: negative when `a` comes first, zero when they are
/// equal, positive when `b` comes first.
pub fn compare_str(a: &str, b: &str) -> (r: i8)
    ensures
        r < 0 <==> lex_lt(a@, b@),
        r == 0 <==> a@ == b@,
        r > 0 <==> lex_lt(b@, a@),
{
    let alen = a.unicode_len();
    let blen = b.unicode_len();
    let mut i: usize = 0;
    while i < alen && i < blen
        invariant
            alen == a@.len(),
            blen == b@.len(),
            i <= alen,
            i <= blen,
            a@.subrange(0, i as int) == b@.subrange(0, i as int),
        decreases alen - i,
    {
        let ca = a.get_char(i);
        let cb = b.get_char(i);
        if ca != cb {
            proof {
                lemma_lex_common_prefix(a@, b@, i as int);
                lemma_lex_common_prefix(b@, a@, i as int);
                assert(a@.subrange(i as int, a@.len() as int)[0] == ca);
                assert(b@.subrange(i as int, b@.len() as int)[0] == cb);
                if a@ == b@ {
                    assert(a@[i as int] == b@[i as int]);
                }
            }
            if ca < cb {
                return -1;
            } else {
                return 1;
            }
        }
        proof {
            assert(a@.subrange(0, i + 1) =~= a@.subrange(0, i as int).push(ca));
            assert(b@.subrange(0, i + 1) =~= b@.subrange(0, i as int).push(cb));
        }
        i = i + 1;
    }
    proof {
        lemma_lex_common_prefix(a@, b@, i as int);
        lemma_lex_common_prefix(b@, a@, i as int);
        lemma_lex_irreflexive(a@);
        if i == alen && i == blen {
            assert(a@.subrange(0, i as int) =~= a@);
            assert(b@.subrange(0, i as int) =~= b@);
        }
        if a@ == b@ {
            assert(alen == blen);
        }
    }
    if alen < blen {
        -1
    } else if blen < alen {
        1
    } else {
        0
    }
}

/// Compares the pairs (`a0`, `a1`) and (`b0`, `b1`) in `pair_lt`'s order:
/// negative when the first comes first, zero when they are equal.
pub fn compare_pairs(a0: &str, a1: &str, b0: &str, b1: &str) -> (r: i8)
    ensures
        r < 0 <==> pair_lt((a0@, a1@), (b0@, b1@)),
        r == 0 <==> (a0@, a1@) == (b0@, b1@),
{
    let c = compare_str(a0, b0);
    if c != 0 {
        proof {
            lemma_lex_irreflexive(a0@);
            if c > 0 {
                lemma_lex_asymmetric(b0@, a0@);
            }
        }
        c
    } else {
        compare_str(a1, b1)
    }
}

} // verus!
