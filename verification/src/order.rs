//! The order of file names: character by character, a proper prefix before
//! the longer text. This is the order in which `str` compares.

use vstd::prelude::*;
use crate::text::{chars_of, texts_of};

verus! {

/// The number of leading characters that `a` and `b` share.
pub open spec fn common_prefix(a: Seq<char>, b: Seq<char>) -> int
    decreases a.len(),
{
    if a.len() == 0 || b.len() == 0 || a[0] != b[0] {
        0
    } else {
        1 + common_prefix(a.drop_first(), b.drop_first())
    }
}

/// Whether `a` comes strictly before `b`: at the first place where they
/// differ `a` has the smaller character, or `a` ends there and `b` goes on.
pub open spec fn lex_less(a: Seq<char>, b: Seq<char>) -> bool {
    let k = common_prefix(a, b);
    if k < a.len() && k < b.len() {
        a[k] < b[k]
    } else {
        a.len() < b.len()
    }
}

/// Whether `a` comes before `b` or is `b`.
pub open spec fn lex_le(a: Seq<char>, b: Seq<char>) -> bool {
    !lex_less(b, a)
}

/// Whether each name of `v` comes before, or is, every later one.
pub open spec fn sorted(v: Seq<Seq<char>>) -> bool {
    forall|i: int, j: int| 0 <= i < j < v.len() ==> lex_le(#[trigger] v[i], #[trigger] v[j])
}

/// `common_prefix` lies within both texts, the texts agree before it, and
/// they differ at it where both go on.
pub proof fn lemma_common_prefix(a: Seq<char>, b: Seq<char>)
    ensures
        0 <= common_prefix(a, b) <= a.len(),
        common_prefix(a, b) <= b.len(),
        forall|i: int| 0 <= i < common_prefix(a, b) ==> a[i] == b[i],
        common_prefix(a, b) < a.len() && common_prefix(a, b) < b.len() ==> a[common_prefix(a, b)]
            != b[common_prefix(a, b)],
        common_prefix(a, b) == common_prefix(b, a),
    decreases a.len(),
{
    if a.len() == 0 || b.len() == 0 || a[0] != b[0] {
    } else {
        let x = a.drop_first();
        let y = b.drop_first();
        lemma_common_prefix(x, y);
        let k = common_prefix(x, y);
        assert forall|i: int| 0 <= i < k + 1 implies a[i] == b[i] by {
            if i > 0 {
                assert(a[i] == x[i - 1]);
                assert(b[i] == y[i - 1]);
            }
        }
        if k < x.len() && k < y.len() {
            assert(a[k + 1] == x[k]);
            assert(b[k + 1] == y[k]);
        }
    }
}

/// A position with the properties of `common_prefix` is `common_prefix`.
pub proof fn lemma_common_prefix_is(a: Seq<char>, b: Seq<char>, k: int)
    requires
        0 <= k <= a.len(),
        k <= b.len(),
        forall|i: int| 0 <= i < k ==> a[i] == b[i],
        k < a.len() && k < b.len() ==> a[k] != b[k],
    ensures
        common_prefix(a, b) == k,
{
    lemma_common_prefix(a, b);
    let q = common_prefix(a, b);
    if q < k {
        assert(a[q] == b[q]);
    } else if k < q {
        assert(a[k] == b[k]);
    }
}

/// Of two different texts exactly one comes before the other, and no text
/// comes before itself.
pub proof fn lemma_lex_total(a: Seq<char>, b: Seq<char>)
    ensures
        a == b ==> !lex_less(a, b),
        a != b ==> (lex_less(a, b) <==> !lex_less(b, a)),
        lex_le(a, b) <==> (a == b || lex_less(a, b)),
{
    lemma_common_prefix(a, b);
    lemma_common_prefix(b, a);
    let k = common_prefix(a, b);
    if a.len() == b.len() && k == a.len() {
        assert(a =~= b);
    }
}

/// The order is transitive.
pub proof fn lemma_lex_less_transitive(a: Seq<char>, b: Seq<char>, c: Seq<char>)
    requires
        lex_less(a, b),
        lex_less(b, c),
    ensures
        lex_less(a, c),
{
    lemma_common_prefix(a, b);
    lemma_common_prefix(b, c);
    let k1 = common_prefix(a, b);
    let k2 = common_prefix(b, c);
    let k = if k1 < k2 {
        k1
    } else {
        k2
    };
    assert forall|i: int| 0 <= i < k implies a[i] == c[i] by {
        assert(a[i] == b[i]);
        assert(b[i] == c[i]);
    }
    lemma_common_prefix_is(a, c, k);
}

/// `lex_le` is transitive.
pub proof fn lemma_lex_le_transitive(a: Seq<char>, b: Seq<char>, c: Seq<char>)
    requires
        lex_le(a, b),
        lex_le(b, c),
    ensures
        lex_le(a, c),
{
    lemma_lex_total(a, b);
    lemma_lex_total(b, c);
    lemma_lex_total(a, c);
    if a != b && b != c {
        lemma_lex_less_transitive(a, b, c);
    }
}

/// Whether `a` comes strictly before `b`.
pub fn less(a: &str, b: &str) -> (r: bool)
    ensures
        r == lex_less(a@, b@),
{
    let x = chars_of(a);
    let y = chars_of(b);
    let mut k: usize = 0;
    while k < x.len() && k < y.len() && x[k] == y[k]
        invariant
            k <= x.len(),
            k <= y.len(),
            forall|i: int| 0 <= i < k ==> x@[i] == y@[i],
        decreases x.len() - k,
    {
        k += 1;
    }
    proof {
        lemma_common_prefix_is(x@, y@, k as int);
    }
    if k < x.len() && k < y.len() {
        x[k] < y[k]
    } else {
        x.len() < y.len()
    }
}

/// Puts `x` into the sorted `v` behind every name that is not greater.
pub fn insert_sorted(v: &mut Vec<String>, x: String)
    requires
        sorted(texts_of(old(v)@)),
    ensures
        sorted(texts_of(final(v)@)),
        texts_of(final(v)@).to_multiset() == texts_of(old(v)@).to_multiset().insert(x@),
        final(v)@.len() == old(v)@.len() + 1,
{
    let ghost before = texts_of(v@);
    let mut p: usize = v.len();
    while p > 0 && less(x.as_str(), v[p - 1].as_str())
        invariant
            p <= v.len(),
            v@ == old(v)@,
            before == texts_of(v@),
            forall|j: int| p <= j < v.len() ==> lex_less(x@, #[trigger] before[j]),
        decreases p,
    {
        p -= 1;
    }
    v.insert(p, x);
    proof {
        let after = texts_of(v@);
        assert(after =~= before.insert(p as int, x@));
        vstd::seq_lib::to_multiset_insert(before, p as int, x@);
        assert forall|i: int, j: int| 0 <= i < j < after.len() implies lex_le(
            #[trigger] after[i],
            #[trigger] after[j],
        ) by {
            if j < p {
                assert(after[i] == before[i] && after[j] == before[j]);
            } else if j == p {
                assert(after[i] == before[i]);
                assert(lex_le(before[p - 1], x@));
                if i < p - 1 {
                    assert(lex_le(before[i], before[p - 1]));
                    lemma_lex_le_transitive(before[i], before[p - 1], x@);
                }
            } else if i < p {
                assert(after[i] == before[i] && after[j] == before[j - 1]);
            } else if i == p {
                assert(after[j] == before[j - 1]);
                lemma_lex_total(x@, before[j - 1]);
            } else {
                assert(after[i] == before[i - 1] && after[j] == before[j - 1]);
            }
        }
    }
}

/// Two sorted sequences that hold the same names, each as often as the
/// other, are the same sequence.
pub proof fn lemma_sorted_unique(a: Seq<Seq<char>>, b: Seq<Seq<char>>)
    requires
        sorted(a),
        sorted(b),
        a.to_multiset() == b.to_multiset(),
    ensures
        a == b,
    decreases a.len(),
{
    broadcast use vstd::seq_lib::group_to_multiset_ensures;

    a.to_multiset_ensures();
    b.to_multiset_ensures();
    assert(a.len() == b.len());
    if a.len() > 0 {
        let x = a.last();
        let y = b.last();
        assert(a.contains(x));
        assert(b.to_multiset().count(x) > 0);
        assert(b.contains(x));
        assert(b.contains(y));
        assert(a.to_multiset().count(y) > 0);
        assert(a.contains(y));
        let i = choose|i: int| 0 <= i < b.len() && b[i] == x;
        let j = choose|j: int| 0 <= j < a.len() && a[j] == y;
        assert(lex_le(x, y)) by {
            if i < b.len() - 1 {
                assert(lex_le(b[i], b[b.len() - 1]));
            } else {
                lemma_lex_total(x, y);
            }
        }
        assert(lex_le(y, x)) by {
            if j < a.len() - 1 {
                assert(lex_le(a[j], a[a.len() - 1]));
            } else {
                lemma_lex_total(y, x);
            }
        }
        lemma_lex_total(x, y);
        assert(x == y);
        let a0 = a.drop_last();
        let b0 = b.drop_last();
        assert(a0.push(x) =~= a);
        assert(b0.push(y) =~= b);
        vstd::seq_lib::to_multiset_build(a0, x);
        vstd::seq_lib::to_multiset_build(b0, y);
        assert(a0.to_multiset() =~= a.to_multiset().remove(x));
        assert(b0.to_multiset() =~= b.to_multiset().remove(y));
        assert forall|i: int, j: int| 0 <= i < j < a0.len() implies lex_le(
            #[trigger] a0[i],
            #[trigger] a0[j],
        ) by {
            assert(lex_le(a[i], a[j]));
        }
        assert forall|i: int, j: int| 0 <= i < j < b0.len() implies lex_le(
            #[trigger] b0[i],
            #[trigger] b0[j],
        ) by {
            assert(lex_le(b[i], b[j]));
        }
        lemma_sorted_unique(a0, b0);
    } else {
        assert(a =~= b);
    }
}

} // verus!
