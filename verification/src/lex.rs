use vstd::prelude::*;

verus! {

use core::cmp::Ordering;

/// Lexicographic comparison of two equally long byte sequences: the first
/// differing position decides; equal sequences compare as `Equal`.
pub open spec fn lex_cmp(a: Seq<u8>, b: Seq<u8>) -> Ordering
    recommends
        a.len() == b.len(),
    decreases a.len(),
{
    if a.len() == 0 || b.len() == 0 {
        Ordering::Equal
    } else if a[0] < b[0] {
        Ordering::Less
    } else if a[0] > b[0] {
        Ordering::Greater
    } else {
        lex_cmp(a.drop_first(), b.drop_first())
    }
}

/// A sequence always compares as `Equal` with itself.
pub proof fn lemma_lex_cmp_refl(a: Seq<u8>)
    ensures
        lex_cmp(a, a) == Ordering::Equal,
    decreases a.len(),
{
    if a.len() != 0 {
        lemma_lex_cmp_refl(a.drop_first());
    }
}

/// Swapping the arguments of `lex_cmp` reverses the outcome.
pub proof fn lemma_lex_cmp_antisym(a: Seq<u8>, b: Seq<u8>)
    requires
        a.len() == b.len(),
    ensures
        (lex_cmp(a, b) == Ordering::Less) <==> (lex_cmp(b, a) == Ordering::Greater),
        (lex_cmp(a, b) == Ordering::Equal) <==> (lex_cmp(b, a) == Ordering::Equal),
    decreases a.len(),
{
    if a.len() != 0 && a[0] == b[0] {
        lemma_lex_cmp_antisym(a.drop_first(), b.drop_first());
    }
}

/// `lex_cmp` answers `Equal` exactly on equal sequences.
pub proof fn lemma_lex_cmp_equal_is_eq(a: Seq<u8>, b: Seq<u8>)
    requires
        a.len() == b.len(),
    ensures
        (lex_cmp(a, b) == Ordering::Equal) <==> (a == b),
    decreases a.len(),
{
    if a.len() == 0 {
        assert(a =~= b);
    } else {
        lemma_lex_cmp_equal_is_eq(a.drop_first(), b.drop_first());
        if lex_cmp(a, b) == Ordering::Equal {
            assert(a.drop_first() == b.drop_first());
            assert forall|i: int| 0 <= i < a.len() implies a[i] == b[i] by {
                if i > 0 {
                    assert(a[i] == a.drop_first()[i - 1]);
                    assert(b[i] == b.drop_first()[i - 1]);
                }
            }
            assert(a =~= b);
        }
    }
}

/// `lex_cmp` is transitive in its non-strict form, and strict on one strict
/// hypothesis.
pub proof fn lemma_lex_cmp_trans(a: Seq<u8>, b: Seq<u8>, c: Seq<u8>)
    requires
        a.len() == b.len(),
        b.len() == c.len(),
        lex_cmp(a, b) != Ordering::Greater,
        lex_cmp(b, c) != Ordering::Greater,
    ensures
        lex_cmp(a, c) != Ordering::Greater,
        (lex_cmp(a, b) == Ordering::Less || lex_cmp(b, c) == Ordering::Less) ==> lex_cmp(
            a,
            c,
        ) == Ordering::Less,
    decreases a.len(),
{
    if a.len() != 0 {
        if a[0] == b[0] && b[0] == c[0] {
            lemma_lex_cmp_trans(a.drop_first(), b.drop_first(), c.drop_first());
        }
    }
}

/// When the first `k` positions agree and position `k` differs, position `k`
/// alone decides the comparison.
pub proof fn lemma_lex_cmp_first_diff(a: Seq<u8>, b: Seq<u8>, k: int)
    requires
        a.len() == b.len(),
        0 <= k < a.len(),
        forall|j: int| 0 <= j < k ==> a[j] == b[j],
        a[k] != b[k],
    ensures
        lex_cmp(a, b) == (if a[k] < b[k] {
            Ordering::Less
        } else {
            Ordering::Greater
        }),
    decreases k,
{
    if k > 0 {
        assert(a[0] == b[0]);
        assert(forall|j: int| 0 <= j < k - 1 ==> a.drop_first()[j] == b.drop_first()[j]);
        lemma_lex_cmp_first_diff(a.drop_first(), b.drop_first(), k - 1);
    }
}

/// Runtime lexicographic comparison of two equally long byte vectors.
pub fn lex_compare(a: &Vec<u8>, b: &Vec<u8>) -> (r: Ordering)
    requires
        a@.len() == b@.len(),
    ensures
        r == lex_cmp(a@, b@),
{
    let mut i: usize = 0;
    while i < a.len()
        invariant
            i <= a@.len(),
            a@.len() == b@.len(),
            forall|j: int| 0 <= j < i ==> a@[j] == b@[j],
        decreases a@.len() - i,
    {
        if a[i] < b[i] {
            proof {
                lemma_lex_cmp_first_diff(a@, b@, i as int);
            }
            return Ordering::Less;
        }
        if a[i] > b[i] {
            proof {
                lemma_lex_cmp_first_diff(a@, b@, i as int);
            }
            return Ordering::Greater;
        }
        i += 1;
    }
    proof {
        assert(a@ =~= b@);
        lemma_lex_cmp_refl(a@);
    }
    Ordering::Equal
}

} // verus!
