//! Lexicographic ordering of file names (as byte strings) and a verified
//! sort: the quilt composer consumes the consolidated folder's listing in
//! lexicographic order, so ordering is part of the core logic.

use vstd::multiset::Multiset;
use vstd::prelude::*;

verus! {

/// Lexicographic "less than or equal" on byte strings.
pub open spec fn lex_leq(a: Seq<u8>, b: Seq<u8>) -> bool
    decreases a.len(),
{
    if a.len() == 0 {
        true
    } else if b.len() == 0 {
        false
    } else if a[0] != b[0] {
        a[0] < b[0]
    } else {
        lex_leq(a.drop_first(), b.drop_first())
    }
}

pub proof fn lemma_lex_refl(a: Seq<u8>)
    ensures
        lex_leq(a, a),
    decreases a.len(),
{
    if a.len() > 0 {
        lemma_lex_refl(a.drop_first());
    }
}

pub proof fn lemma_lex_total(a: Seq<u8>, b: Seq<u8>)
    ensures
        lex_leq(a, b) || lex_leq(b, a),
    decreases a.len(),
{
    if a.len() > 0 && b.len() > 0 && a[0] == b[0] {
        lemma_lex_total(a.drop_first(), b.drop_first());
    }
}

pub proof fn lemma_lex_trans(a: Seq<u8>, b: Seq<u8>, c: Seq<u8>)
    requires
        lex_leq(a, b),
        lex_leq(b, c),
    ensures
        lex_leq(a, c),
    decreases a.len(),
{
    if a.len() > 0 && b.len() > 0 && c.len() > 0 && a[0] == b[0] && b[0] == c[0] {
        lemma_lex_trans(a.drop_first(), b.drop_first(), c.drop_first());
    }
}

/// The views of a sequence of byte-string names.
pub open spec fn names_view(s: Seq<Vec<u8>>) -> Seq<Seq<u8>> {
    s.map_values(|v: Vec<u8>| v@)
}

/// Every pair of entries is in lexicographic order.
pub open spec fn lex_sorted(s: Seq<Seq<u8>>) -> bool {
    forall|p: int, q: int| 0 <= p < q < s.len() ==> lex_leq(#[trigger] s[p], #[trigger] s[q])
}

/// Lexicographic comparison of two byte strings.
#[verifier::loop_isolation(false)]
pub fn lex_leq_bytes(a: &Vec<u8>, b: &Vec<u8>) -> (r: bool)
    ensures
        r == lex_leq(a@, b@),
{
    let mut i: usize = 0;
    proof {
        assert(a@.skip(0) =~= a@);
        assert(b@.skip(0) =~= b@);
    }
    while i < a.len() && i < b.len()
        invariant
            i <= a@.len(),
            i <= b@.len(),
            lex_leq(a@, b@) == lex_leq(a@.skip(i as int), b@.skip(i as int)),
            lex_leq(b@, a@) == lex_leq(b@.skip(i as int), a@.skip(i as int)),
        decreases a@.len() - i,
    {
        let x = a[i];
        let y = b[i];
        proof {
            assert(a@.skip(i as int)[0] == a@[i as int]);
            assert(b@.skip(i as int)[0] == b@[i as int]);
        }
        if x < y {
            return true;
        }
        if y < x {
            return false;
        }
        proof {
            assert(a@.skip(i as int).drop_first() =~= a@.skip(i + 1));
            assert(b@.skip(i as int).drop_first() =~= b@.skip(i + 1));
        }
        i = i + 1;
    }
    if i >= a.len() {
        proof {
            assert(a@.skip(i as int).len() == 0);
        }
        true
    } else {
        proof {
            assert(b@.skip(i as int).len() == 0);
            assert(a@.skip(i as int).len() > 0);
        }
        false
    }
}

/// Sort a list of names lexicographically. The result is a reordering of
/// the input: same names with the same multiplicities, in order.
#[verifier::loop_isolation(false)]
pub fn sort_names(names: Vec<Vec<u8>>) -> (r: Vec<Vec<u8>>)
    ensures
        lex_sorted(names_view(r@)),
        names_view(r@).to_multiset() == names_view(names@).to_multiset(),
        r@.len() == names@.len(),
{
    broadcast use vstd::seq_lib::group_to_multiset_ensures;
    broadcast use vstd::multiset::group_multiset_axioms;

    let mut work = names;
    let mut out: Vec<Vec<u8>> = Vec::new();
    while work.len() > 0
        invariant
            lex_sorted(names_view(out@)),
            forall|p: int, q: int|
                0 <= p < out@.len() && 0 <= q < work@.len() ==> lex_leq(
                    #[trigger] names_view(out@)[p],
                    #[trigger] names_view(work@)[q],
                ),
            names_view(out@).to_multiset().add(names_view(work@).to_multiset()) == names_view(
                names@,
            ).to_multiset(),
            out@.len() + work@.len() == names@.len(),
        decreases work@.len(),
    {
        let mut m: usize = 0;
        let mut k: usize = 1;
        proof {
            lemma_lex_refl(names_view(work@)[0]);
        }
        while k < work.len()
            invariant
                m < work@.len(),
                1 <= k <= work@.len(),
                forall|j: int|
                    0 <= j < k ==> lex_leq(
                        names_view(work@)[m as int],
                        #[trigger] names_view(work@)[j],
                    ),
            decreases work@.len() - k,
        {
            if lex_leq_bytes(&work[k], &work[m]) {
                proof {
                    assert forall|j: int| 0 <= j < k + 1 implies lex_leq(
                        names_view(work@)[k as int],
                        #[trigger] names_view(work@)[j],
                    ) by {
                        if j < k {
                            lemma_lex_trans(
                                names_view(work@)[k as int],
                                names_view(work@)[m as int],
                                names_view(work@)[j],
                            );
                        } else {
                            lemma_lex_refl(names_view(work@)[k as int]);
                        }
                    }
                }
                m = k;
            } else {
                proof {
                    lemma_lex_total(names_view(work@)[k as int], names_view(work@)[m as int]);
                }
            }
            k = k + 1;
        }
        let ghost pre_work = work@;
        let ghost pre_out = out@;
        let x = work.remove(m);
        proof {
            assert(names_view(pre_work.remove(m as int)) =~= names_view(pre_work).remove(
                m as int,
            ));
            assert(names_view(pre_work).contains(x@));
            assert(names_view(pre_work).to_multiset().count(x@) > 0);
        }
        out.push(x);
        proof {
            assert(names_view(pre_out.push(x)) =~= names_view(pre_out).push(x@));
            // multiset bookkeeping: moving one name from `work` to `out`
            assert(names_view(out@).to_multiset() =~= names_view(pre_out).to_multiset().insert(
                x@,
            ));
            assert(names_view(work@).to_multiset() =~= names_view(pre_work).to_multiset().remove(
                x@,
            ));
            assert(names_view(out@).to_multiset().add(names_view(work@).to_multiset()) =~= names_view(
                names@,
            ).to_multiset());
        }
    }
    proof {
        assert(names_view(work@).to_multiset() =~= Multiset::empty());
        assert(names_view(out@).to_multiset() =~= names_view(names@).to_multiset());
    }
    out
}

} // verus!
