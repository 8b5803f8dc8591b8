//! The view sorter: the view-index space `[0, views)` is split into one
//! contiguous half-open bucket per source folder, and each folder
//! contributes exactly those of its files whose parsed view index falls in
//! its own bucket. Indices at or above `(views / folders) * folders` fall in
//! no bucket and are dropped by design.

use vstd::arithmetic::div_mod::{
    lemma_fundamental_div_mod, lemma_fundamental_div_mod_converse_div, lemma_mod_bound,
};
use vstd::arithmetic::mul::{lemma_mul_inequality, lemma_mul_is_commutative};
use vstd::prelude::*;

use crate::filter_util::{lemma_filter_take_step, lemma_take_all};
use crate::parse::view_index_of;

verus! {

/// Width of every bucket: `views / folders`, truncating.
pub open spec fn bucket_width(views: nat, folders: nat) -> nat
    recommends
        folders > 0,
{
    views / folders
}

/// First view index of folder `i`'s bucket.
pub open spec fn bucket_lo(views: nat, folders: nat, i: nat) -> nat {
    bucket_width(views, folders) * i
}

/// First view index past folder `i`'s bucket.
pub open spec fn bucket_hi(views: nat, folders: nat, i: nat) -> nat {
    bucket_width(views, folders) * (i + 1)
}

/// A name belongs to folder `i`'s bucket when its view index parses and
/// falls in `[bucket_lo, bucket_hi)`.
pub open spec fn in_bucket(views: nat, folders: nat, i: nat, name: Seq<u8>) -> bool {
    match view_index_of(name) {
        Some(v) => bucket_lo(views, folders, i) <= v < bucket_hi(views, folders, i),
        None => false,
    }
}

/// The bucket-membership test for folder `i`, as a predicate on names.
pub open spec fn bucket_pred(views: nat, folders: nat, i: nat) -> spec_fn(Vec<u8>) -> bool {
    |name: Vec<u8>| in_bucket(views, folders, i, name@)
}

/// Buckets are contiguous, pairwise disjoint, and cover exactly
/// `[0, (views / folders) * folders)`: a view index below that bound lies
/// in exactly one bucket, and one at or above it lies in none.
pub proof fn lemma_buckets_partition(views: nat, folders: nat, v: nat)
    requires
        folders >= 1,
    ensures
        forall|i: nat|
            #[trigger] bucket_hi(views, folders, i) == bucket_lo(views, folders, i + 1),
        (v < bucket_width(views, folders) * folders) <==> (exists|i: nat|
            i < folders && #[trigger] bucket_lo(views, folders, i) <= v < bucket_hi(
                views,
                folders,
                i,
            )),
        forall|i: nat, j: nat|
            i < folders && j < folders && #[trigger] bucket_lo(views, folders, i) <= v
                < bucket_hi(views, folders, i) && #[trigger] bucket_lo(views, folders, j) <= v
                < bucket_hi(views, folders, j) ==> i == j,
{
    let w = bucket_width(views, folders);
    assert forall|i: nat| #[trigger]
        bucket_hi(views, folders, i) == bucket_lo(views, folders, i + 1) by {
        assert(w * (i + 1) == w * ((i + 1) as nat));
    }
    if v < w * folders {
        // witness: the bucket of ordinal v / w (w > 0 since w * folders > v >= 0)
        assert(w > 0) by {
            if w == 0 {
                assert(w * folders == 0) by (nonlinear_arith)
                    requires w == 0;
            }
        }
        let i = v / w;
        lemma_fundamental_div_mod(v as int, w as int);
        assert(v == w * i + (v % w));
        assert(i < folders) by {
            if i >= folders {
                lemma_mul_inequality(folders as int, i as int, w as int);
                assert(folders * (w as int) <= (i as int) * (w as int));
            }
        }
        assert(bucket_lo(views, folders, i) <= v < bucket_hi(views, folders, i)) by {
            assert(w * i <= v);
            assert(v < w * i + w);
            assert(w * (i + 1) == w * i + w) by {
                assert(w * (i + 1) == w * i + w * 1) by (nonlinear_arith);
            }
        }
    }
    assert forall|i: nat|
        i < folders && #[trigger] bucket_lo(views, folders, i) <= v < bucket_hi(views, folders, i)
        implies v < w * folders by {
        assert(v < w * (i + 1));
        lemma_mul_inequality((i + 1) as int, folders as int, w as int);
        assert((i + 1) as int * w as int <= folders as int * w as int);
    }
    assert forall|i: nat, j: nat|
        i < folders && j < folders && #[trigger] bucket_lo(views, folders, i) <= v < bucket_hi(
            views,
            folders,
            i,
        ) && #[trigger] bucket_lo(views, folders, j) <= v < bucket_hi(views, folders, j) implies i
        == j by {
        assert(w > 0) by {
            if w == 0 {
                assert(bucket_lo(views, folders, i) == 0 && bucket_hi(views, folders, i) == 0);
            }
        }
        assert(w * (i + 1) == w * i + w) by (nonlinear_arith);
        assert(w * (j + 1) == w * j + w) by (nonlinear_arith);
        lemma_fundamental_div_mod_converse_div(v as int, w as int, i as int, v - w * i);
        lemma_fundamental_div_mod_converse_div(v as int, w as int, j as int, v - w * j);
    }
}

/// The names of one source folder that belong to folder `i`'s bucket, in
/// their original order: exactly the files the sorter copies from it.
#[verifier::loop_isolation(false)]
pub fn select_for_bucket(names: Vec<Vec<u8>>, views: usize, folders: usize, i: usize) -> (r: Vec<
    Vec<u8>,
>)
    requires
        1 <= folders,
        i < folders,
    ensures
        r@ == names@.filter(bucket_pred(views as nat, folders as nat, i as nat)),
{
    let ghost pred = bucket_pred(views as nat, folders as nat, i as nat);
    let width = views / folders;
    proof {
        lemma_fundamental_div_mod(views as int, folders as int);
        lemma_mod_bound(views as int, folders as int);
        lemma_mul_inequality(i as int, folders as int, width as int);
        lemma_mul_inequality(i as int + 1, folders as int, width as int);
        assert((folders as int) * (width as int) <= views as int);
        lemma_mul_is_commutative(width as int, i as int);
        lemma_mul_is_commutative(width as int, i as int + 1);
        assert((width as int) * (i as int) <= views as int);
        assert((width as int) * (i as int + 1) <= views as int);
    }
    let lo = width * i;
    let hi = width * (i + 1);
    proof {
        assert(lo == bucket_lo(views as nat, folders as nat, i as nat));
        assert(hi == bucket_hi(views as nat, folders as nat, i as nat));
    }
    let ghost all = names@;
    let mut rest = names;
    let mut out: Vec<Vec<u8>> = Vec::new();
    proof {
        assert(all.skip(0) =~= all);
        assert(all.take(0).filter(pred) =~= Seq::<Vec<u8>>::empty());
    }
    while rest.len() > 0
        invariant
            rest@.len() <= all.len(),
            rest@ == all.skip(all.len() - rest@.len()),
            out@ == all.take(all.len() - rest@.len()).filter(pred),
        decreases rest@.len(),
    {
        let ghost j = all.len() - rest@.len();
        let name = rest.remove(0);
        proof {
            assert(all.skip(j).remove(0) =~= all.skip(j + 1));
            assert(name == all[j]);
            lemma_filter_take_step(all, pred, j);
        }
        let keep = match crate::parse::parse_view_index(name.as_slice()) {
            Some(v) => lo <= v && v < hi,
            None => false,
        };
        if keep {
            out.push(name);
        }
    }
    proof {
        lemma_take_all(all);
    }
    out
}

/// The whole sorter plan: for each source folder (in the order supplied),
/// the names it contributes to the consolidated destination. Folder `i`
/// contributes exactly its names whose view index lies in bucket `i`.
#[verifier::loop_isolation(false)]
pub fn sort_plan(folders: Vec<Vec<Vec<u8>>>, views: usize) -> (r: Vec<Vec<Vec<u8>>>)
    ensures
        r@.len() == folders@.len(),
        forall|i: int|
            0 <= i < folders@.len() ==> #[trigger] r@[i]@ == folders@[i]@.filter(
                bucket_pred(views as nat, folders@.len() as nat, i as nat),
            ),
{
    let count = folders.len();
    let ghost all = folders@;
    let mut rest = folders;
    let mut out: Vec<Vec<Vec<u8>>> = Vec::new();
    proof {
        assert(all.skip(0) =~= all);
    }
    while rest.len() > 0
        invariant
            rest@.len() <= all.len(),
            rest@ == all.skip(all.len() - rest@.len()),
            out@.len() == all.len() - rest@.len(),
            count == all.len(),
            forall|i: int|
                0 <= i < out@.len() ==> #[trigger] out@[i]@ == all[i]@.filter(
                    bucket_pred(views as nat, count as nat, i as nat),
                ),
        decreases rest@.len(),
    {
        let ghost j = all.len() - rest@.len();
        let folder = rest.remove(0);
        proof {
            assert(all.skip(j).remove(0) =~= all.skip(j + 1));
            assert(folder == all[j]);
        }
        let selected = select_for_bucket(folder, views, count, out.len());
        out.push(selected);
    }
    out
}

} // verus!
