//! Folder checking: names without the `_v` view marker are "unwanted" and
//! reported to the caller, which may delete them or move them aside; the
//! sorter and composer never touch them.

use vstd::prelude::*;

use crate::filter_util::{lemma_filter_take_step, lemma_take_all};
use crate::parse::{first_marker, has_view_marker};

verus! {

/// A name lacking the `_v` view marker.
pub open spec fn unwanted_pred() -> spec_fn(Vec<u8>) -> bool {
    |name: Vec<u8>| first_marker(name@) is None
}

/// The names of a folder listing that do not carry the `_v` marker, in
/// listing order.
#[verifier::loop_isolation(false)]
pub fn unwanted_files(names: Vec<Vec<u8>>) -> (r: Vec<Vec<u8>>)
    ensures
        r@ == names@.filter(unwanted_pred()),
{
    let ghost all = names@;
    let ghost pred = unwanted_pred();
    let mut rest = names;
    let mut out: Vec<Vec<u8>> = Vec::new();
    proof {
        assert(all.skip(0) =~= all);
        assert(all.take(0).filter(pred) =~= Seq::<Vec<u8>>::empty());
    }
    while rest.len() > 0
        invariant
            rest@.len() <= all.len(),
            rest@ == all.skip(all.len() - rest@.len()),
            out@ == all.take(all.len() - rest@.len()).filter(pred),
        decreases rest@.len(),
    {
        let ghost j = all.len() - rest@.len();
        let name = rest.remove(0);
        proof {
            assert(all.skip(j).remove(0) =~= all.skip(j + 1));
            assert(name == all[j]);
            lemma_filter_take_step(all, pred, j);
        }
        if !has_view_marker(name.as_slice()) {
            out.push(name);
        }
    }
    proof {
        lemma_take_all(all);
    }
    out
}

} // verus!
