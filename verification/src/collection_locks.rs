//! The order in which a transaction takes collection write locks: every
//! transaction takes them in ascending order of collection id, each once,
//! so two transactions can never wait on each other.

use vstd::prelude::*;
use crate::text::{contains_name, lex_lt, listed, sorted_distinct, views};

verus! {

/// The collections whose write locks are still to be taken, in the order
/// they are taken: each id of `collection_ids` whose write lock is not in
/// `held_write`, once, in ascending order. A read lock the transaction holds
/// on one of them is given up before its write lock is taken.
pub fn collection_lock_order(collection_ids: &Vec<String>, held_write: &Vec<String>) -> (res: Vec<String>)
    ensures
        forall|j: int, k: int| 0 <= j < k < res@.len() ==> lex_lt(res@[j]@, res@[k]@),
        forall|k: int| 0 <= k < res@.len() ==> views(collection_ids@).contains(#[trigger] res@[k]@)
            && !views(held_write@).contains(res@[k]@),
        forall|i: int| 0 <= i < collection_ids@.len() && !views(held_write@).contains((#[trigger] collection_ids@[i])@)
            ==> listed(res@, collection_ids@[i]@),
{
    let sorted = sorted_distinct(collection_ids);
    let mut out: Vec<String> = Vec::new();
    let mut i: usize = 0;
    while i < sorted.len()
        invariant
            0 <= i <= sorted@.len(),
            forall|k: int| 0 <= k < sorted@.len() ==> views(collection_ids@).contains(#[trigger] sorted@[k]@),
            forall|j: int, k: int| 0 <= j < k < sorted@.len() ==> lex_lt(sorted@[j]@, sorted@[k]@),
            forall|k: int| 0 <= k < out@.len() ==> exists|m: int| 0 <= m < i && (#[trigger] out@[k])@ == sorted@[m]@,
            forall|k: int| 0 <= k < out@.len() ==> !views(held_write@).contains((#[trigger] out@[k])@),
            forall|j: int, k: int| 0 <= j < k < out@.len() ==> lex_lt(out@[j]@, out@[k]@),
            out@.len() > 0 ==> exists|m: int| 0 <= m < i && out@[out@.len() - 1]@ == sorted@[m]@
                && forall|k: int| 0 <= k < out@.len() ==> !lex_lt(sorted@[m]@, (#[trigger] out@[k])@),
            forall|m: int| 0 <= m < i && !views(held_write@).contains((#[trigger] sorted@[m])@) ==> listed(out@, sorted@[m]@),
        decreases sorted.len() - i,
    {
        if !contains_name(held_write, sorted[i].as_str()) {
            let ghost before = out@;
            out.push(sorted[i].clone());
            proof {
                assert(out@[out@.len() - 1]@ == sorted@[i as int]@);
                if before.len() > 0 {
                    let m = choose|m: int| 0 <= m < i && before[before.len() - 1]@ == sorted@[m]@
                        && forall|k: int| 0 <= k < before.len() ==> !lex_lt(sorted@[m]@, (#[trigger] before[k])@);
                    assert forall|j: int, k: int| 0 <= j < k < out@.len() implies lex_lt(out@[j]@, out@[k]@) by {
                        if k == out@.len() - 1 {
                            let mj = choose|mj: int| 0 <= mj < i && (#[trigger] out@[j])@ == sorted@[mj]@;
                            assert(out@[j] == before[j]);
                            assert(lex_lt(sorted@[mj]@, sorted@[i as int]@));
                        } else {
                            assert(out@[j] == before[j] && out@[k] == before[k]);
                        }
                    }
                }
                assert forall|k: int| 0 <= k < out@.len() implies exists|m: int| 0 <= m < i + 1 && (#[trigger] out@[k])@ == sorted@[m]@ by {
                    if k < before.len() {
                        assert(out@[k] == before[k]);
                    }
                }
                assert forall|k: int| 0 <= k < out@.len() implies !lex_lt(sorted@[i as int]@, (#[trigger] out@[k])@) by {
                    if k < before.len() {
                        assert(out@[k] == before[k]);
                        let mk = choose|mk: int| 0 <= mk < i && (#[trigger] before[k])@ == sorted@[mk]@;
                        crate::text::lemma_lex_asym(sorted@[mk]@, sorted@[i as int]@);
                    } else {
                        crate::text::lemma_lex_asym(sorted@[i as int]@, sorted@[i as int]@);
                    }
                }
                assert forall|m: int| 0 <= m < i + 1 && !views(held_write@).contains((#[trigger] sorted@[m])@)
                    implies listed(out@, sorted@[m]@) by {
                    if m < i {
                        let k = choose|k: int| 0 <= k < before.len() && before[k]@ == sorted@[m]@;
                        assert(out@[k] == before[k]);
                    } else {
                        assert(out@[out@.len() - 1]@ == sorted@[m]@);
                    }
                }
            }
        }
        i += 1;
    }
    proof {
        assert forall|k: int| 0 <= k < out@.len() implies views(collection_ids@).contains(#[trigger] out@[k]@)
            && !views(held_write@).contains(out@[k]@) by {
            let m = choose|m: int| 0 <= m < sorted@.len() && (#[trigger] out@[k])@ == sorted@[m]@;
            assert(views(collection_ids@).contains(sorted@[m]@));
        }
        assert forall|i2: int| 0 <= i2 < collection_ids@.len() && !views(held_write@).contains((#[trigger] collection_ids@[i2])@)
            implies listed(out@, collection_ids@[i2]@) by {
            assert(listed(sorted@, collection_ids@[i2]@));
            let m = choose|m: int| 0 <= m < sorted@.len() && sorted@[m]@ == collection_ids@[i2]@;
            assert(!views(held_write@).contains(sorted@[m]@));
        }
    }
    out
}

} // verus!
