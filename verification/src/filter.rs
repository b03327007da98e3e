use vstd::prelude::*;

use crate::hash::Hash256;
use crate::vocab::{Block, Tx};

verus! {

/// The transactions of `txs`, in their original order, whose
/// signature-stripped hash occurs in `hashes`.
pub open spec fn filter_txs(txs: Seq<Tx>, hashes: Seq<Hash256>) -> Seq<Tx>
    decreases txs.len(),
{
    if txs.len() == 0 {
        Seq::empty()
    } else {
        let rest = filter_txs(txs.drop_last(), hashes);
        if hashes.contains(txs.last().hash_nosigs) {
            rest.push(txs.last())
        } else {
            rest
        }
    }
}

/// Nondecreasing in the byte-lexicographic hash order.
pub open spec fn sorted_hashes(s: Seq<Hash256>) -> bool {
    forall|i: int, j: int| 0 <= i <= j < s.len() ==> s[i].spec_le(s[j])
}

/// Sorts the requested hashes ascending by byte value.  Duplicates are
/// kept: the result holds the same multiset of hashes as the input.
pub fn sort_hashes(hashes: &Vec<Hash256>) -> (r: Vec<Hash256>)
    ensures
        sorted_hashes(r@),
        r@.to_multiset() == hashes@.to_multiset(),
{
    broadcast use vstd::seq_lib::group_to_multiset_ensures;
    broadcast use vstd::multiset::group_multiset_axioms;

    let mut work: Vec<Hash256> = Vec::new();
    let mut i: usize = 0;
    while i < hashes.len()
        invariant
            i <= hashes@.len(),
            work@ == hashes@.subrange(0, i as int),
        decreases hashes@.len() - i,
    {
        work.push(hashes[i]);
        i += 1;
        proof {
            assert(work@ =~= hashes@.subrange(0, i as int));
        }
    }
    proof {
        assert(work@ =~= hashes@);
    }
    let mut out: Vec<Hash256> = Vec::new();
    while work.len() > 0
        invariant
            sorted_hashes(out@),
            out@.to_multiset().add(work@.to_multiset()) == hashes@.to_multiset(),
            forall|p: int, q: int|
                0 <= p < out@.len() && 0 <= q < work@.len() ==> out@[p].spec_le(work@[q]),
        decreases work@.len(),
    {
        let mut mi: usize = 0;
        let mut j: usize = 1;
        while j < work.len()
            invariant
                0 < work@.len(),
                mi < j <= work@.len(),
                forall|k: int| 0 <= k < j ==> work@[mi as int].spec_le(work@[k]),
            decreases work@.len() - j,
        {
            if work[j].lt(&work[mi]) {
                mi = j;
            }
            j += 1;
        }
        let ghost old_out = out@;
        let ghost old_work = work@;
        let m = work.remove(mi);
        out.push(m);
        proof {
            vstd::seq_lib::to_multiset_remove(old_work, mi as int);
            vstd::seq_lib::to_multiset_build(old_out, m);
            assert(old_work.remove(mi as int).to_multiset() =~= old_work.to_multiset().remove(m));
            assert(out@.to_multiset() =~= old_out.to_multiset().insert(m));
            assert(old_work.contains(m));
            vstd::seq_lib::to_multiset_contains(old_work, m);
            assert(old_work.to_multiset().count(m) > 0);
            assert(out@.to_multiset().add(work@.to_multiset()) =~= hashes@.to_multiset());
            assert(forall|q: int|
                0 <= q < work@.len() ==> #[trigger] work@[q] == old_work[if q < mi as int {
                    q
                } else {
                    q + 1
                }]);
        }
    }
    out
}

/// Membership by binary search in a sorted vector.
pub fn contains_sorted(v: &Vec<Hash256>, h: &Hash256) -> (r: bool)
    requires
        sorted_hashes(v@),
    ensures
        r == v@.contains(*h),
{
    let mut lo: usize = 0;
    let mut hi: usize = v.len();
    while lo < hi
        invariant
            lo <= hi <= v@.len(),
            sorted_hashes(v@),
            forall|k: int| 0 <= k < lo ==> v@[k].spec_lt(*h),
            forall|k: int| hi <= k < v@.len() ==> h.spec_lt(v@[k]),
        decreases hi - lo,
    {
        let mid = lo + (hi - lo) / 2;
        if v[mid].lt(h) {
            proof {
                assert forall|k: int| 0 <= k < mid + 1 implies v@[k].spec_lt(*h) by {
                    if lo <= k {
                        assert(v@[k].spec_le(v@[mid as int]));
                    }
                }
            }
            lo = mid + 1;
        } else if h.lt(&v[mid]) {
            proof {
                assert forall|k: int| mid <= k < v@.len() implies h.spec_lt(v@[k]) by {
                    if k < hi {
                        assert(v@[mid as int].spec_le(v@[k]));
                    }
                }
            }
            hi = mid;
        } else {
            proof {
                assert(v@[mid as int] == *h);
                assert(v@.contains(*h));
            }
            return true;
        }
    }
    proof {
        assert(forall|k: int| 0 <= k < v@.len() ==> v@[k] != *h);
    }
    false
}

/// Restricts a block to the transactions whose signature-stripped hash is
/// in `hashes`, keeping their original order.  The requested hashes are
/// first sorted ascending by byte value, and each transaction is kept iff a
/// binary search finds its hash in the sorted list; duplicates in the
/// request are harmless, since keeping is a membership test.  Hashes that
/// match no transaction are ignored.
pub fn partial_block(b: Block, hashes: &Vec<Hash256>) -> (r: Block)
    ensures
        r.header@ == b.header@,
        r.transactions@ == filter_txs(b.transactions@, hashes@),
{
    broadcast use vstd::seq_lib::group_to_multiset_ensures;
    broadcast use vstd::multiset::group_multiset_axioms;

    let sorted = sort_hashes(hashes);
    proof {
        assert forall|x: Hash256| sorted@.contains(x) <==> hashes@.contains(x) by {
            assert(sorted@.to_multiset().count(x) == hashes@.to_multiset().count(x));
        }
    }
    let Block { header, transactions } = b;
    let mut rest = transactions;
    let mut kept: Vec<Tx> = Vec::new();
    let ghost orig = rest@;
    let ghost mut done: Seq<Tx> = Seq::empty();
    while rest.len() > 0
        invariant
            sorted_hashes(sorted@),
            forall|x: Hash256| sorted@.contains(x) <==> hashes@.contains(x),
            orig == done + rest@,
            kept@ == filter_txs(done, hashes@),
        decreases rest@.len(),
    {
        let ghost old_done = done;
        let tx = rest.remove(0);
        proof {
            done = done.push(tx);
            assert(orig =~= done + rest@);
            assert(done.drop_last() =~= old_done);
        }
        if contains_sorted(&sorted, &tx.hash_nosigs) {
            kept.push(tx);
        }
    }
    proof {
        assert(done =~= orig);
    }
    Block { header, transactions: kept }
}

/// Requesting every hash that occurs in the block gives the block's own
/// transaction list back: same transactions, same order, same contents.
pub proof fn lemma_filter_all_present(txs: Seq<Tx>, hashes: Seq<Hash256>)
    requires
        forall|i: int| 0 <= i < txs.len() ==> hashes.contains(#[trigger] txs[i].hash_nosigs),
    ensures
        filter_txs(txs, hashes) == txs,
    decreases txs.len(),
{
    if txs.len() > 0 {
        lemma_filter_all_present(txs.drop_last(), hashes);
        assert(filter_txs(txs, hashes) =~= txs);
    } else {
        assert(filter_txs(txs, hashes) =~= txs);
    }
}

/// Only membership of each transaction's hash matters: two requested sets
/// that agree on every hash occurring in the block select the same
/// transactions.
pub proof fn lemma_filter_membership_only(txs: Seq<Tx>, hs1: Seq<Hash256>, hs2: Seq<Hash256>)
    requires
        forall|i: int|
            0 <= i < txs.len() ==> (hs1.contains(#[trigger] txs[i].hash_nosigs) <==> hs2.contains(
                txs[i].hash_nosigs,
            )),
    ensures
        filter_txs(txs, hs1) == filter_txs(txs, hs2),
    decreases txs.len(),
{
    if txs.len() > 0 {
        lemma_filter_membership_only(txs.drop_last(), hs1, hs2);
        assert(hs1.contains(txs.last().hash_nosigs) <==> hs2.contains(txs.last().hash_nosigs));
    }
}

/// Hashes that match no transaction of the block are simply ignored:
/// appending them to a request does not change the answer.
pub proof fn lemma_filter_ignores_unknown(txs: Seq<Tx>, hashes: Seq<Hash256>, extra: Seq<Hash256>)
    requires
        forall|i: int| 0 <= i < txs.len() ==> !extra.contains(#[trigger] txs[i].hash_nosigs),
    ensures
        filter_txs(txs, hashes + extra) == filter_txs(txs, hashes),
{
    assert forall|i: int| 0 <= i < txs.len() implies ((hashes + extra).contains(
        #[trigger] txs[i].hash_nosigs,
    ) <==> hashes.contains(txs[i].hash_nosigs)) by {
        let h = txs[i].hash_nosigs;
        if hashes.contains(h) {
            let k = choose|k: int| 0 <= k < hashes.len() && hashes[k] == h;
            assert((hashes + extra)[k] == h);
        }
        if (hashes + extra).contains(h) && !hashes.contains(h) {
            let k = choose|k: int| 0 <= k < (hashes + extra).len() && (hashes + extra)[k] == h;
            assert(extra[k - hashes.len()] == h);
        }
    }
    lemma_filter_membership_only(txs, hashes + extra, hashes);
}

} // verus!
