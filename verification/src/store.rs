use vstd::prelude::*;

use crate::hash::Hash256;
use crate::vocab::NetId;

verus! {

/// The height and header hash of the most recently trusted block of one
/// network.
#[derive(Clone, Copy, PartialEq, Eq, Structural, Debug)]
pub struct TrustAnchor {
    pub height: u64,
    pub hash: Hash256,
}

/// One record of the store: a network byte and its anchor.
#[derive(Clone, Copy, PartialEq, Eq, Structural, Debug)]
pub struct Entry {
    pub net: u8,
    pub anchor: TrustAnchor,
}

/// The mapping an entry sequence denotes.
pub open spec fn entries_map(s: Seq<Entry>) -> Map<u8, TrustAnchor>
    decreases s.len(),
{
    if s.len() == 0 {
        Map::empty()
    } else {
        entries_map(s.drop_last()).insert(s.last().net, s.last().anchor)
    }
}

/// Network bytes strictly ascending: each network has at most one entry.
pub open spec fn wf_entries(s: Seq<Entry>) -> bool {
    forall|i: int, j: int| 0 <= i < j < s.len() ==> s[i].net < s[j].net
}

/// Mapping from network id to the anchor of the latest trusted block,
/// held as entries sorted by network byte.  Persistence is the caller's
/// task, through [`crate::codec::encode_store`] and
/// [`crate::codec::decode_store`]; this type is the mapping itself.
#[derive(Clone, PartialEq, Eq, Debug)]
pub struct TrustStore {
    pub(crate) entries: Vec<Entry>,
}

pub proof fn lemma_entries_map_index(s: Seq<Entry>, i: int)
    requires
        wf_entries(s),
        0 <= i < s.len(),
    ensures
        entries_map(s).contains_key(s[i].net),
        entries_map(s)[s[i].net] == s[i].anchor,
    decreases s.len(),
{
    if i < s.len() - 1 {
        assert(wf_entries(s.drop_last()));
        lemma_entries_map_index(s.drop_last(), i);
    }
}

pub proof fn lemma_entries_map_absent(s: Seq<Entry>, k: u8)
    requires
        forall|i: int| 0 <= i < s.len() ==> (#[trigger] s[i].net) != k,
    ensures
        !entries_map(s).contains_key(k),
    decreases s.len(),
{
    if s.len() > 0 {
        lemma_entries_map_absent(s.drop_last(), k);
    }
}

/// Inserting an entry at its sorted position inserts its key in the map.
pub proof fn lemma_entries_map_insert(s: Seq<Entry>, i: int, e: Entry)
    requires
        wf_entries(s),
        0 <= i <= s.len(),
        forall|k: int| 0 <= k < i ==> (#[trigger] s[k].net) < e.net,
        forall|k: int| i <= k < s.len() ==> (#[trigger] s[k].net) > e.net,
    ensures
        wf_entries(s.insert(i, e)),
        entries_map(s.insert(i, e)) == entries_map(s).insert(e.net, e.anchor),
    decreases s.len(),
{
    let t = s.insert(i, e);
    assert forall|p: int, q: int| 0 <= p < q < t.len() implies t[p].net < t[q].net by {}
    if i == s.len() {
        assert(t.drop_last() =~= s);
    } else {
        assert(wf_entries(s.drop_last()));
        lemma_entries_map_insert(s.drop_last(), i, e);
        assert(t.drop_last() =~= s.drop_last().insert(i, e));
        assert(t.last() == s.last());
        assert(e.net != s.last().net);
        assert(entries_map(s.drop_last()).insert(e.net, e.anchor).insert(
            s.last().net,
            s.last().anchor,
        ) =~= entries_map(s.drop_last()).insert(s.last().net, s.last().anchor).insert(
            e.net,
            e.anchor,
        ));
    }
}

/// Removing an entry removes its key from the map.
pub proof fn lemma_entries_map_remove(s: Seq<Entry>, i: int)
    requires
        wf_entries(s),
        0 <= i < s.len(),
    ensures
        wf_entries(s.remove(i)),
        entries_map(s.remove(i)) == entries_map(s).remove(s[i].net),
    decreases s.len(),
{
    let t = s.remove(i);
    assert forall|p: int, q: int| 0 <= p < q < t.len() implies t[p].net < t[q].net by {}
    if i == s.len() - 1 {
        assert(t =~= s.drop_last());
        lemma_entries_map_absent(s.drop_last(), s.last().net);
        assert(entries_map(s.drop_last()) =~= entries_map(s).remove(s.last().net));
    } else {
        assert(wf_entries(s.drop_last()));
        lemma_entries_map_remove(s.drop_last(), i);
        assert(t.drop_last() =~= s.drop_last().remove(i));
        assert(t.last() == s.last());
        assert(s[i].net != s.last().net);
        assert(entries_map(s.drop_last()).remove(s[i].net).insert(s.last().net, s.last().anchor)
            =~= entries_map(s.drop_last()).insert(s.last().net, s.last().anchor).remove(s[i].net));
    }
}

impl TrustStore {
    /// The entry sequence the store holds.
    pub closed spec fn spec_entries(self) -> Seq<Entry> {
        self.entries@
    }

    /// Entries sorted strictly by network byte.
    pub open spec fn wf(self) -> bool {
        wf_entries(self.spec_entries())
    }

    /// The mapping the store denotes.
    pub open spec fn as_map(self) -> Map<u8, TrustAnchor> {
        entries_map(self.spec_entries())
    }

    /// The store over a given entry sequence; the codec's constructor.
    pub(crate) fn from_entries(entries: Vec<Entry>) -> (r: TrustStore)
        ensures
            r.spec_entries() == entries@,
    {
        TrustStore { entries }
    }

    /// The entries themselves; the codec reads them through this.
    pub(crate) fn entries_ref(&self) -> (r: &Vec<Entry>)
        ensures
            r@ == self.spec_entries(),
    {
        &self.entries
    }

    /// A store that holds no anchor for any network.
    pub fn new() -> (r: TrustStore)
        ensures
            r.wf(),
            r.as_map() == Map::<u8, TrustAnchor>::empty(),
    {
        TrustStore { entries: Vec::new() }
    }

    /// The anchor recorded for `netid`, or `None` if none ever was.
    pub fn get(&self, netid: NetId) -> (r: Option<TrustAnchor>)
        requires
            self.wf(),
        ensures
            r == if self.as_map().contains_key(netid.spec_byte()) {
                Some(self.as_map()[netid.spec_byte()])
            } else {
                None::<TrustAnchor>
            },
    {
        let b = netid.byte();
        let mut i: usize = 0;
        while i < self.entries.len()
            invariant
                self.wf(),
                b == netid.spec_byte(),
                i <= self.entries@.len(),
                forall|k: int| 0 <= k < i ==> (#[trigger] self.entries@[k].net) != b,
            decreases self.entries@.len() - i,
        {
            if self.entries[i].net == b {
                proof {
                    lemma_entries_map_index(self.entries@, i as int);
                }
                return Some(self.entries[i].anchor);
            }
            i += 1;
        }
        proof {
            lemma_entries_map_absent(self.entries@, b);
        }
        None
    }

    /// Unconditionally overwrites any anchor recorded for `netid` with
    /// `(height, hash)`.  Rollback to a lower height is permitted: no
    /// monotonicity check is made here.
    pub fn set(&mut self, netid: NetId, height: u64, hash: Hash256)
        requires
            old(self).wf(),
        ensures
            final(self).wf(),
            final(self).as_map() == old(self).as_map().insert(
                netid.spec_byte(),
                TrustAnchor { height, hash },
            ),
    {
        let b = netid.byte();
        let e = Entry { net: b, anchor: TrustAnchor { height, hash } };
        let mut i: usize = 0;
        while i < self.entries.len() && self.entries[i].net < b
            invariant
                old(self) == self,
                self.wf(),
                i <= self.entries@.len(),
                forall|k: int| 0 <= k < i ==> (#[trigger] self.entries@[k].net) < b,
            decreases self.entries@.len() - i,
        {
            i += 1;
        }
        if i < self.entries.len() && self.entries[i].net == b {
            let ghost s0 = self.entries@;
            self.entries.remove(i);
            proof {
                lemma_entries_map_remove(s0, i as int);
            }
            self.entries.insert(i, e);
            proof {
                assert forall|k: int| i <= k < s0.remove(i as int).len() implies (
                #[trigger] s0.remove(i as int)[k].net) > b by {
                    assert(s0.remove(i as int)[k] == s0[k + 1]);
                }
                lemma_entries_map_insert(s0.remove(i as int), i as int, e);
                assert(entries_map(s0).remove(b).insert(b, e.anchor) =~= entries_map(s0).insert(
                    b,
                    e.anchor,
                ));
            }
        } else {
            let ghost s0 = self.entries@;
            self.entries.insert(i, e);
            proof {
                assert forall|k: int| i <= k < s0.len() implies (#[trigger] s0[k].net) > b by {
                    if k > i {
                        assert(s0[i as int].net < s0[k].net);
                    }
                }
                lemma_entries_map_insert(s0, i as int, e);
            }
        }
    }
}

/// Setting an anchor twice for one network keeps exactly the second one,
/// even when its height is lower than the first: with `set`'s contract,
/// `set(net, a1); set(net, a2); get(net)` yields `a2` whatever the two
/// heights are.
pub proof fn lemma_trust_rollback(m: Map<u8, TrustAnchor>, net: NetId, a1: TrustAnchor, a2: TrustAnchor)
    ensures
        m.insert(net.spec_byte(), a1).insert(net.spec_byte(), a2) == m.insert(
            net.spec_byte(),
            a2,
        ),
        m.insert(net.spec_byte(), a1).insert(net.spec_byte(), a2)[net.spec_byte()] == a2,
{
    assert(m.insert(net.spec_byte(), a1).insert(net.spec_byte(), a2) =~= m.insert(
        net.spec_byte(),
        a2,
    ));
}

/// A freshly created store holds no anchor for any network: with `new`'s
/// and `get`'s contracts, `get` on a fresh store yields `None` for every
/// network.
pub proof fn lemma_fresh_store_empty(net: NetId)
    ensures
        !Map::<u8, TrustAnchor>::empty().contains_key(net.spec_byte()),
{
}

} // verus!
