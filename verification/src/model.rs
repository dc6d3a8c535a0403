//! The mathematical model of the ordered association.
//!
//! A snapshot is a pair of substructures: an index from hash code to slot
//! position, and a sequence of slots, each a live key/value pair or a
//! tombstone. Keys appear here at the level of their mathematical value
//! (their deep view). The hash strategy enters as an explicit function from
//! key value to code, so every statement is honest about collisions: the
//! index tracks at most one slot per code.

use vstd::prelude::*;

verus! {

/// One snapshot of the ordered association, abstractly.
#[verifier::ext_equal]
pub struct MapModel<K, V> {
    /// Hash code to slot position; one position per tracked code.
    pub index: Map<u64, nat>,
    /// Slot position to live pair or tombstone; position equals the rank of
    /// first insertion.
    pub slots: Seq<Option<(K, V)>>,
}

/// The live pairs of a slot sequence, in ascending slot position.
pub open spec fn live_pairs<K, V>(s: Seq<Option<(K, V)>>) -> Seq<(K, V)>
    decreases s.len(),
{
    if s.len() == 0 {
        Seq::empty()
    } else {
        let rest = live_pairs(s.drop_last());
        match s.last() {
            Some(p) => rest.push(p),
            None => rest,
        }
    }
}

impl<K, V> MapModel<K, V> {
    /// The empty snapshot.
    pub open spec fn empty() -> Self {
        MapModel { index: Map::empty(), slots: Seq::empty() }
    }

    /// Well-formedness: the two substructures never disagree about where a
    /// key lives. Every tracked code points to a live slot whose key bears
    /// that code, and every live slot is tracked under its key's code, at
    /// its own position.
    pub open spec fn wf(self, hf: spec_fn(K) -> u64) -> bool {
        &&& (forall|h: u64| #[trigger]
            self.index.dom().contains(h) ==> {
                &&& self.index[h] < self.slots.len()
                &&& self.slots[self.index[h] as int] is Some
                &&& hf(self.slots[self.index[h] as int]->Some_0.0) == h
            })
        &&& (forall|i: int|
            #![trigger self.slots[i]]
            0 <= i < self.slots.len() && self.slots[i] is Some ==> {
                &&& self.index.dom().contains(hf(self.slots[i]->Some_0.0))
                &&& self.index[hf(self.slots[i]->Some_0.0)] == i
            })
    }

    /// The value found for key `k` under code `h`: the slot tracked for `h`,
    /// if it is live and actually holds `k`.
    pub open spec fn lookup(self, h: u64, k: K) -> Option<V> {
        if self.index.dom().contains(h) {
            let i = self.index[h] as int;
            if 0 <= i < self.slots.len() && self.slots[i] is Some && self.slots[i]->Some_0.0
                == k {
                Some(self.slots[i]->Some_0.1)
            } else {
                None
            }
        } else {
            None
        }
    }

    /// Whether some live slot is tracked under code `h` and holds key `k`.
    pub open spec fn has(self, h: u64, k: K) -> bool {
        self.lookup(h, k) is Some
    }

    /// The snapshot after writing `(k, v)` under code `h`: if the code is
    /// tracked, the tracked slot is replaced in place (the index and every
    /// slot position are untouched); otherwise a fresh slot is appended and
    /// the code tracked at the new position.
    pub open spec fn updated(self, h: u64, k: K, v: V) -> Self {
        if self.index.dom().contains(h) {
            MapModel {
                index: self.index,
                slots: self.slots.update(self.index[h] as int, Some((k, v))),
            }
        } else {
            MapModel {
                index: self.index.insert(h, self.slots.len()),
                slots: self.slots.push(Some((k, v))),
            }
        }
    }

    /// The snapshot after removing code `h`: the code is untracked and its
    /// slot becomes a tombstone, keeping every other slot at its position.
    /// Removing an untracked code is a no-op.
    pub open spec fn removed(self, h: u64) -> Self {
        if self.index.dom().contains(h) {
            MapModel {
                index: self.index.remove(h),
                slots: self.slots.update(self.index[h] as int, None),
            }
        } else {
            self
        }
    }

    /// The live pairs, in first-insertion order.
    pub open spec fn pairs(self) -> Seq<(K, V)> {
        live_pairs(self.slots)
    }

    /// Whether live pair `i` of this snapshot is found in `other` with a
    /// `veq`-equal value.
    pub open spec fn pair_found_in(
        self,
        other: Self,
        hf: spec_fn(K) -> u64,
        veq: spec_fn(V, V) -> bool,
        i: int,
    ) -> bool {
        match other.lookup(hf(self.pairs()[i].0), self.pairs()[i].0) {
            Some(v2) => veq(self.pairs()[i].1, v2),
            None => false,
        }
    }

    /// Order-independent content equality against `other`: as many live
    /// pairs, and every live pair of this snapshot found in `other` with a
    /// `veq`-equal value.
    pub open spec fn equiv(
        self,
        other: Self,
        hf: spec_fn(K) -> u64,
        veq: spec_fn(V, V) -> bool,
    ) -> bool {
        &&& self.pairs().len() == other.pairs().len()
        &&& forall|i: int| 0 <= i < self.pairs().len() ==> self.pair_found_in(other, hf, veq, i)
    }

    /// The snapshot reached from empty by writing each pair in turn.
    pub open spec fn built(hf: spec_fn(K) -> u64, ps: Seq<(K, V)>) -> Self
        decreases ps.len(),
    {
        if ps.len() == 0 {
            MapModel::empty()
        } else {
            MapModel::built(hf, ps.drop_last()).updated(
                hf(ps.last().0),
                ps.last().0,
                ps.last().1,
            )
        }
    }
}

/// Appending a slot appends its pair, if live, to the live pairs.
pub proof fn lemma_live_pairs_push<K, V>(s: Seq<Option<(K, V)>>, o: Option<(K, V)>)
    ensures
        o is Some ==> live_pairs(s.push(o)) == live_pairs(s).push(o->Some_0),
        o is None ==> live_pairs(s.push(o)) == live_pairs(s),
{
    assert(s.push(o).drop_last() =~= s);
    assert(s.push(o).last() == o);
}

/// In a well-formed snapshot the index is injective: two distinct tracked
/// codes point to distinct positions.
pub proof fn lemma_wf_index_injective<K, V>(
    m: MapModel<K, V>,
    hf: spec_fn(K) -> u64,
    h1: u64,
    h2: u64,
)
    requires
        m.wf(hf),
        m.index.dom().contains(h1),
        m.index.dom().contains(h2),
        h1 != h2,
    ensures
        m.index[h1] != m.index[h2],
{
    let i1 = m.index[h1] as int;
    assert(m.slots[i1] is Some);
    if m.index[h1] == m.index[h2] {
        assert(hf(m.slots[i1]->Some_0.0) == h1);
        assert(hf(m.slots[i1]->Some_0.0) == h2);
    }
}

/// Writing preserves well-formedness, provided the written key bears the
/// written code.
pub proof fn lemma_updated_wf<K, V>(m: MapModel<K, V>, hf: spec_fn(K) -> u64, k: K, v: V)
    requires
        m.wf(hf),
    ensures
        m.updated(hf(k), k, v).wf(hf),
{
    let h = hf(k);
    let r = m.updated(h, k, v);
    if m.index.dom().contains(h) {
        let t = m.index[h] as int;
        assert forall|i: int|
            #![trigger r.slots[i]]
            0 <= i < r.slots.len() && r.slots[i] is Some implies {
            &&& r.index.dom().contains(hf(r.slots[i]->Some_0.0))
            &&& r.index[hf(r.slots[i]->Some_0.0)] == i
        } by {
            if i != t {
                assert(r.slots[i] == m.slots[i]);
            }
        }
    } else {
        let n = m.slots.len() as int;
        assert forall|i: int|
            #![trigger r.slots[i]]
            0 <= i < r.slots.len() && r.slots[i] is Some implies {
            &&& r.index.dom().contains(hf(r.slots[i]->Some_0.0))
            &&& r.index[hf(r.slots[i]->Some_0.0)] == i
        } by {
            if i < n {
                assert(r.slots[i] == m.slots[i]);
                assert(hf(m.slots[i]->Some_0.0) != h);
            }
        }
    }
}

/// Removal preserves well-formedness.
pub proof fn lemma_removed_wf<K, V>(m: MapModel<K, V>, hf: spec_fn(K) -> u64, h: u64)
    requires
        m.wf(hf),
    ensures
        m.removed(h).wf(hf),
{
    if m.index.dom().contains(h) {
        let t = m.index[h] as int;
        let r = m.removed(h);
        assert forall|h2: u64| #[trigger] r.index.dom().contains(h2) implies {
            &&& r.index[h2] < r.slots.len()
            &&& r.slots[r.index[h2] as int] is Some
            &&& hf(r.slots[r.index[h2] as int]->Some_0.0) == h2
        } by {
            lemma_wf_index_injective(m, hf, h, h2);
        }
        assert forall|i: int|
            #![trigger r.slots[i]]
            0 <= i < r.slots.len() && r.slots[i] is Some implies {
            &&& r.index.dom().contains(hf(r.slots[i]->Some_0.0))
            &&& r.index[hf(r.slots[i]->Some_0.0)] == i
        } by {
            assert(r.slots[i] == m.slots[i]);
            assert(hf(m.slots[i]->Some_0.0) != h);
        }
    }
}

/// After writing `(k, v)` under `k`'s own code, looking that code and key up
/// finds `v`.
pub proof fn lemma_updated_lookup_same<K, V>(m: MapModel<K, V>, hf: spec_fn(K) -> u64, k: K, v: V)
    requires
        m.wf(hf),
    ensures
        m.updated(hf(k), k, v).lookup(hf(k), k) == Some(v),
{
}

/// Writing under code `h` changes no lookup under another code, and a lookup
/// under `h` with a key other than the one written finds nothing.
pub proof fn lemma_updated_lookup_other<K, V>(
    m: MapModel<K, V>,
    hf: spec_fn(K) -> u64,
    k: K,
    v: V,
    h2: u64,
    k2: K,
)
    requires
        m.wf(hf),
    ensures
        h2 != hf(k) ==> m.updated(hf(k), k, v).lookup(h2, k2) == m.lookup(h2, k2),
        h2 == hf(k) && k2 != k ==> m.updated(hf(k), k, v).lookup(h2, k2) is None,
{
    let h = hf(k);
    if h2 != h && m.index.dom().contains(h) && m.index.dom().contains(h2) {
        lemma_wf_index_injective(m, hf, h, h2);
    }
}

/// Building from a pair sequence yields a well-formed snapshot.
pub proof fn lemma_built_wf<K, V>(hf: spec_fn(K) -> u64, ps: Seq<(K, V)>)
    ensures
        MapModel::built(hf, ps).wf(hf),
    decreases ps.len(),
{
    if ps.len() == 0 {
    } else {
        lemma_built_wf(hf, ps.drop_last());
        lemma_updated_wf(MapModel::built(hf, ps.drop_last()), hf, ps.last().0, ps.last().1);
    }
}

} // verus!
