//! The laws of the ordered association, stated over the model and proved
//! once for every hash function and every snapshot.
//!
//! Each executable operation pins its result to a model operation
//! (`updated`, `removed`, `lookup`, `pairs`), so these laws carry over to
//! every execution. Persistence itself needs no law: the functional
//! operations borrow their receiver immutably and return a fresh value, so
//! the receiver's lookups cannot change.
//!
//! Several laws exclude hash collisions by requiring distinct codes: under a
//! colliding strategy the container keeps one slot per code by design, and
//! the colliding inputs genuinely falsify the unrestricted statements.

use vstd::prelude::*;

verus! {

use crate::model::{
    lemma_built_wf,
    lemma_live_pairs_push,
    lemma_updated_lookup_other,
    lemma_updated_lookup_same,
    lemma_updated_wf,
    lemma_wf_index_injective,
    MapModel,
};

/// Writing a key twice: the later value wins, and the size equals that of
/// the single later write, whatever the map held before.
pub proof fn lemma_overwrite<K, V>(m: MapModel<K, V>, hf: spec_fn(K) -> u64, k: K, v1: V, v2: V)
    requires
        m.wf(hf),
    ensures
        m.updated(hf(k), k, v1).updated(hf(k), k, v2).lookup(hf(k), k) == Some(v2),
        m.updated(hf(k), k, v1).updated(hf(k), k, v2).slots.len() == m.updated(
            hf(k),
            k,
            v2,
        ).slots.len(),
{
    lemma_updated_wf(m, hf, k, v1);
    lemma_updated_lookup_same(m.updated(hf(k), k, v1), hf, k, v2);
}

/// Writing the same pair twice is the same snapshot as writing it once.
pub proof fn lemma_repeat_insert<K, V>(m: MapModel<K, V>, hf: spec_fn(K) -> u64, k: K, v: V)
    requires
        m.wf(hf),
    ensures
        m.updated(hf(k), k, v).updated(hf(k), k, v) == m.updated(hf(k), k, v),
{
    let h = hf(k);
    let m1 = m.updated(h, k, v);
    lemma_updated_wf(m, hf, k, v);
    assert(m1.slots.update(m1.index[h] as int, Some((k, v))) =~= m1.slots);
    assert(m1.updated(h, k, v) =~= m1);
}

/// The snapshot after writing the same pair `n` times from empty.
pub open spec fn inserted_n<K, V>(h: u64, k: K, v: V, n: nat) -> MapModel<K, V>
    decreases n,
{
    if n == 0 {
        MapModel::empty()
    } else {
        inserted_n(h, k, v, (n - 1) as nat).updated(h, k, v)
    }
}

/// Inserting one element any positive number of times from empty leaves it
/// present, with exactly one live pair.
pub proof fn lemma_repeat_insert_once<K, V>(hf: spec_fn(K) -> u64, k: K, v: V, n: nat)
    requires
        n >= 1,
    ensures
        inserted_n(hf(k), k, v, n) == MapModel::empty().updated(hf(k), k, v),
        inserted_n(hf(k), k, v, n).lookup(hf(k), k) == Some(v),
        inserted_n(hf(k), k, v, n).pairs().len() == 1,
    decreases n,
{
    let e = MapModel::<K, V>::empty();
    assert(inserted_n::<K, V>(hf(k), k, v, n) == inserted_n::<K, V>(hf(k), k, v, (n - 1) as nat)
        .updated(hf(k), k, v));
    if n == 1 {
        assert(inserted_n::<K, V>(hf(k), k, v, 0) == e);
    } else {
        lemma_repeat_insert_once(hf, k, v, (n - 1) as nat);
        lemma_repeat_insert(e, hf, k, v);
    }
    lemma_updated_lookup_same(e, hf, k, v);
    lemma_live_pairs_push(e.slots, Some((k, v)));
}

/// Removing a code the index does not track returns the snapshot itself.
pub proof fn lemma_absent_removal_noop<K, V>(m: MapModel<K, V>, h: u64)
    requires
        !m.index.dom().contains(h),
    ensures
        m.removed(h) == m,
{
}

/// Writing three keys with pairwise distinct codes into an empty map makes
/// iteration yield exactly those pairs, in write order.
pub proof fn lemma_insertion_order<K, V>(
    hf: spec_fn(K) -> u64,
    k1: K,
    v1: V,
    k2: K,
    v2: V,
    k3: K,
    v3: V,
)
    requires
        hf(k1) != hf(k2),
        hf(k1) != hf(k3),
        hf(k2) != hf(k3),
    ensures
        MapModel::empty().updated(hf(k1), k1, v1).updated(hf(k2), k2, v2).updated(
            hf(k3),
            k3,
            v3,
        ).pairs() == seq![(k1, v1), (k2, v2), (k3, v3)],
{
    let m0 = MapModel::<K, V>::empty();
    let m1 = m0.updated(hf(k1), k1, v1);
    let m2 = m1.updated(hf(k2), k2, v2);
    let m3 = m2.updated(hf(k3), k3, v3);
    lemma_live_pairs_push(m0.slots, Some((k1, v1)));
    lemma_live_pairs_push(m1.slots, Some((k2, v2)));
    lemma_live_pairs_push(m2.slots, Some((k3, v3)));
    assert(m3.pairs() =~= seq![(k1, v1), (k2, v2), (k3, v3)]);
}

/// Writing four keys with pairwise distinct codes into an empty map and then
/// removing the second: iteration on the result skips exactly the removed
/// pair, while the base snapshot still yields all four, in write order.
pub proof fn lemma_removal_keeps_order<K, V>(
    hf: spec_fn(K) -> u64,
    k1: K,
    v1: V,
    k2: K,
    v2: V,
    k3: K,
    v3: V,
    k4: K,
    v4: V,
)
    requires
        hf(k1) != hf(k2),
        hf(k1) != hf(k3),
        hf(k1) != hf(k4),
        hf(k2) != hf(k3),
        hf(k2) != hf(k4),
        hf(k3) != hf(k4),
    ensures
        ({
            let base = MapModel::empty().updated(hf(k1), k1, v1).updated(hf(k2), k2, v2).updated(
                hf(k3),
                k3,
                v3,
            ).updated(hf(k4), k4, v4);
            &&& base.pairs() == seq![(k1, v1), (k2, v2), (k3, v3), (k4, v4)]
            &&& base.removed(hf(k2)).pairs() == seq![(k1, v1), (k3, v3), (k4, v4)]
        }),
{
    let m0 = MapModel::<K, V>::empty();
    let m1 = m0.updated(hf(k1), k1, v1);
    let m2 = m1.updated(hf(k2), k2, v2);
    let m3 = m2.updated(hf(k3), k3, v3);
    let base = m3.updated(hf(k4), k4, v4);
    lemma_live_pairs_push(m0.slots, Some((k1, v1)));
    lemma_live_pairs_push(m1.slots, Some((k2, v2)));
    lemma_live_pairs_push(m2.slots, Some((k3, v3)));
    lemma_live_pairs_push(m3.slots, Some((k4, v4)));
    assert(base.pairs() =~= seq![(k1, v1), (k2, v2), (k3, v3), (k4, v4)]);
    let after = base.removed(hf(k2));
    assert(base.index[hf(k2)] == 1);
    let t0 = Seq::<Option<(K, V)>>::empty();
    let t1 = t0.push(Some((k1, v1)));
    let t2 = t1.push(None);
    let t3 = t2.push(Some((k3, v3)));
    let t4 = t3.push(Some((k4, v4)));
    assert(after.slots =~= t4);
    lemma_live_pairs_push(t0, Some((k1, v1)));
    lemma_live_pairs_push(t1, None);
    lemma_live_pairs_push(t2, Some((k3, v3)));
    lemma_live_pairs_push(t3, Some((k4, v4)));
    assert(after.pairs() =~= seq![(k1, v1), (k3, v3), (k4, v4)]);
}

/// Round trip: building from empty out of pairs whose keys bear pairwise
/// distinct codes, every key reads back its own value.
pub proof fn lemma_round_trip<K, V>(hf: spec_fn(K) -> u64, ps: Seq<(K, V)>)
    requires
        forall|i: int, j: int| 0 <= i < j < ps.len() ==> hf(ps[i].0) != hf(ps[j].0),
    ensures
        forall|i: int|
            0 <= i < ps.len() ==> MapModel::built(hf, ps).lookup(hf(ps[i].0), ps[i].0) == Some(
                ps[i].1,
            ),
    decreases ps.len(),
{
    if ps.len() == 0 {
    } else {
        let prev = ps.drop_last();
        let b = MapModel::built(hf, prev);
        let last = ps.last();
        lemma_round_trip(hf, prev);
        lemma_built_wf(hf, prev);
        lemma_updated_lookup_same(b, hf, last.0, last.1);
        assert forall|i: int|
            0 <= i < ps.len() implies MapModel::built(hf, ps).lookup(hf(ps[i].0), ps[i].0) == Some(
            ps[i].1,
        ) by {
            if i < ps.len() - 1 {
                assert(prev[i] == ps[i]);
                assert(hf(ps[i].0) != hf(last.0));
                lemma_updated_lookup_other(b, hf, last.0, last.1, hf(ps[i].0), ps[i].0);
            } else {
                assert(ps[i] == last);
            }
        }
    }
}

/// Removing a tracked code makes every lookup under it absent and leaves
/// every other code's lookup as it was.
pub proof fn lemma_removal_lookup<K, V>(
    m: MapModel<K, V>,
    hf: spec_fn(K) -> u64,
    h: u64,
    h2: u64,
    k2: K,
)
    requires
        m.wf(hf),
    ensures
        m.removed(h).lookup(h, k2) is None,
        h2 != h ==> m.removed(h).lookup(h2, k2) == m.lookup(h2, k2),
{
    if m.index.dom().contains(h) && h2 != h && m.index.dom().contains(h2) {
        lemma_wf_index_injective(m, hf, h, h2);
    }
}

} // verus!
