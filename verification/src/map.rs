//! The map aggregate: a hash index layered over an ordered slot sequence.
//!
//! A lookup hashes the key, probes the index for a slot position, fetches the
//! slot and re-checks key equality before trusting the result. Functional
//! writes clone only the paths they touch and return a fresh snapshot; the
//! mutating writes evolve one owned aggregate in place. Both removal paths
//! tombstone the slot rather than shift positions, so every other index
//! entry stays valid and iteration order is stable.
//!
//! The reported size counts all slots, live and tombstoned alike: removals
//! leave it unchanged, and only the insertion of a fresh hash code grows it.
//! The number of live pairs is the length of `iter`'s result.
//!
//! Copy-on-write may run `Clone` on elements of slots an operation never
//! touched. Keys survive that by their `Key` obligation; for stored values
//! the writing operations ask the caller, as `clone_keeps_values`, that
//! `V`'s own `clone` return its argument, which the integers, `String` and
//! the other value types whose `clone` carries that contract satisfy
//! outright.

use vstd::prelude::*;

verus! {

use crate::backing::{BackingIndex, BackingVec};
use crate::keys::{clone_keeps_values, lemma_key_clone_keeps, HashStrategy, Key};
use crate::model::{live_pairs, MapModel};

/// A raw hash code normalized into the index's key type.
#[derive(Clone, Copy, Debug, PartialEq, Eq, Structural)]
pub struct HashValue(usize);

impl HashValue {
    /// The wrapped code, widened back to a raw code.
    pub closed spec fn spec_code(self) -> u64 {
        self.0 as u64
    }

    /// Normalize a raw code.
    pub fn new(raw: u64) -> (r: Self)
        ensures
            r.spec_code() == (raw as usize) as u64,
    {
        HashValue(raw as usize)
    }

    /// The wrapped code.
    pub fn get(self) -> (r: u64)
        ensures
            r == self.spec_code(),
    {
        self.0 as u64
    }
}

/// One live slot: a key and its value.
pub struct Bucket<K, V> {
    pub key: K,
    pub value: V,
}

impl<K: Key, V: Clone> Clone for Bucket<K, V> {
    /// Clone both parts: the key keeps its value by its `Key` obligation;
    /// the stored value becomes whatever `V`'s own `clone` may return.
    fn clone(&self) -> (r: Self)
        ensures
            r.key.deep_view() == self.key.deep_view(),
            cloned::<V>(self.value, r.value),
    {
        let key = self.key.clone();
        proof {
            lemma_key_clone_keeps::<K>(self.key, key);
        }
        Bucket { key, value: self.value.clone() }
    }
}

/// A slot that an element's `Clone` may have produced carries the same key
/// value and the very same stored value, provided every clone of a `V` value
/// is that value.
proof fn lemma_cloned_slot_view<K: Key, V: Clone>(x: Option<Bucket<K, V>>, y: Option<Bucket<K, V>>)
    requires
        clone_keeps_values::<V>(),
        cloned::<Option<Bucket<K, V>>>(x, y),
    ensures
        slot_view(y) == slot_view(x),
{
    if x != y {
        assert(call_ensures(<Option<Bucket<K, V>> as Clone>::clone, (&x,), y));
        match x {
            None => {
                assert(y is None);
            },
            Some(xb) => {
                let yb = y->Some_0;
                assert(cloned::<Bucket<K, V>>(xb, yb));
                if xb != yb {
                    assert(call_ensures(<Bucket<K, V> as Clone>::clone, (&xb,), yb));
                    assert(yb.key.deep_view() == xb.key.deep_view());
                    assert(yb.value == xb.value);
                }
            },
        }
    }
}

/// A slot's contribution to the model: the key's value and the stored value.
pub open spec fn slot_view<K: DeepView, V>(o: Option<Bucket<K, V>>) -> Option<
    (<K as DeepView>::V, V),
> {
    match o {
        Some(b) => Some((b.key.deep_view(), b.value)),
        None => None,
    }
}

/// A pair sequence at the level of key values.
pub open spec fn pairs_view<K: DeepView, V>(s: Seq<(K, V)>) -> Seq<(<K as DeepView>::V, V)> {
    s.map_values(|p: (K, V)| (p.0.deep_view(), p.1))
}

/// The code under which strategy `S` files a key value: the raw code
/// normalized to the index's key width.
pub open spec fn code_of<K: DeepView, S: HashStrategy<K>>(kd: <K as DeepView>::V) -> u64 {
    (S::hash_of(kd) as usize) as u64
}

/// The value relation that `V`'s own equality decides.
pub open spec fn value_eq<V: vstd::std_specs::cmp::PartialEqSpec>() -> spec_fn(V, V) -> bool {
    |a: V, b: V| a.eq_spec(&b)
}

/// The hash function that strategy `S` induces on key values.
pub open spec fn hashfn<K: DeepView, S: HashStrategy<K>>() -> spec_fn(<K as DeepView>::V) -> u64 {
    |kd: <K as DeepView>::V| code_of::<K, S>(kd)
}

/// An immutable, structurally shared association that preserves
/// first-insertion order, with near-constant-time lookup through a hash
/// index kept consistent with the ordered slot sequence.
#[verifier::reject_recursive_types(K)]
#[verifier::reject_recursive_types(V)]
pub struct IndexMap<K, V, S> {
    indices: BackingIndex,
    entries: BackingVec<Option<Bucket<K, V>>>,
    hash_builder: S,
}

impl<K: DeepView, V, S> View for IndexMap<K, V, S> {
    type V = MapModel<<K as DeepView>::V, V>;

    closed spec fn view(&self) -> Self::V {
        MapModel {
            index: self.indices@,
            slots: self.entries@.map_values(|o: Option<Bucket<K, V>>| slot_view(o)),
        }
    }
}

impl<K: DeepView, V, S: HashStrategy<K>> IndexMap<K, V, S> {
    /// The two substructures agree about where every key lives.
    pub open spec fn wf(&self) -> bool {
        self@.wf(hashfn::<K, S>())
    }

    /// An empty map with the given hash strategy.
    pub fn with_hasher(hash_builder: S) -> (r: Self)
        ensures
            r@ == MapModel::<<K as DeepView>::V, V>::empty(),
            r.wf(),
    {
        let r = IndexMap {
            indices: BackingIndex::new(),
            entries: BackingVec::new(),
            hash_builder,
        };
        proof {
            assert(r@ =~= MapModel::<<K as DeepView>::V, V>::empty());
        }
        r
    }

    /// An empty map with a defaulted hash strategy.
    pub fn new() -> (r: Self) where S: Default
        ensures
            r@ == MapModel::<<K as DeepView>::V, V>::empty(),
            r.wf(),
    {
        Self::with_hasher(S::default())
    }

    /// An empty map that keeps this map's hash strategy.
    pub fn new_from(&self) -> (r: Self) where S: Clone
        ensures
            r@ == MapModel::<<K as DeepView>::V, V>::empty(),
            r.wf(),
    {
        Self::with_hasher(self.hash_builder.clone())
    }

    /// The number of slots, live and tombstoned alike.
    pub fn len(&self) -> (n: usize)
        ensures
            n == self@.slots.len(),
    {
        self.entries.len()
    }

    /// Whether no slot was ever filled.
    pub fn is_empty(&self) -> (r: bool)
        ensures
            r == (self@.slots.len() == 0),
    {
        self.entries.len() == 0
    }

    /// An equal map sharing structure with the receiver wherever the
    /// substructures allow.
    pub fn duplicate(&self) -> (r: Self) where K: Key, V: Clone, S: Clone
        requires
            clone_keeps_values::<V>(),
        ensures
            r@ == self@,
    {
        let r = IndexMap {
            indices: self.indices.duplicate(),
            entries: self.entries.duplicate(),
            hash_builder: self.hash_builder.clone(),
        };
        proof {
            assert forall|j: int| 0 <= j < r@.slots.len() implies r@.slots[j]
                == self@.slots[j] by {
                lemma_cloned_slot_view::<K, V>(self.entries@[j], r.entries@[j]);
            }
            assert(r@.slots =~= self@.slots);
            assert(r@ =~= self@);
        }
        r
    }

    /// The live pairs in first-insertion order, as references.
    pub fn iter(&self) -> (r: Vec<(&K, &V)>)
        ensures
            r@.len() == self@.pairs().len(),
            forall|j: int|
                #![trigger r@[j]]
                0 <= j < r@.len() ==> (r@[j].0.deep_view(), *r@[j].1) == self@.pairs()[j],
    {
        let ghost vs = self@.slots;
        let n: usize = self.entries.len();
        let mut r: Vec<(&K, &V)> = Vec::new();
        proof {
            assert(vs.take(0) =~= Seq::<Option<(<K as DeepView>::V, V)>>::empty());
        }
        for i in 0..n
            invariant
                n == self.entries@.len(),
                vs == self@.slots,
                vs.len() == n,
                r@.len() == live_pairs(vs.take(i as int)).len(),
                forall|j: int|
                    #![trigger r@[j]]
                    0 <= j < r@.len() ==> (r@[j].0.deep_view(), *r@[j].1) == live_pairs(
                        vs.take(i as int),
                    )[j],
        {
            let slot = self.entries.index(i);
            proof {
                assert(vs[i as int] == slot_view(self.entries@[i as int]));
                assert(vs.take(i + 1).drop_last() =~= vs.take(i as int));
                assert(vs.take(i + 1).last() == vs[i as int]);
            }
            match slot {
                Some(b) => {
                    r.push((&b.key, &b.value));
                },
                None => {},
            }
        }
        proof {
            assert(vs.take(n as int) =~= vs);
        }
        r
    }
}

impl<K: DeepView, V, S: HashStrategy<K> + Default> Default for IndexMap<K, V, S> {
    /// The empty map with a defaulted strategy.
    fn default() -> (r: Self)
        ensures
            r@ == MapModel::<<K as DeepView>::V, V>::empty(),
            r.wf(),
    {
        Self::new()
    }
}

impl<K: Key, V, S: HashStrategy<K>> IndexMap<K, V, S> {
    /// The key's code under this map's strategy.
    fn hash(&self, key: &K) -> (h: HashValue)
        ensures
            h.spec_code() == code_of::<K, S>(key.deep_view()),
    {
        HashValue::new(self.hash_builder.hash(key))
    }

    /// The value stored for `key`, if its code is tracked, the tracked slot
    /// is live, and that slot's key equals `key`. The key re-check makes an
    /// index entry claimed by a colliding key answer absence, never a wrong
    /// value.
    pub fn get(&self, key: &K) -> (r: Option<&V>)
        requires
            self.wf(),
        ensures
            match r {
                Some(v) => self@.lookup(code_of::<K, S>(key.deep_view()), key.deep_view())
                    == Some(*v),
                None => self@.lookup(code_of::<K, S>(key.deep_view()), key.deep_view()) is None,
            },
    {
        let hv = self.hash(key);
        match self.indices.get(hv.get()) {
            None => None,
            Some(idx) => {
                proof {
                    assert(self@.index.dom().contains(hv.spec_code()));
                    assert(self@.index[hv.spec_code()] < self@.slots.len());
                }
                let slot = self.entries.index(idx);
                match slot {
                    None => None,
                    Some(b) => {
                        if b.key.key_eq(key) {
                            Some(&b.value)
                        } else {
                            None
                        }
                    },
                }
            },
        }
    }

    /// Whether `get` would find a value for `key`.
    pub fn contains_key(&self, key: &K) -> (r: bool)
        requires
            self.wf(),
        ensures
            r == self@.has(code_of::<K, S>(key.deep_view()), key.deep_view()),
    {
        match self.get(key) {
            Some(_) => true,
            None => false,
        }
    }

    /// Content equality, order-independent: both maps hold as many live
    /// pairs, and every live pair of one is found in the other with an equal
    /// value, values compared by `V`'s own equality. The result is pinned
    /// wherever that equality obeys its specification.
    pub fn content_eq(&self, other: &Self) -> (r: bool) where
        V: vstd::std_specs::cmp::PartialEqSpec,

        requires
            self.wf(),
            other.wf(),
        ensures
            V::obeys_eq_spec() ==> r == self@.equiv(other@, hashfn::<K, S>(), value_eq::<V>()),
    {
        let a = self.iter();
        let b = other.iter();
        if a.len() != b.len() {
            return false;
        }
        let n: usize = a.len();
        for i in 0..n
            invariant
                self.wf(),
                other.wf(),
                n == a@.len(),
                a@.len() == self@.pairs().len(),
                self@.pairs().len() == other@.pairs().len(),
                forall|j: int|
                    #![trigger a@[j]]
                    0 <= j < a@.len() ==> (a@[j].0.deep_view(), *a@[j].1) == self@.pairs()[j],
                V::obeys_eq_spec() ==> forall|j: int|
                    0 <= j < i ==> self@.pair_found_in(
                        other@,
                        hashfn::<K, S>(),
                        value_eq::<V>(),
                        j,
                    ),
        {
            let p = a[i];
            proof {
                assert((a@[i as int].0.deep_view(), *a@[i as int].1) == self@.pairs()[i as int]);
                assert(hashfn::<K, S>()(p.0.deep_view()) == code_of::<K, S>(p.0.deep_view()));
            }
            match other.get(p.0) {
                None => {
                    proof {
                        assert(!self@.pair_found_in(
                            other@,
                            hashfn::<K, S>(),
                            value_eq::<V>(),
                            i as int,
                        ));
                    }
                    return false;
                },
                Some(w) => {
                    let same = *p.1 == *w;
                    if !same {
                        proof {
                            if V::obeys_eq_spec() {
                                let pv = self@.pairs()[i as int].1;
                                assert(pv == *p.1);
                                assert(!pv.eq_spec(w));
                                assert(value_eq::<V>()(pv, *w) == pv.eq_spec(&*w));
                                assert(!self@.pair_found_in(
                                    other@,
                                    hashfn::<K, S>(),
                                    value_eq::<V>(),
                                    i as int,
                                ));
                            }
                        }
                        return false;
                    }
                },
            }
        }
        true
    }
}

impl<K: Key + Clone, V: Clone, S: HashStrategy<K> + Clone> IndexMap<K, V, S> {
    /// A new snapshot with `(key, value)` written under `key`'s code; the
    /// receiver is untouched. A tracked code keeps its slot position, so
    /// replacing a key's value never moves it; a fresh code appends a slot.
    /// When a distinct live key already bears the same code, its slot is the
    /// one replaced: one slot per code, the documented collision risk.
    pub fn update(&self, key: K, value: V) -> (r: Self)
        requires
            self.wf(),
            self@.slots.len() < usize::MAX,
            clone_keeps_values::<V>(),
        ensures
            r@ == self@.updated(code_of::<K, S>(key.deep_view()), key.deep_view(), value),
            r.wf(),
    {
        let ghost kd = key.deep_view();
        let hv = self.hash(&key);
        let bucket = Bucket { key, value };
        proof {
            lemma_updated_wf_code::<K, V, S>(self@, kd, value);
        }
        match self.indices.get(hv.get()) {
            Some(idx) => {
                proof {
                    assert(self@.index[hv.spec_code()] < self@.slots.len());
                }
                let entries = self.entries.update_at(idx, Some(bucket));
                let r = IndexMap {
                    indices: self.indices.duplicate(),
                    entries,
                    hash_builder: self.hash_builder.clone(),
                };
                proof {
                    let target = self@.slots.update(idx as int, Some((kd, value)));
                    assert forall|j: int| 0 <= j < r@.slots.len() implies r@.slots[j]
                        == target[j] by {
                        if j != idx {
                            lemma_cloned_slot_view::<K, V>(self.entries@[j], r.entries@[j]);
                        }
                    }
                    assert(r@.slots =~= target);
                    assert(r@ =~= self@.updated(code_of::<K, S>(kd), kd, value));
                }
                r
            },
            None => {
                let idx: usize = self.entries.len();
                let indices = self.indices.update(hv.get(), idx);
                let mut entries = self.entries.duplicate();
                let ghost mid = entries@;
                entries.push_back(Some(bucket));
                let r = IndexMap { indices, entries, hash_builder: self.hash_builder.clone() };
                proof {
                    let target = self@.slots.push(Some((kd, value)));
                    assert forall|j: int| 0 <= j < r@.slots.len() implies r@.slots[j]
                        == target[j] by {
                        if j < self.entries@.len() {
                            lemma_cloned_slot_view::<K, V>(self.entries@[j], mid[j]);
                            lemma_cloned_slot_view::<K, V>(mid[j], r.entries@[j]);
                        }
                    }
                    assert(r@.slots =~= target);
                    assert(r@ =~= self@.updated(code_of::<K, S>(kd), kd, value));
                }
                r
            },
        }
    }

    /// Write `(key, value)` in place: the same logic as `update`, performed
    /// on this map's owned substructures. The fast path for incremental
    /// construction before a map becomes shared.
    pub fn insert(&mut self, key: K, value: V)
        requires
            old(self).wf(),
            old(self)@.slots.len() < usize::MAX,
            clone_keeps_values::<V>(),
        ensures
            final(self)@ == old(self)@.updated(
                code_of::<K, S>(key.deep_view()),
                key.deep_view(),
                value,
            ),
            final(self).wf(),
    {
        let ghost kd = key.deep_view();
        let hv = self.hash(&key);
        let bucket = Bucket { key, value };
        proof {
            lemma_updated_wf_code::<K, V, S>(self@, kd, value);
        }
        match self.indices.get(hv.get()) {
            Some(idx) => {
                proof {
                    assert(self@.index[hv.spec_code()] < self@.slots.len());
                }
                let ghost before = self@;
                let ghost esnap = self.entries@;
                self.entries.set_at(idx, Some(bucket));
                proof {
                    let target = before.slots.update(idx as int, Some((kd, value)));
                    assert forall|j: int| 0 <= j < self@.slots.len() implies self@.slots[j]
                        == target[j] by {
                        if j != idx {
                            lemma_cloned_slot_view::<K, V>(esnap[j], self.entries@[j]);
                        }
                    }
                    assert(self@.slots =~= target);
                    assert(self@ =~= before.updated(code_of::<K, S>(kd), kd, value));
                }
            },
            None => {
                let ghost before = self@;
                let ghost esnap = self.entries@;
                let idx: usize = self.entries.len();
                self.indices.insert(hv.get(), idx);
                self.entries.push_back(Some(bucket));
                proof {
                    let target = before.slots.push(Some((kd, value)));
                    assert forall|j: int| 0 <= j < self@.slots.len() implies self@.slots[j]
                        == target[j] by {
                        if j < esnap.len() {
                            lemma_cloned_slot_view::<K, V>(esnap[j], self.entries@[j]);
                        }
                    }
                    assert(self@.slots =~= target);
                    assert(self@ =~= before.updated(code_of::<K, S>(kd), kd, value));
                }
            },
        }
    }

    /// A new snapshot with `key`'s code untracked and its slot tombstoned;
    /// the receiver is untouched. The slot keeps its position, so every
    /// other index entry stays valid. An untracked code is a defined no-op:
    /// the result equals the receiver.
    pub fn without(&self, key: &K) -> (r: Self)
        requires
            self.wf(),
            clone_keeps_values::<V>(),
        ensures
            r@ == self@.removed(code_of::<K, S>(key.deep_view())),
            r.wf(),
    {
        let ghost kd = key.deep_view();
        let hv = self.hash(key);
        proof {
            crate::model::lemma_removed_wf(self@, hashfn::<K, S>(), code_of::<K, S>(kd));
        }
        match self.indices.get(hv.get()) {
            Some(idx) => {
                proof {
                    assert(self@.index[hv.spec_code()] < self@.slots.len());
                }
                let indices = self.indices.without(hv.get());
                let entries = self.entries.update_at(idx, None);
                let r = IndexMap { indices, entries, hash_builder: self.hash_builder.clone() };
                proof {
                    let target = self@.slots.update(idx as int, None);
                    assert forall|j: int| 0 <= j < r@.slots.len() implies r@.slots[j]
                        == target[j] by {
                        if j != idx {
                            lemma_cloned_slot_view::<K, V>(self.entries@[j], r.entries@[j]);
                        }
                    }
                    assert(r@.slots =~= target);
                    assert(r@ =~= self@.removed(code_of::<K, S>(kd)));
                }
                r
            },
            None => { self.duplicate() },
        }
    }

    /// Remove `key`'s code in place. Like the functional removal, this
    /// tombstones the slot instead of shifting later slots down: a physical
    /// shift would silently invalidate the tracked position of every hash
    /// behind it.
    pub fn remove(&mut self, key: &K)
        requires
            old(self).wf(),
            clone_keeps_values::<V>(),
        ensures
            final(self)@ == old(self)@.removed(code_of::<K, S>(key.deep_view())),
            final(self).wf(),
    {
        let ghost kd = key.deep_view();
        let hv = self.hash(key);
        proof {
            crate::model::lemma_removed_wf(self@, hashfn::<K, S>(), code_of::<K, S>(kd));
        }
        match self.indices.get(hv.get()) {
            Some(idx) => {
                proof {
                    assert(self@.index[hv.spec_code()] < self@.slots.len());
                }
                let ghost before = self@;
                let ghost esnap = self.entries@;
                self.indices.remove(hv.get());
                self.entries.set_at(idx, None);
                proof {
                    let target = before.slots.update(idx as int, None);
                    assert forall|j: int| 0 <= j < self@.slots.len() implies self@.slots[j]
                        == target[j] by {
                        if j != idx {
                            lemma_cloned_slot_view::<K, V>(esnap[j], self.entries@[j]);
                        }
                    }
                    assert(self@.slots =~= target);
                    assert(self@ =~= before.removed(code_of::<K, S>(kd)));
                }
            },
            None => {},
        }
    }

    /// The map built by writing each pair in turn into an empty map with a
    /// defaulted strategy; a later pair whose key's code is already tracked
    /// overwrites in place.
    pub fn from_pairs(pairs: Vec<(K, V)>) -> (r: Self) where S: Default
        requires
            clone_keeps_values::<V>(),
        ensures
            r@ == MapModel::built(hashfn::<K, S>(), pairs_view(pairs@)),
            r.wf(),
    {
        let ghost all = pairs_view(pairs@);
        let mut rest = pairs;
        let total: usize = rest.len();
        proof {
            assert(all.len() == total as int);
        }
        let mut m = Self::new();
        proof {
            assert(all.take(0) =~= Seq::<(<K as DeepView>::V, V)>::empty());
        }
        let ghost done: int = 0;
        while rest.len() > 0
            invariant
                clone_keeps_values::<V>(),
                0 <= done <= all.len(),
                all.len() <= usize::MAX,
                all == pairs_view(pairs@),
                rest@ =~= pairs@.skip(done),
                rest@.len() == all.len() - done,
                m@ == MapModel::built(hashfn::<K, S>(), all.take(done)),
                m.wf(),
                m@.slots.len() <= done,
            decreases rest@.len(),
        {
            let p = rest.remove(0);
            proof {
                assert(p == pairs@[done]);
                assert(rest@ =~= pairs@.skip(done + 1));
                assert(all.take(done + 1).drop_last() =~= all.take(done));
                assert(all.take(done + 1).last() == all[done]);
                assert(all[done] == (p.0.deep_view(), p.1));
                assert(hashfn::<K, S>()(p.0.deep_view()) == code_of::<K, S>(p.0.deep_view()));
            }
            m.insert(p.0, p.1);
            proof {
                done = done + 1;
            }
        }
        proof {
            assert(all.take(done) =~= all);
        }
        m
    }

    /// A consuming iterator over the live pairs, in first-insertion order.
    pub fn into_iter(self) -> (it: IntoIter<K, V>)
        requires
            clone_keeps_values::<V>(),
        ensures
            pairs_view(it@) == self@.pairs(),
    {
        let ghost model = self@;
        let ghost eview = self.entries@;
        let mut slots = self.entries.into_elems();
        let ghost orig = slots@;
        let mut rev: Vec<(K, V)> = Vec::new();
        proof {
            lemma_bucket_pairs_view::<K, V>(orig);
            assert forall|i: int| 0 <= i < orig.len() implies #[trigger] slot_view(orig[i])
                == model.slots[i] by {
                lemma_cloned_slot_view::<K, V>(eview[i], orig[i]);
            }
            assert(orig.map_values(|o: Option<Bucket<K, V>>| slot_view(o)) =~= model.slots);
            assert(rev@.reverse() =~= Seq::<(K, V)>::empty());
        }
        while slots.len() > 0
            invariant
                bucket_pairs(orig) == bucket_pairs(slots@) + rev@.reverse(),
            decreases slots@.len(),
        {
            let ghost srev = rev@;
            let ghost sslots = slots@;
            let o = slots.pop();
            match o {
                Some(Some(b)) => {
                    rev.push((b.key, b.value));
                    proof {
                        assert(rev@.reverse() =~= seq![(b.key, b.value)] + srev.reverse());
                        assert(bucket_pairs(sslots) == bucket_pairs(slots@).push(
                            (b.key, b.value),
                        ));
                        assert(bucket_pairs(slots@).push((b.key, b.value)) + srev.reverse()
                            =~= bucket_pairs(slots@) + rev@.reverse());
                    }
                },
                Some(None) => {
                    proof {
                        assert(bucket_pairs(sslots) == bucket_pairs(slots@));
                    }
                },
                None => {},
            }
        }
        proof {
            assert(bucket_pairs(slots@) =~= Seq::<(K, V)>::empty());
            assert(rev@.reverse() =~= bucket_pairs(orig));
        }
        IntoIter { rev }
    }
}

/// The live pairs of a bucket-slot sequence, in ascending position.
spec fn bucket_pairs<K, V>(s: Seq<Option<Bucket<K, V>>>) -> Seq<(K, V)>
    decreases s.len(),
{
    if s.len() == 0 {
        Seq::empty()
    } else {
        let rest = bucket_pairs(s.drop_last());
        match s.last() {
            Some(b) => rest.push((b.key, b.value)),
            None => rest,
        }
    }
}

/// Taking key values commutes with collecting the live pairs.
proof fn lemma_bucket_pairs_view<K: DeepView, V>(s: Seq<Option<Bucket<K, V>>>)
    ensures
        pairs_view(bucket_pairs(s)) == live_pairs(
            s.map_values(|o: Option<Bucket<K, V>>| slot_view(o)),
        ),
    decreases s.len(),
{
    let vs = s.map_values(|o: Option<Bucket<K, V>>| slot_view(o));
    if s.len() == 0 {
        assert(pairs_view(bucket_pairs(s)) =~= Seq::<(<K as DeepView>::V, V)>::empty());
        assert(vs =~= Seq::<Option<(<K as DeepView>::V, V)>>::empty());
    } else {
        lemma_bucket_pairs_view(s.drop_last());
        assert(vs.drop_last() =~= s.drop_last().map_values(
            |o: Option<Bucket<K, V>>| slot_view(o),
        ));
        assert(vs.last() == slot_view(s.last()));
        match s.last() {
            Some(b) => {
                assert(pairs_view(bucket_pairs(s)) =~= pairs_view(
                    bucket_pairs(s.drop_last()),
                ).push((b.key.deep_view(), b.value)));
            },
            None => {},
        }
    }
}

/// `update` and `insert` write a key under its own code, so the model-level
/// write preserves well-formedness.
proof fn lemma_updated_wf_code<K: Key, V, S: HashStrategy<K>>(
    m: MapModel<<K as DeepView>::V, V>,
    kd: <K as DeepView>::V,
    v: V,
)
    requires
        m.wf(hashfn::<K, S>()),
    ensures
        m.updated(code_of::<K, S>(kd), kd, v).wf(hashfn::<K, S>()),
{
    assert(hashfn::<K, S>()(kd) == code_of::<K, S>(kd));
    crate::model::lemma_updated_wf(m, hashfn::<K, S>(), kd, v);
}

/// A consuming iterator over a map's live pairs; its view is the sequence of
/// pairs not yet yielded, front first.
pub struct IntoIter<K, V> {
    rev: Vec<(K, V)>,
}

impl<K, V> View for IntoIter<K, V> {
    type V = Seq<(K, V)>;

    closed spec fn view(&self) -> Seq<(K, V)> {
        self.rev@.reverse()
    }
}

impl<K, V> IntoIter<K, V> {
    /// The next live pair, front first; `None` once all pairs are yielded.
    pub fn next(&mut self) -> (r: Option<(K, V)>)
        ensures
            match r {
                Some(p) => old(self)@.len() > 0 && p == old(self)@[0] && final(self)@ == old(
                    self,
                )@.skip(1),
                None => old(self)@.len() == 0 && final(self)@ == old(self)@,
            },
    {
        let ghost before = self.rev@;
        let r = self.rev.pop();
        proof {
            if before.len() > 0 {
                assert(self.rev@ =~= before.drop_last());
                assert(before.drop_last().reverse() =~= before.reverse().skip(1));
            }
        }
        match r {
            Some(p) => Some(p),
            None => None,
        }
    }
}

} // verus!
