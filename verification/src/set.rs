//! The element set: the map aggregate specialized to a unit value type.
//!
//! Membership is map lookup-presence, insertion is a map write with the unit
//! value, removal and iteration forward to the map, so the set inherits the
//! map's first-insertion order and its one-slot-per-code behaviour.

use vstd::prelude::*;

verus! {

use crate::keys::{lemma_unit_clone_keeps_values, HashStrategy, Key};
use crate::map::{code_of, hashfn, pairs_view, IndexMap};
use crate::model::MapModel;

/// An element sequence paired with the unit value.
pub open spec fn unit_pairs<T>(s: Seq<T>) -> Seq<(T, ())> {
    s.map_values(|t: T| (t, ()))
}

/// An immutable, structurally shared set of elements that preserves
/// first-insertion order.
#[verifier::reject_recursive_types(T)]
pub struct IndexSet<T, S> {
    map: IndexMap<T, (), S>,
}

impl<T: DeepView, S> View for IndexSet<T, S> {
    type V = MapModel<<T as DeepView>::V, ()>;

    closed spec fn view(&self) -> Self::V {
        self.map@
    }
}

impl<T: DeepView, S: HashStrategy<T>> IndexSet<T, S> {
    /// The two substructures agree about where every element lives.
    pub open spec fn wf(&self) -> bool {
        self@.wf(hashfn::<T, S>())
    }

    /// The element values, in first-insertion order.
    pub open spec fn elems(&self) -> Seq<<T as DeepView>::V> {
        self@.pairs().map_values(|p: (<T as DeepView>::V, ())| p.0)
    }

    /// An empty set with the given hash strategy.
    pub fn with_hasher(hash_builder: S) -> (r: Self)
        ensures
            r@ == MapModel::<<T as DeepView>::V, ()>::empty(),
            r.wf(),
    {
        IndexSet { map: IndexMap::with_hasher(hash_builder) }
    }

    /// An empty set with a defaulted hash strategy.
    pub fn new() -> (r: Self) where S: Default
        ensures
            r@ == MapModel::<<T as DeepView>::V, ()>::empty(),
            r.wf(),
    {
        IndexSet { map: IndexMap::new() }
    }

    /// The number of slots, live and tombstoned alike.
    pub fn len(&self) -> (n: usize)
        ensures
            n == self@.slots.len(),
    {
        self.map.len()
    }

    /// Whether no slot was ever filled.
    pub fn is_empty(&self) -> (r: bool)
        ensures
            r == (self@.slots.len() == 0),
    {
        self.map.is_empty()
    }

    /// The live elements in first-insertion order, as references.
    pub fn iter(&self) -> (r: Vec<&T>)
        ensures
            r@.len() == self.elems().len(),
            forall|j: int|
                #![trigger r@[j]]
                0 <= j < r@.len() ==> r@[j].deep_view() == self.elems()[j],
    {
        let pairs = self.map.iter();
        let n: usize = pairs.len();
        let mut r: Vec<&T> = Vec::new();
        for i in 0..n
            invariant
                n == pairs@.len(),
                pairs@.len() == self@.pairs().len(),
                forall|j: int|
                    #![trigger pairs@[j]]
                    0 <= j < pairs@.len() ==> (pairs@[j].0.deep_view(), *pairs@[j].1)
                        == self@.pairs()[j],
                r@.len() == i,
                forall|j: int|
                    #![trigger r@[j]]
                    0 <= j < i ==> r@[j].deep_view() == self.elems()[j],
        {
            let p = pairs[i];
            r.push(p.0);
        }
        r
    }
}

impl<T: DeepView, S: HashStrategy<T> + Default> Default for IndexSet<T, S> {
    /// The empty set with a defaulted strategy.
    fn default() -> (r: Self)
        ensures
            r@ == MapModel::<<T as DeepView>::V, ()>::empty(),
            r.wf(),
    {
        Self::new()
    }
}

impl<T: Key, S: HashStrategy<T>> IndexSet<T, S> {
    /// Order-independent content equality: as many live elements, and every
    /// element of this set present in `other`.
    pub open spec fn set_equiv(&self, other: &Self) -> bool {
        &&& self.elems().len() == other.elems().len()
        &&& forall|i: int|
            0 <= i < self.elems().len() ==> other@.has(
                code_of::<T, S>(#[trigger] self.elems()[i]),
                self.elems()[i],
            )
    }

    /// Decide content equality with `other`.
    pub fn content_eq(&self, other: &Self) -> (r: bool)
        requires
            self.wf(),
            other.wf(),
        ensures
            r == self.set_equiv(other),
    {
        let a = self.iter();
        let b = other.iter();
        if a.len() != b.len() {
            return false;
        }
        let n: usize = a.len();
        for i in 0..n
            invariant
                self.wf(),
                other.wf(),
                n == a@.len(),
                a@.len() == self.elems().len(),
                self.elems().len() == other.elems().len(),
                forall|j: int|
                    #![trigger a@[j]]
                    0 <= j < a@.len() ==> a@[j].deep_view() == self.elems()[j],
                forall|j: int|
                    0 <= j < i ==> other@.has(
                        code_of::<T, S>(#[trigger] self.elems()[j]),
                        self.elems()[j],
                    ),
        {
            let t = a[i];
            if !other.contains(t) {
                return false;
            }
        }
        true
    }

    /// Whether an element with `item`'s value is present.
    pub fn contains(&self, item: &T) -> (r: bool)
        requires
            self.wf(),
        ensures
            r == self@.has(code_of::<T, S>(item.deep_view()), item.deep_view()),
    {
        self.map.contains_key(item)
    }
}

impl<T: Key + Clone, S: HashStrategy<T> + Clone> IndexSet<T, S> {
    /// A new snapshot with `item` present; the receiver is untouched. An
    /// element whose code is already tracked keeps its slot position.
    pub fn insert(&self, item: T) -> (r: Self)
        requires
            self.wf(),
            self@.slots.len() < usize::MAX,
        ensures
            r@ == self@.updated(code_of::<T, S>(item.deep_view()), item.deep_view(), ()),
            r.wf(),
    {
        proof {
            lemma_unit_clone_keeps_values();
        }
        IndexSet { map: self.map.update(item, ()) }
    }

    /// A new snapshot with `item`'s code untracked and its slot tombstoned;
    /// the receiver is untouched. An untracked code is a defined no-op.
    pub fn without(&self, item: &T) -> (r: Self)
        requires
            self.wf(),
        ensures
            r@ == self@.removed(code_of::<T, S>(item.deep_view())),
            r.wf(),
    {
        proof {
            lemma_unit_clone_keeps_values();
        }
        IndexSet { map: self.map.without(item) }
    }

    /// The set built by inserting each element in turn into an empty set
    /// with a defaulted strategy; an element whose code is already tracked
    /// overwrites in place.
    pub fn from_elems(elems: Vec<T>) -> (r: Self) where S: Default
        ensures
            r@ == MapModel::built(hashfn::<T, S>(), pairs_view(unit_pairs(elems@))),
            r.wf(),
    {
        let ghost all = elems@;
        let mut rest = elems;
        let mut pairs: Vec<(T, ())> = Vec::new();
        let ghost done: int = 0;
        proof {
            assert(pairs@ =~= unit_pairs(all.take(done)));
        }
        while rest.len() > 0
            invariant
                0 <= done <= all.len(),
                rest@ =~= all.skip(done),
                rest@.len() == all.len() - done,
                pairs@ =~= unit_pairs(all.take(done)),
            decreases rest@.len(),
        {
            let t = rest.remove(0);
            proof {
                assert(t == all[done]);
                assert(rest@ =~= all.skip(done + 1));
            }
            pairs.push((t, ()));
            proof {
                assert(all.take(done + 1) =~= all.take(done).push(all[done]));
                assert(pairs@ =~= unit_pairs(all.take(done + 1)));
                done = done + 1;
            }
        }
        proof {
            assert(all.take(done) =~= all);
            assert(pairs@ =~= unit_pairs(all));
            lemma_unit_clone_keeps_values();
        }
        IndexSet { map: IndexMap::from_pairs(pairs) }
    }

    /// A consuming iterator over the live elements, in first-insertion
    /// order.
    pub fn into_iter(self) -> (it: IntoIter<T>)
        ensures
            it@.map_values(|t: T| t.deep_view()) == self.elems(),
    {
        let ghost sv = self@;
        proof {
            lemma_unit_clone_keeps_values();
        }
        let inner = self.map.into_iter();
        proof {
            assert(inner@.map_values(|p: (T, ())| p.0).map_values(|t: T| t.deep_view())
                =~= sv.pairs().map_values(|p: (<T as DeepView>::V, ())| p.0));
        }
        IntoIter { inner }
    }
}

/// A consuming iterator over a set's live elements; its view is the sequence
/// of elements not yet yielded, front first.
#[verifier::reject_recursive_types(T)]
pub struct IntoIter<T> {
    inner: crate::map::IntoIter<T, ()>,
}

impl<T> View for IntoIter<T> {
    type V = Seq<T>;

    closed spec fn view(&self) -> Seq<T> {
        self.inner@.map_values(|p: (T, ())| p.0)
    }
}

impl<T> IntoIter<T> {
    /// The next live element, front first; `None` once all are yielded.
    pub fn next(&mut self) -> (r: Option<T>)
        ensures
            match r {
                Some(t) => old(self)@.len() > 0 && t == old(self)@[0] && final(self)@ == old(
                    self,
                )@.skip(1),
                None => old(self)@.len() == 0 && final(self)@ == old(self)@,
            },
    {
        let ghost before = self.inner@;
        let r = self.inner.next();
        match r {
            Some(p) => {
                proof {
                    assert(final(self)@ =~= old(self)@.skip(1));
                }
                Some(p.0)
            },
            None => None,
        }
    }
}

} // verus!
