//! Trusted adapters around the two persistent substructures from `imbl`.
//!
//! The slot sequence is an `imbl::GenericVector` and the hash index an
//! `imbl::GenericHashMap`, both with reference-counted structural sharing.
//! Each adapter pairs the container with its mathematical contents and every
//! operation states, as a trusted contract, what the corresponding `imbl`
//! call does to those contents. The containers clone shared elements on
//! copy-on-write and on consumption, and nothing here assumes what such a
//! clone returns: wherever a slot may have been cloned, the contract says
//! only that it holds the old element or a possible result of that
//! element's own `Clone`.

use vstd::prelude::*;

verus! {

use imbl::shared_ptr::RcK;

/// Holds the `imbl` vector itself; opaque to the verifier.
#[verifier::external_body]
#[verifier::reject_recursive_types(A)]
struct VecHolder<A> {
    vec: imbl::GenericVector<A, RcK>,
}

/// Holds the `imbl` hash map itself; opaque to the verifier.
#[verifier::external_body]
struct IndexHolder {
    map: imbl::GenericHashMap<u64, usize, std::hash::RandomState, RcK>,
}

/// A persistent ordered sequence of slots, together with its contents.
#[verifier::reject_recursive_types(A)]
pub struct BackingVec<A> {
    vec: VecHolder<A>,
    contents: Ghost<Seq<A>>,
}

impl<A> View for BackingVec<A> {
    type V = Seq<A>;

    closed spec fn view(&self) -> Seq<A> {
        self.contents@
    }
}

impl<A> BackingVec<A> {
    /// Relies on `imbl::GenericVector::new`: an empty vector.
    #[verifier::external_body]
    pub fn new() -> (r: Self)
        ensures
            r@ == Seq::<A>::empty(),
    {
        BackingVec { vec: VecHolder { vec: imbl::GenericVector::new() }, contents: Ghost(Seq::empty()) }
    }

    /// Relies on `imbl::GenericVector::len`: the number of elements.
    #[verifier::external_body]
    pub fn len(&self) -> (n: usize)
        ensures
            n == self@.len(),
    {
        self.vec.vec.len()
    }

    /// Relies on `imbl::GenericVector::get`: a reference to the element at
    /// `i`, which is `Some` exactly when `i` is in bounds.
    #[verifier::external_body]
    pub fn index(&self, i: usize) -> (r: &A)
        requires
            i < self@.len(),
        ensures
            *r == self@[i as int],
    {
        self.vec.vec.get(i).unwrap()
    }
}

impl<A: Clone> BackingVec<A> {
    /// Relies on `imbl::GenericVector::push_back`: appends the element. A
    /// chunk still shared with another vector is cloned first, which runs
    /// the element type's own `Clone` on the elements in it, so an earlier
    /// element is afterwards either the old value or something that value's
    /// `clone` could return.
    #[verifier::external_body]
    pub fn push_back(&mut self, a: A)
        requires
            old(self)@.len() < usize::MAX,
        ensures
            final(self)@.len() == old(self)@.len() + 1,
            final(self)@[old(self)@.len() as int] == a,
            forall|i: int|
                0 <= i < old(self)@.len() ==> cloned::<A>(
                    old(self)@[i],
                    #[trigger] final(self)@[i],
                ),
    {
        self.vec.vec.push_back(a);
    }

    /// Relies on `imbl::GenericVector::set`: replaces the element at `i` in
    /// place. Shared chunks are cloned first, as under `push_back`.
    #[verifier::external_body]
    pub fn set_at(&mut self, i: usize, a: A)
        requires
            i < old(self)@.len(),
        ensures
            final(self)@.len() == old(self)@.len(),
            final(self)@[i as int] == a,
            forall|j: int|
                0 <= j < old(self)@.len() && j != i ==> cloned::<A>(
                    old(self)@[j],
                    #[trigger] final(self)@[j],
                ),
    {
        self.vec.vec.set(i, a);
    }

    /// Relies on `imbl::GenericVector::update`: a new vector with the
    /// element at `i` replaced; the receiver is untouched. Shared chunks of
    /// the copy are cloned, as under `push_back`.
    #[verifier::external_body]
    pub fn update_at(&self, i: usize, a: A) -> (r: Self)
        requires
            i < self@.len(),
        ensures
            r@.len() == self@.len(),
            r@[i as int] == a,
            forall|j: int|
                0 <= j < self@.len() && j != i ==> cloned::<A>(self@[j], #[trigger] r@[j]),
    {
        BackingVec { vec: VecHolder { vec: self.vec.vec.update(i, a) }, contents: Ghost(arbitrary()) }
    }

    /// Relies on `imbl::GenericVector::clone`: a vector with the same
    /// elements, sharing structure with the receiver where it can; a small
    /// inline vector clones every element instead, so each element of the
    /// copy is the old value or something its `clone` could return.
    #[verifier::external_body]
    pub fn duplicate(&self) -> (r: Self)
        ensures
            r@.len() == self@.len(),
            forall|i: int| 0 <= i < self@.len() ==> cloned::<A>(self@[i], #[trigger] r@[i]),
    {
        BackingVec { vec: VecHolder { vec: self.vec.vec.clone() }, contents: Ghost(arbitrary()) }
    }

    /// Relies on `imbl::GenericVector::into_iter`: yields every element,
    /// front to back; an element whose chunk is still shared is yielded as a
    /// `clone` of the old value.
    #[verifier::external_body]
    pub fn into_elems(self) -> (r: Vec<A>)
        ensures
            r@.len() == self@.len(),
            forall|i: int| 0 <= i < self@.len() ==> cloned::<A>(self@[i], #[trigger] r@[i]),
    {
        self.vec.vec.into_iter().collect()
    }
}

/// The contents of an empty hash index.
pub open spec fn empty_index() -> Map<u64, nat> {
    Map::empty()
}

/// A persistent mapping from hash code to slot position, together with its
/// contents.
pub struct BackingIndex {
    map: IndexHolder,
    contents: Ghost<Map<u64, nat>>,
}

impl View for BackingIndex {
    type V = Map<u64, nat>;

    closed spec fn view(&self) -> Map<u64, nat> {
        self.contents@
    }
}

impl BackingIndex {
    /// Relies on `imbl::GenericHashMap::new`: an empty map.
    #[verifier::external_body]
    pub fn new() -> (r: Self)
        ensures
            r@ == empty_index(),
    {
        BackingIndex { map: IndexHolder { map: imbl::GenericHashMap::new() }, contents: Ghost(Map::empty()) }
    }

    /// Relies on `imbl::GenericHashMap::get`: the value bound to the key,
    /// `None` exactly when the key is absent.
    #[verifier::external_body]
    pub fn get(&self, h: u64) -> (r: Option<usize>)
        ensures
            match r {
                Some(i) => self@.dom().contains(h) && self@[h] == i as nat,
                None => !self@.dom().contains(h),
            },
    {
        self.map.map.get(&h).copied()
    }

    /// Relies on `imbl::GenericHashMap::insert`: binds the key to the value
    /// in place, overwriting any previous binding.
    #[verifier::external_body]
    pub fn insert(&mut self, h: u64, i: usize)
        ensures
            final(self)@ == old(self)@.insert(h, i as nat),
    {
        self.map.map.insert(h, i);
    }

    /// Relies on `imbl::GenericHashMap::update`: a new map with the key
    /// bound to the value; the receiver is untouched and unchanged structure
    /// is shared.
    #[verifier::external_body]
    pub fn update(&self, h: u64, i: usize) -> (r: Self)
        ensures
            r@ == self@.insert(h, i as nat),
    {
        BackingIndex { map: IndexHolder { map: self.map.map.update(h, i) }, contents: Ghost(self@.insert(h, i as nat)) }
    }

    /// Relies on `imbl::GenericHashMap::without`: a new map with the key
    /// unbound; the receiver is untouched and unchanged structure is shared.
    #[verifier::external_body]
    pub fn without(&self, h: u64) -> (r: Self)
        ensures
            r@ == self@.remove(h),
    {
        BackingIndex { map: IndexHolder { map: self.map.map.without(&h) }, contents: Ghost(self@.remove(h)) }
    }

    /// Relies on `imbl::GenericHashMap::remove`: unbinds the key in place.
    #[verifier::external_body]
    pub fn remove(&mut self, h: u64)
        ensures
            final(self)@ == old(self)@.remove(h),
    {
        self.map.map.remove(&h);
    }

    /// Relies on `imbl::GenericHashMap::clone`: an equal map sharing all
    /// structure with the receiver.
    #[verifier::external_body]
    pub fn duplicate(&self) -> (r: Self)
        ensures
            r@ == self@,
    {
        BackingIndex { map: IndexHolder { map: self.map.map.clone() }, contents: Ghost(self@) }
    }
}

} // verus!
