//! Key equality and pluggable hash strategies.
//!
//! Keys are compared at the level of their mathematical value (their deep
//! view): `key_eq` decides exactly that equality. A hash strategy is a pure
//! function from a key's value to a code; equal keys always receive equal
//! codes under the same strategy type, while distinct keys may collide.

use vstd::prelude::*;

verus! {

use vstd::utf8::encode_utf8;

/// A type usable as a map key or set element: its equality on deep views is
/// decidable by executable code, and cloning it cannot change its value.
/// The clone obligation matters because the persistent substructures clone
/// shared elements on copy-on-write: it is what lets the container promise
/// that untouched entries keep their keys.
pub trait Key: DeepView + Clone + Sized {
    /// Decide whether two keys denote the same value.
    fn key_eq(&self, other: &Self) -> (r: bool)
        ensures
            r == (self.deep_view() == other.deep_view()),
    ;

    /// Every result `clone` may return carries the same key value.
    proof fn clone_keeps_key(x: Self, y: Self)
        requires
            call_ensures(Self::clone, (&x,), y),
        ensures
            y.deep_view() == x.deep_view(),
    ;
}

/// Whatever `clone` returns for a value of `V` is that value itself. The
/// container requires this of the stored value type wherever copy-on-write
/// may clone untouched slots; it holds for every type whose `clone` carries
/// that contract, such as the integers and `String`.
pub open spec fn clone_keeps_values<V: Clone>() -> bool {
    forall|x: V, y: V| #[trigger] call_ensures(V::clone, (&x,), y) ==> y == x
}

/// Every key type keeps its value under cloning, as its `Key` impl proves.
pub proof fn lemma_key_clone_keeps<K: Key>(x: K, y: K)
    requires
        cloned::<K>(x, y),
    ensures
        y.deep_view() == x.deep_view(),
{
    if call_ensures(K::clone, (&x,), y) {
        K::clone_keeps_key(x, y);
    }
}

/// The unit value type trivially keeps its value under cloning.
pub proof fn lemma_unit_clone_keeps_values()
    ensures
        clone_keeps_values::<()>(),
{
}

/// A pluggable hash strategy for keys of type `K`: a pure function from the
/// key's value to a word-sized code, fixed by the strategy type.
pub trait HashStrategy<K: DeepView>: Sized {
    /// The code assigned to a key's value.
    spec fn hash_of(k: <K as DeepView>::V) -> u64;

    /// Compute the code of `key`.
    fn hash(&self, key: &K) -> (h: u64)
        ensures
            h == Self::hash_of(key.deep_view()),
    ;
}

impl Key for u64 {
    fn key_eq(&self, other: &Self) -> (r: bool) {
        *self == *other
    }

    proof fn clone_keeps_key(x: Self, y: Self) {
    }
}

impl Key for u32 {
    fn key_eq(&self, other: &Self) -> (r: bool) {
        *self == *other
    }

    proof fn clone_keeps_key(x: Self, y: Self) {
    }
}

impl Key for usize {
    fn key_eq(&self, other: &Self) -> (r: bool) {
        *self == *other
    }

    proof fn clone_keeps_key(x: Self, y: Self) {
    }
}

impl Key for i64 {
    fn key_eq(&self, other: &Self) -> (r: bool) {
        *self == *other
    }

    proof fn clone_keeps_key(x: Self, y: Self) {
    }
}

impl Key for i32 {
    fn key_eq(&self, other: &Self) -> (r: bool) {
        *self == *other
    }

    proof fn clone_keeps_key(x: Self, y: Self) {
    }
}

impl Key for bool {
    fn key_eq(&self, other: &Self) -> (r: bool) {
        *self == *other
    }

    proof fn clone_keeps_key(x: Self, y: Self) {
    }
}

/// A zero-information key, for maps and sets used only for presence of the
/// one possible element.
pub struct UnitKey;

impl DeepView for UnitKey {
    type V = ();

    open spec fn deep_view(&self) -> () {
        ()
    }
}

impl Clone for UnitKey {
    /// The copy carries the same (only) key value.
    fn clone(&self) -> (r: Self)
        ensures
            r.deep_view() == self.deep_view(),
    {
        UnitKey
    }
}

impl Key for UnitKey {
    fn key_eq(&self, other: &Self) -> (r: bool) {
        true
    }

    proof fn clone_keeps_key(x: Self, y: Self) {
    }
}

impl Key for String {
    fn key_eq(&self, other: &Self) -> (r: bool) {
        *self == *other
    }

    proof fn clone_keeps_key(x: Self, y: Self) {
    }
}

/// A compound key of two parts. The standard tuple cannot serve here: its
/// `Clone` carries no contract the clone obligation could rest on, so the
/// library provides its own pair with a verified `Clone`.
pub struct PairKey<A, B> {
    pub first: A,
    pub second: B,
}

impl<A: DeepView, B: DeepView> DeepView for PairKey<A, B> {
    type V = (<A as DeepView>::V, <B as DeepView>::V);

    open spec fn deep_view(&self) -> Self::V {
        (self.first.deep_view(), self.second.deep_view())
    }
}

impl<A: Key, B: Key> Clone for PairKey<A, B> {
    /// Clone each part; by the parts' own obligations the copy carries the
    /// same key value.
    fn clone(&self) -> (r: Self)
        ensures
            r.deep_view() == self.deep_view(),
    {
        let first = self.first.clone();
        let second = self.second.clone();
        proof {
            lemma_key_clone_keeps::<A>(self.first, first);
            lemma_key_clone_keeps::<B>(self.second, second);
        }
        PairKey { first, second }
    }
}

impl<A: Key, B: Key> Key for PairKey<A, B> {
    fn key_eq(&self, other: &Self) -> (r: bool) {
        self.first.key_eq(&other.first) && self.second.key_eq(&other.second)
    }

    proof fn clone_keeps_key(x: Self, y: Self) {
    }
}

/// The FNV-1a offset basis.
pub const FNV_SEED: u64 = 0xcbf29ce484222325;

/// The FNV-1a prime.
pub const FNV_PRIME: u64 = 0x100000001b3;

/// The FNV-1a digest of a byte sequence.
pub open spec fn fnv1a(s: Seq<u8>) -> u64
    decreases s.len(),
{
    if s.len() == 0 {
        FNV_SEED
    } else {
        (fnv1a(s.drop_last()) ^ (s.last() as u64)).wrapping_mul(FNV_PRIME)
    }
}

/// Compute the FNV-1a digest of a byte slice.
pub fn fnv1a_bytes(bytes: &[u8]) -> (h: u64)
    ensures
        h == fnv1a(bytes@),
{
    let mut h: u64 = FNV_SEED;
    let n: usize = bytes.len();
    for i in 0..n
        invariant
            n == bytes@.len(),
            h == fnv1a(bytes@.take(i as int)),
    {
        h = (h ^ (bytes[i] as u64)).wrapping_mul(FNV_PRIME);
        proof {
            assert(bytes@.take(i + 1).drop_last() =~= bytes@.take(i as int));
            assert(bytes@.take(i + 1).last() == bytes@[i as int]);
        }
    }
    proof {
        assert(bytes@.take(n as int) =~= bytes@);
    }
    h
}

/// Mix two codes into one, FNV-style.
pub open spec fn spec_mix(a: u64, b: u64) -> u64 {
    (a ^ b).wrapping_mul(FNV_PRIME)
}

/// The default strategy: integers hash to themselves, strings to the FNV-1a
/// digest of their UTF-8 bytes, pairs to a mix of their parts' codes.
#[derive(Clone, Copy, Default)]
pub struct DefaultStrategy;

impl HashStrategy<u64> for DefaultStrategy {
    open spec fn hash_of(k: u64) -> u64 {
        k
    }

    fn hash(&self, key: &u64) -> (h: u64) {
        *key
    }
}

impl HashStrategy<u32> for DefaultStrategy {
    open spec fn hash_of(k: u32) -> u64 {
        k as u64
    }

    fn hash(&self, key: &u32) -> (h: u64) {
        *key as u64
    }
}

impl HashStrategy<usize> for DefaultStrategy {
    open spec fn hash_of(k: usize) -> u64 {
        k as u64
    }

    fn hash(&self, key: &usize) -> (h: u64) {
        *key as u64
    }
}

impl HashStrategy<i64> for DefaultStrategy {
    open spec fn hash_of(k: i64) -> u64 {
        k as u64
    }

    fn hash(&self, key: &i64) -> (h: u64) {
        *key as u64
    }
}

impl HashStrategy<i32> for DefaultStrategy {
    open spec fn hash_of(k: i32) -> u64 {
        k as u64
    }

    fn hash(&self, key: &i32) -> (h: u64) {
        *key as u64
    }
}

impl HashStrategy<bool> for DefaultStrategy {
    open spec fn hash_of(k: bool) -> u64 {
        if k {
            1
        } else {
            0
        }
    }

    fn hash(&self, key: &bool) -> (h: u64) {
        if *key {
            1
        } else {
            0
        }
    }
}

impl HashStrategy<UnitKey> for DefaultStrategy {
    open spec fn hash_of(k: ()) -> u64 {
        0
    }

    fn hash(&self, key: &UnitKey) -> (h: u64) {
        0
    }
}

impl HashStrategy<String> for DefaultStrategy {
    open spec fn hash_of(k: Seq<char>) -> u64 {
        fnv1a(encode_utf8(k))
    }

    fn hash(&self, key: &String) -> (h: u64) {
        fnv1a_bytes(key.as_str().as_bytes())
    }
}

impl<A: Key, B: Key> HashStrategy<PairKey<A, B>> for DefaultStrategy where
    DefaultStrategy: HashStrategy<A> + HashStrategy<B>,
 {
    open spec fn hash_of(k: (<A as DeepView>::V, <B as DeepView>::V)) -> u64 {
        spec_mix(
            <DefaultStrategy as HashStrategy<A>>::hash_of(k.0),
            <DefaultStrategy as HashStrategy<B>>::hash_of(k.1),
        )
    }

    fn hash(&self, key: &PairKey<A, B>) -> (h: u64) {
        let a: u64 = <DefaultStrategy as HashStrategy<A>>::hash(self, &key.first);
        let b: u64 = <DefaultStrategy as HashStrategy<B>>::hash(self, &key.second);
        (a ^ b).wrapping_mul(FNV_PRIME)
    }
}

/// A deliberately narrow strategy for `u64` keys: only the low bits of the
/// key reach the code, so distinct keys collide readily. Useful to observe
/// the documented one-slot-per-code behaviour under collisions.
#[derive(Clone, Copy, Default)]
pub struct MaskStrategy;

impl HashStrategy<u64> for MaskStrategy {
    open spec fn hash_of(k: u64) -> u64 {
        k & 0xf
    }

    fn hash(&self, key: &u64) -> (h: u64) {
        *key & 0xf
    }
}

} // verus!
