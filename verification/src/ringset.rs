//! A bounded FIFO set: duplicate pushes are ignored, and once the capacity is
//! reached each new key evicts the oldest one, in strict insertion order.

use vstd::prelude::*;

verus! {

/// Keys a `RingSet` can hold: each key has a mathematical identity (`key`),
/// and equality of identities is decidable at run time.
pub trait RingKey: Sized + core::fmt::Debug {
    /// The mathematical value this key stands for.
    type K;

    /// The identity by which duplicates are detected.
    spec fn key(&self) -> Self::K;

    /// Decide whether two keys have the same identity.
    fn key_eq(&self, other: &Self) -> (r: bool)
        ensures
            r == (self.key() == other.key()),
    ;
}

impl RingKey for String {
    type K = Seq<char>;

    open spec fn key(&self) -> Seq<char> {
        self@
    }

    fn key_eq(&self, other: &Self) -> (r: bool) {
        self.eq(other)
    }
}

impl RingKey for u32 {
    type K = u32;

    open spec fn key(&self) -> u32 {
        *self
    }

    fn key_eq(&self, other: &Self) -> (r: bool) {
        *self == *other
    }
}

/// A FIFO queue of distinct keys, bounded by `capacity`.
///
/// The queue and the set of known keys of the original design are one
/// sequence here: the sequence order is the insertion order, and membership
/// is decided against the same sequence.
#[derive(Debug)]
pub struct RingSet<T: RingKey> {
    items: Vec<T>,
    capacity: usize,
}

impl<T: RingKey> RingSet<T> {
    /// The identities held, oldest first.
    pub closed spec fn keys(&self) -> Seq<T::K> {
        self.items@.map_values(|t: T| t.key())
    }

    pub closed spec fn spec_capacity(&self) -> usize {
        self.capacity
    }

    /// Well-formed: no duplicate identities, and the size is bounded by the
    /// capacity (a capacity of zero still admits one element, as pushing
    /// first evicts and then inserts).
    pub open spec fn wf(&self) -> bool {
        &&& forall|i: int, j: int|
            0 <= i < j < self.keys().len() ==> self.keys()[i] != self.keys()[j]
        &&& self.keys().len() <= if self.spec_capacity() == 0 {
            1int
        } else {
            self.spec_capacity() as int
        }
    }

    /// An empty ring-set that will hold at most `capacity` keys.
    pub fn with_capacity(capacity: usize) -> (r: Self)
        ensures
            r.wf(),
            r.keys() == Seq::<T::K>::empty(),
            r.spec_capacity() == capacity,
    {
        let r = RingSet { items: Vec::new(), capacity };
        assert(r.keys() =~= Seq::<T::K>::empty());
        r
    }

    /// Whether a key with this identity is currently held.
    pub fn contains(&self, key: &T) -> (r: bool)
        ensures
            r == self.keys().contains(key.key()),
    {
        let n = self.items.len();
        for i in 0..n
            invariant
                n == self.items@.len(),
            forall|j: int| 0 <= j < i ==> self.keys()[j] != key.key(),
        {
            if self.items[i].key_eq(key) {
                assert(self.keys()[i as int] == key.key());
                return true;
            }
        }
        assert(!self.keys().contains(key.key()));
        false
    }

    /// Remove and return the oldest key, if any.
    fn pop(&mut self) -> (r: Option<T>)
        ensures
            final(self).spec_capacity() == old(self).spec_capacity(),
            old(self).keys().len() == 0 ==> r is None && final(self).keys() == old(self).keys(),
            old(self).keys().len() > 0 ==> {
                &&& r matches Some(e) && e.key() == old(self).keys()[0]
                &&& final(self).keys() == old(self).keys().drop_first()
            },
    {
        if self.items.len() == 0 {
            return None;
        }
        let e = self.items.remove(0);
        assert(self.keys() =~= old(self).keys().drop_first());
        Some(e)
    }

    /// Push a key to the back of the queue.
    ///
    /// A key whose identity is already present is ignored (`None`, nothing
    /// changes). Otherwise, when the set is full, the oldest key is evicted
    /// and returned; eviction follows strict insertion order, unaffected by
    /// any ignored re-push.
    pub fn push(&mut self, item: T) -> (evicted: Option<T>)
        requires
            old(self).wf(),
        ensures
            final(self).wf(),
            final(self).spec_capacity() == old(self).spec_capacity(),
            old(self).keys().contains(item.key()) ==> {
                &&& evicted is None
                &&& final(self).keys() == old(self).keys()
            },
            !old(self).keys().contains(item.key()) && old(self).keys().len()
                >= old(self).spec_capacity() && old(self).keys().len() > 0 ==> {
                &&& evicted matches Some(e) && e.key() == old(self).keys()[0]
                &&& final(self).keys() == old(self).keys().drop_first().push(item.key())
            },
            !old(self).keys().contains(item.key()) && (old(self).keys().len()
                < old(self).spec_capacity() || old(self).keys().len() == 0) ==> {
                &&& evicted is None
                &&& final(self).keys() == old(self).keys().push(item.key())
            },
    {
        if self.contains(&item) {
            return None;
        }
        assert(forall|k: int|
            0 <= k < old(self).keys().len() ==> old(self).keys()[k] != item.key());

        let mut popped: Option<T> = None;
        if self.items.len() >= self.capacity && self.items.len() > 0 {
            popped = self.pop();
        }
        let ghost mid = self.keys();
        self.items.push(item);
        assert(self.keys() =~= mid.push(item.key()));
        proof {
            assert forall|i: int, j: int|
                0 <= i < j < self.keys().len() implies self.keys()[i] != self.keys()[j] by {
                if j == self.keys().len() - 1 {
                    if mid == old(self).keys().drop_first() {
                        assert(mid[i] == old(self).keys()[i + 1]);
                    }
                }
            }
        }
        popped
    }
}

} // verus!
