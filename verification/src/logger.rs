//! The bounded buffer behind the in-application log: records are pushed
//! forever, and once the buffer is full each new record overwrites the oldest
//! one.

use vstd::prelude::*;

verus! {

/// A ring of at most `max_depth` elements. New elements go to the back;
/// once the depth is reached, each push drops the oldest element.
#[derive(Debug)]
pub struct CircularBuffer<T> {
    buffer: Vec<T>,
    start: usize,
    max_depth: usize,
}

impl<T> CircularBuffer<T> {
    /// The elements held, oldest first.
    pub closed spec fn fifo(&self) -> Seq<T> {
        self.buffer@.skip(self.start as int) + self.buffer@.take(self.start as int)
    }

    pub closed spec fn depth(&self) -> usize {
        self.max_depth
    }

    /// Well-formed: never over depth, and the wrap point only moves once the
    /// buffer is full.
    pub closed spec fn inv(&self) -> bool {
        &&& self.max_depth >= 1
        &&& self.buffer@.len() <= self.max_depth
        &&& (self.buffer@.len() < self.max_depth ==> self.start == 0)
        &&& self.start <= self.buffer@.len()
        &&& (self.start == self.buffer@.len() ==> self.start == 0)
    }

    pub open spec fn wf(&self) -> bool {
        &&& self.inv()
        &&& self.fifo().len() <= self.depth()
    }

    /// Create a new `CircularBuffer` which can hold `max_depth` elements.
    pub fn new(max_depth: usize) -> (r: Self)
        requires
            max_depth >= 1,
        ensures
            r.wf(),
            r.fifo() == Seq::<T>::empty(),
            r.depth() == max_depth,
    {
        let r = CircularBuffer { buffer: Vec::new(), start: 0, max_depth };
        proof {
            assert(r.fifo() =~= Seq::<T>::empty());
        }
        r
    }

    /// Push an element: appended until the depth is reached, afterwards the
    /// oldest element is overwritten.
    pub fn push(&mut self, elem: T)
        requires
            old(self).wf(),
        ensures
            final(self).wf(),
            final(self).depth() == old(self).depth(),
            old(self).fifo().len() < old(self).depth() ==> final(self).fifo() == old(
                self,
            ).fifo().push(elem),
            old(self).fifo().len() == old(self).depth() ==> final(self).fifo() == old(
                self,
            ).fifo().drop_first().push(elem),
    {
        let ghost pre = self.fifo();
        if self.buffer.len() < self.max_depth {
            self.buffer.push(elem);
            proof {
                assert(self.fifo() =~= pre.push(elem));
            }
        } else {
            let s = self.start;
            self.buffer[s] = elem;
            self.start = if s + 1 < self.buffer.len() {
                s + 1
            } else {
                0
            };
            proof {
                let b0 = old(self).buffer@;
                let b1 = self.buffer@;
                let n = b1.len() as int;
                assert(b1 =~= b0.update(s as int, elem));
                assert(pre.len() == n);
                assert forall|k: int| 0 <= k < n implies self.fifo()[k] == pre.drop_first().push(
                    elem,
                )[k] by {
                    if k < n - 1 {
                        assert(pre.drop_first().push(elem)[k] == pre[k + 1]);
                        if k + 1 < n - s {
                            assert(pre[k + 1] == b0[s + k + 1]);
                        } else {
                            assert(pre[k + 1] == b0[k + 1 - (n - s)]);
                        }
                    }
                }
                assert(self.fifo() =~= pre.drop_first().push(elem));
            }
        }
    }

    /// Take out all elements, oldest first, leaving an empty buffer behind.
    pub fn take(&mut self) -> (r: Vec<T>)
        requires
            old(self).wf(),
        ensures
            final(self).wf(),
            final(self).depth() == old(self).depth(),
            r@ == old(self).fifo(),
            final(self).fifo() == Seq::<T>::empty(),
    {
        // rotate until the oldest element is first
        while self.start > 0
            invariant
                self.inv(),
                self.fifo() == old(self).fifo(),
                self.max_depth == old(self).max_depth,
            decreases self.start,
        {
            let ghost b0 = self.buffer@;
            let ghost s0 = self.start as int;
            let x = self.buffer.remove(0);
            self.buffer.push(x);
            self.start = self.start - 1;
            proof {
                assert(self.buffer@ =~= b0.drop_first().push(b0[0]));
                assert(self.fifo() =~= b0.skip(s0) + b0.take(s0));
            }
        }
        let r = self.buffer.split_off(0);
        proof {
            assert(r@ =~= old(self).fifo());
            assert(self.fifo() =~= Seq::<T>::empty());
        }
        r
    }

    /// The elements in the order they were pushed, oldest first.
    pub fn iter(&self) -> (r: Vec<&T>)
        requires
            self.wf(),
        ensures
            r@.len() == self.fifo().len(),
            forall|i: int| 0 <= i < r@.len() ==> *(#[trigger] r@[i]) == self.fifo()[i],
    {
        let n = self.buffer.len();
        let s = self.start;
        let mut r: Vec<&T> = Vec::new();
        let mut k = s;
        while k < n
            invariant
                s <= k <= n == self.buffer@.len(),
                s == self.start,
                self.inv(),
                r@.len() == k - s,
                forall|i: int| 0 <= i < r@.len() ==> *(#[trigger] r@[i]) == self.fifo()[i],
            decreases n - k,
        {
            r.push(&self.buffer[k]);
            k = k + 1;
        }
        let mut k2: usize = 0;
        while k2 < s
            invariant
                k2 <= s == self.start,
                s <= n == self.buffer@.len(),
                self.inv(),
                r@.len() == (n - s) + k2,
                forall|i: int| 0 <= i < r@.len() ==> *(#[trigger] r@[i]) == self.fifo()[i],
            decreases s - k2,
        {
            r.push(&self.buffer[k2]);
            k2 = k2 + 1;
        }
        r
    }

    /// The elements newest first.
    pub fn rev_iter(&self) -> (r: Vec<&T>)
        requires
            self.wf(),
        ensures
            r@.len() == self.fifo().len(),
            forall|i: int|
                0 <= i < r@.len() ==> *(#[trigger] r@[i]) == self.fifo()[self.fifo().len() - 1 - i],
    {
        let fwd = self.iter();
        let n = fwd.len();
        let mut r: Vec<&T> = Vec::new();
        let mut k: usize = 0;
        while k < n
            invariant
                k <= n == fwd@.len(),
                fwd@.len() == self.fifo().len(),
                forall|i: int| 0 <= i < fwd@.len() ==> *(#[trigger] fwd@[i]) == self.fifo()[i],
                r@.len() == k,
                forall|i: int|
                    0 <= i < r@.len() ==> *(#[trigger] r@[i]) == self.fifo()[self.fifo().len() - 1
                        - i],
            decreases n - k,
        {
            r.push(fwd[n - 1 - k]);
            k = k + 1;
        }
        r
    }
}

} // verus!
