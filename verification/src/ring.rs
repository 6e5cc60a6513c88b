//! The ring buffer over a `Vec`, and the walk over it.

use crate::model::{lemma_put_pushes, lemma_walk_agrees_with_get, pushed, Ring};
use vstd::prelude::*;

verus! {

/// A ring buffer of fixed capacity. Once it is full, each new value takes the
/// place of the oldest one.
pub struct VecCircBuf<T> {
    buf: Vec<T>,
    write_idx: usize,
    capacity: usize,
}

impl<T: Copy> View for VecCircBuf<T> {
    type V = Ring<T>;

    /// The ring that the buffer stands for: its storage, its write cursor and
    /// its capacity.
    closed spec fn view(&self) -> Ring<T> {
        Ring { storage: self.buf@, cursor: self.write_idx as int, capacity: self.capacity as nat }
    }
}

impl<T: Copy> VecCircBuf<T> {
    /// The buffer is a well-formed ring.
    pub open spec fn wf(&self) -> bool {
        self@.wf()
    }

    /// An empty buffer for up to `capacity` values. The storage is reserved
    /// here, once, where the allocator can give it.
    pub fn new(capacity: usize) -> (s: Self)
        ensures
            s.wf(),
            s@ == Ring::<T>::empty(capacity as nat),
            s@.capacity == capacity,
            s@.len() == 0,
            s@.get(0) is None,
    {
        let mut buf: Vec<T> = Vec::new();
        let _ = buf.try_reserve(capacity);
        Self { buf, write_idx: 0, capacity }
    }

    /// The capacity that the buffer was made with.
    pub fn capacity(&self) -> (c: usize)
        ensures
            c == self@.capacity,
    {
        self.capacity
    }

    /// The number of values held.
    pub fn len(&self) -> (n: usize)
        requires
            self.wf(),
        ensures
            n == self@.len(),
            n <= self@.capacity,
    {
        self.buf.len()
    }

    /// Takes `sample` in as the newest value. A full buffer gives up its
    /// oldest value for it.
    pub fn add(&mut self, sample: T)
        requires
            old(self).wf(),
            old(self)@.capacity > 0,
        ensures
            final(self).wf(),
            final(self)@ == old(self)@.put(sample),
            final(self)@.capacity == old(self)@.capacity,
            final(self)@.contents() == pushed(old(self)@.contents(), old(self)@.capacity, sample),
    {
        proof {
            lemma_put_pushes(self@, sample);
        }
        if self.buf.len() < self.capacity {
            self.buf.push(sample);
        } else {
            self.buf[self.write_idx] = sample;
        }
        self.write_idx += 1;
        if self.write_idx >= self.capacity {
            self.write_idx = 0;
        }
    }

    /// The value that came in `k` values before the newest, so `get(0)` is the
    /// newest; `None` where the buffer does not hold that many.
    pub fn get(&self, k: usize) -> (r: Option<T>)
        requires
            self.wf(),
        ensures
            r == self@.get(k as int),
    {
        if k >= self.buf.len() {
            None
        } else if k < self.write_idx {
            Some(self.buf[self.write_idx - 1 - k])
        } else {
            // Counting back from the cursor passes slot 0: the value lies
            // as far below the end of the storage.
            Some(self.buf[self.buf.len() - 1 - (k - self.write_idx)])
        }
    }

    /// A walk over the values held, newest first. It borrows the storage as
    /// the two runs that the write cursor parts, and copies nothing.
    pub fn iter(&self) -> (it: Iter<'_, T>)
        requires
            self.wf(),
        ensures
            it.wf(),
            it@ == self@.walk(),
            it@ == self@.contents(),
            it@.len() == self@.len(),
            forall|k: int| 0 <= k < self@.len() ==> self@.get(k) == Some(#[trigger] it@[k]),
    {
        proof {
            lemma_walk_agrees_with_get(self@);
        }
        let first = &self.buf[0..self.write_idx];
        let rest = &self.buf[self.write_idx..self.buf.len()];
        Iter { first, rest, first_left: first.len(), rest_left: rest.len() }
    }
}

impl<T: Copy> VecCircBuf<T> {
    /// A lookup that is made again, with no `add` between, finds what it
    /// found before: whatever two calls of `get` on one buffer and one `k`
    /// return is the same.
    pub proof fn lemma_get_repeats(&self, k: usize, once: Option<T>, again: Option<T>)
        requires
            self.wf(),
            call_ensures(Self::get, (self, k), once),
            call_ensures(Self::get, (self, k), again),
        ensures
            once == again,
    {
    }

    /// A walk can be started over: whatever two calls of `iter` on one
    /// buffer return, with no `add` between, starts at the newest value and
    /// yields the same values in the same order.
    pub proof fn lemma_iter_repeats<'a>(&'a self, once: Iter<'a, T>, again: Iter<'a, T>)
        requires
            self.wf(),
            call_ensures(Self::iter, (self,), once),
            call_ensures(Self::iter, (self,), again),
        ensures
            once@ == again@,
            once@ == self@.contents(),
    {
    }
}

impl<T: Copy> Default for VecCircBuf<T> {
    /// A buffer of capacity zero: it holds nothing and can take nothing in.
    fn default() -> (s: Self)
        ensures
            s.wf(),
            s@ == Ring::<T>::empty(0),
    {
        Self { buf: Vec::new(), write_idx: 0, capacity: 0 }
    }
}

/// A walk over a buffer, newest value first: the run of slots before the
/// write cursor from its end to its start, then the run from the cursor on
/// in the same way.
pub struct Iter<'a, T> {
    first: &'a [T],
    rest: &'a [T],
    first_left: usize,
    rest_left: usize,
}

impl<'a, T> View for Iter<'a, T> {
    type V = Seq<T>;

    /// The values still to come, in the order in which they come.
    closed spec fn view(&self) -> Seq<T> {
        self.first@.take(self.first_left as int).reverse() + self.rest@.take(
            self.rest_left as int,
        ).reverse()
    }
}

impl<'a, T> Iter<'a, T> {
    /// What is left of each run lies within it.
    pub closed spec fn wf(&self) -> bool {
        &&& self.first_left <= self.first@.len()
        &&& self.rest_left <= self.rest@.len()
    }

    /// The next value of the walk, or `None` once all have come.
    pub fn next(&mut self) -> (r: Option<&'a T>)
        requires
            old(self).wf(),
        ensures
            final(self).wf(),
            old(self)@.len() == 0 ==> r is None && final(self)@ == old(self)@,
            old(self)@.len() > 0 ==> r == Some(&old(self)@[0]) && final(self)@ == old(
                self,
            )@.drop_first(),
    {
        if self.first_left > 0 {
            self.first_left -= 1;
            let r = &self.first[self.first_left];
            Some(r)
        } else if self.rest_left > 0 {
            self.rest_left -= 1;
            let r = &self.rest[self.rest_left];
            Some(r)
        } else {
            None
        }
    }
}

} // verus!
