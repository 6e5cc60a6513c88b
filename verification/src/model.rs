//! The ring as a mathematical value: a storage of at most `capacity` slots
//! and a write cursor, what it holds, and what taking a value in does to it.

use vstd::arithmetic::div_mod::{
    lemma_add_mod_noop, lemma_mod_add_multiples_vanish, lemma_mod_self_0, lemma_small_mod,
};
use vstd::prelude::*;

verus! {

/// The state of a ring buffer.
pub struct Ring<T> {
    /// The slots written so far, in physical order.
    pub storage: Seq<T>,
    /// The slot that the next value goes to.
    pub cursor: int,
    /// The number of slots that the storage may grow to.
    pub capacity: nat,
}

impl<T> Ring<T> {
    /// The ring of the given capacity that has taken nothing in yet.
    pub open spec fn empty(capacity: nat) -> Ring<T> {
        Ring { storage: Seq::empty(), cursor: 0, capacity }
    }

    /// The storage stays within the capacity, and the cursor below it (at 0
    /// where there is no capacity). Until the storage is full the cursor
    /// stands at its end, so that the slots lie in the order in which the
    /// values came.
    pub open spec fn wf(self) -> bool {
        &&& self.storage.len() <= self.capacity
        &&& if self.capacity == 0 {
            self.cursor == 0
        } else {
            0 <= self.cursor < self.capacity
        }
        &&& self.storage.len() < self.capacity ==> self.cursor == self.storage.len()
    }

    /// The number of values held.
    pub open spec fn len(self) -> nat {
        self.storage.len()
    }

    /// The slot of the value that came `k` values before the newest: `k`
    /// slots back from the one before the cursor, and, where that passes
    /// slot 0, as far below the end of the storage.
    pub open spec fn slot(self, k: int) -> int {
        let i = (self.cursor - 1) - k;
        if i >= 0 {
            i
        } else {
            self.storage.len() + i
        }
    }

    /// The values held, newest first.
    pub open spec fn contents(self) -> Seq<T> {
        Seq::new(self.storage.len(), |k: int| self.storage[self.slot(k)])
    }

    /// The value that came `k` values before the newest, where the ring
    /// still holds it.
    pub open spec fn get(self, k: int) -> Option<T> {
        if 0 <= k < self.len() {
            Some(self.contents()[k])
        } else {
            None
        }
    }

    /// The values in the order of a walk over the storage: the slots before
    /// the cursor from the last to the first, then the slots from the cursor
    /// on in the same way.
    pub open spec fn walk(self) -> Seq<T> {
        self.storage.subrange(0, self.cursor).reverse() + self.storage.subrange(
            self.cursor,
            self.storage.len() as int,
        ).reverse()
    }

    /// The ring after it took `v` in: `v` is appended while the storage is
    /// not full and written over the slot at the cursor once it is, and the
    /// cursor moves on by one slot, from the last slot back to slot 0.
    pub open spec fn put(self, v: T) -> Ring<T> {
        Ring {
            storage: if self.storage.len() < self.capacity {
                self.storage.push(v)
            } else {
                self.storage.update(self.cursor, v)
            },
            cursor: if self.cursor + 1 >= self.capacity {
                0
            } else {
                self.cursor + 1
            },
            capacity: self.capacity,
        }
    }

    /// The ring of the given capacity after it took in the values of `vs`,
    /// first to last, starting from empty.
    pub open spec fn after(capacity: nat, vs: Seq<T>) -> Ring<T>
        decreases vs.len(),
    {
        if vs.len() == 0 {
            Ring::empty(capacity)
        } else {
            Ring::after(capacity, vs.drop_last()).put(vs.last())
        }
    }
}

/// What is held after `v` came in, told without the storage: `v` in front of
/// what was held, and, where that is more than `cap` values, without the
/// oldest of them.
pub open spec fn pushed<T>(held: Seq<T>, cap: nat, v: T) -> Seq<T> {
    let all = seq![v] + held;
    if all.len() <= cap {
        all
    } else {
        all.take(cap as int)
    }
}

/// The last `cap` values of `vs`, or all of them where there are fewer, from
/// the last one backwards.
pub open spec fn newest<T>(cap: nat, vs: Seq<T>) -> Seq<T> {
    let n = if vs.len() <= cap {
        vs.len()
    } else {
        cap
    };
    Seq::new(n, |k: int| vs[vs.len() - 1 - k])
}

/// An empty ring is well formed for every capacity, zero too, holds nothing
/// and finds nothing.
pub proof fn lemma_empty_holds_nothing<T>(capacity: nat)
    ensures
        Ring::<T>::empty(capacity).wf(),
        Ring::<T>::empty(capacity).len() == 0,
        Ring::<T>::empty(capacity).contents() == Seq::<T>::empty(),
        forall|k: int| (#[trigger] Ring::<T>::empty(capacity).get(k)) is None,
{
}

/// A ring without capacity is the empty one and stays so: it holds nothing,
/// finds nothing, and a walk over it yields nothing.
pub proof fn lemma_zero_capacity_holds_nothing<T>(r: Ring<T>)
    requires
        r.wf(),
        r.capacity == 0,
    ensures
        r == Ring::<T>::empty(0),
        r.len() == 0,
        r.walk() == Seq::<T>::empty(),
        forall|k: int| (#[trigger] r.get(k)) is None,
{
    assert(r.storage =~= Seq::<T>::empty());
}

/// Every slot that a lookup reads lies in the storage, whether the cursor
/// has wrapped or not.
pub proof fn lemma_slot_in_storage<T>(r: Ring<T>, k: int)
    requires
        r.wf(),
        0 <= k < r.len(),
    ensures
        0 <= r.slot(k) < r.storage.len(),
{
}

/// The newest value of a ring that holds any lies in the slot before the
/// cursor, counted modulo the capacity.
pub proof fn lemma_newest_lies_before_cursor<T>(r: Ring<T>)
    requires
        r.wf(),
        r.len() > 0,
    ensures
        r.slot(0) == (r.cursor - 1) % (r.capacity as int),
        r.get(0) == Some(r.storage[(r.cursor - 1) % (r.capacity as int)]),
{
    if r.cursor == 0 {
        lemma_mod_add_multiples_vanish(-1, r.capacity as int);
    }
    lemma_small_mod(r.slot(0) as nat, r.capacity);
}

/// Taking a value in moves the cursor on by one slot modulo the capacity.
pub proof fn lemma_put_advances_cursor<T>(r: Ring<T>, v: T)
    requires
        r.wf(),
        r.capacity > 0,
    ensures
        r.put(v).cursor == (r.cursor + 1) % (r.capacity as int),
{
    if r.cursor + 1 == r.capacity {
        lemma_mod_self_0(r.capacity as int);
    } else {
        lemma_small_mod((r.cursor + 1) as nat, r.capacity);
    }
}

/// Taking a value in keeps a ring well formed and its capacity as it was.
/// The value becomes the newest, each value held moves one step back, and a
/// full ring loses its oldest value: eviction goes by age alone.
pub proof fn lemma_put_pushes<T>(r: Ring<T>, v: T)
    requires
        r.wf(),
        r.capacity > 0,
    ensures
        r.put(v).wf(),
        r.put(v).capacity == r.capacity,
        r.put(v).len() == if r.len() < r.capacity { r.len() + 1 } else { r.capacity },
        r.put(v).contents() == pushed(r.contents(), r.capacity, v),
{
}

/// A walk yields as many values as the ring holds, and its `k`-th value is
/// the one that a lookup of `k` finds.
pub proof fn lemma_walk_agrees_with_get<T>(r: Ring<T>)
    requires
        r.wf(),
    ensures
        r.walk() == r.contents(),
        r.walk().len() == r.len(),
        forall|k: int| 0 <= k < r.len() ==> r.get(k) == Some(#[trigger] r.walk()[k]),
{
}

/// A ring of capacity `cap > 0` that took in `vs` from empty holds the
/// newest values of `vs`, newest first: all of them as long as they are no
/// more than `cap`, the last `cap` of them after that. A lookup of `k` finds
/// the value that came `k` before the last, and nothing from the number of
/// values held on. Until the ring has wrapped, its slots lie in the order in
/// which the values came, and the cursor always stands at the number of
/// values that came, counted modulo the capacity.
pub proof fn lemma_after_holds_newest<T>(cap: nat, vs: Seq<T>)
    requires
        cap > 0,
    ensures
        Ring::after(cap, vs).wf(),
        Ring::after(cap, vs).capacity == cap,
        Ring::after(cap, vs).contents() == newest(cap, vs),
        Ring::after(cap, vs).len() == if vs.len() <= cap { vs.len() } else { cap },
        vs.len() <= cap ==> Ring::after(cap, vs).storage == vs,
        Ring::after(cap, vs).cursor == vs.len() % cap,
        forall|k: int|
            0 <= k < Ring::after(cap, vs).len() ==> #[trigger] Ring::after(cap, vs).get(k) == Some(
                vs[vs.len() - 1 - k],
            ),
        forall|k: int|
            k >= Ring::after(cap, vs).len() ==> (#[trigger] Ring::after(cap, vs).get(k)) is None,
    decreases vs.len(),
{
    if vs.len() == 0 {
        lemma_empty_holds_nothing::<T>(cap);
    } else {
        let before = Ring::after(cap, vs.drop_last());
        lemma_after_holds_newest(cap, vs.drop_last());
        lemma_put_pushes(before, vs.last());
        assert(before.put(vs.last()).cursor == vs.len() % cap) by {
            lemma_put_advances_cursor(before, vs.last());
            lemma_add_mod_noop(vs.len() - 1, 1, cap as int);
            if cap > 1 {
                lemma_small_mod(1, cap);
            }
        }
    }
}

} // verus!
