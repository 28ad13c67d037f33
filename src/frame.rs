use vstd::prelude::*;

use crate::ids::{same_records, SameAs};

verus! {

struct Slot<T> {
    capacity: usize,
    contents: Vec<T>,
    written: bool,
}

/// The per-frame-in-flight buffers of one kind of data. Each slot is sized
/// and written on its own; a slot's capacity only grows. The writer also
/// reports whether each write differs from the write before it.
pub struct FrameBuffers<T> {
    slots: Vec<Slot<T>>,
    last: Vec<T>,
    has_last: bool,
    changed: bool,
}

/// A copy of `v`.
pub fn copy_vec<T: Copy>(v: &Vec<T>) -> (r: Vec<T>)
    ensures
        r@ == v@,
{
    let mut out: Vec<T> = Vec::new();
    let mut k: usize = 0;
    while k < v.len()
        invariant
            0 <= k <= v@.len(),
            out@ == v@.take(k as int),
        decreases v@.len() - k,
    {
        out.push(v[k]);
        proof {
            assert(out@ =~= v@.take(k + 1));
        }
        k = k + 1;
    }
    assert(out@ =~= v@);
    out
}

impl<T: SameAs + Copy> FrameBuffers<T> {
    /// Whether anything was ever written to slot `index`.
    pub closed spec fn written(&self, index: int) -> bool {
        0 <= index < self.slots@.len() && self.slots@[index].written
    }

    /// What slot `index` holds (empty when never written).
    pub closed spec fn contents(&self, index: int) -> Seq<T> {
        if 0 <= index < self.slots@.len() {
            self.slots@[index].contents@
        } else {
            Seq::empty()
        }
    }

    /// How many items slot `index` has room for.
    pub closed spec fn capacity(&self, index: int) -> nat {
        if 0 <= index < self.slots@.len() {
            self.slots@[index].capacity as nat
        } else {
            0
        }
    }

    /// The data of the most recent write, if any.
    pub closed spec fn last_write(&self) -> Option<Seq<T>> {
        if self.has_last {
            Some(self.last@)
        } else {
            None
        }
    }

    /// Whether the most recent write differed from the one before it.
    pub closed spec fn changed_spec(&self) -> bool {
        self.changed
    }

    pub closed spec fn wf(&self) -> bool {
        forall|i: int|
            0 <= i < self.slots@.len() ==> (#[trigger] self.slots@[i]).contents@.len()
                <= self.slots@[i].capacity
    }

    /// No slot written yet.
    pub fn new() -> (r: Self)
        ensures
            r.wf(),
            forall|i: int| !r.written(i),
            forall|i: int| r.contents(i) == Seq::<T>::empty(),
            forall|i: int| r.capacity(i) == 0,
            r.last_write() == None::<Seq<T>>,
            !r.changed_spec(),
    {
        FrameBuffers { slots: Vec::new(), last: Vec::new(), has_last: false, changed: false }
    }

    /// Writes `data` to slot `index`, making room for `count` items. Writing
    /// zero items does nothing and returns false. No other slot is touched.
    pub fn write(&mut self, index: usize, count: usize, data: &Vec<T>) -> (r: bool)
        requires
            old(self).wf(),
            index < usize::MAX,
            data@.len() <= count,
        ensures
            final(self).wf(),
            r == (count > 0),
            count == 0 ==> *final(self) == *old(self),
            count > 0 ==> {
                &&& final(self).written(index as int)
                &&& final(self).contents(index as int) == data@
                &&& final(self).capacity(index as int) == (if count > old(self).capacity(
                    index as int,
                ) {
                    count as nat
                } else {
                    old(self).capacity(index as int)
                })
                &&& final(self).last_write() == Some(data@)
                &&& final(self).changed_spec() == (match old(self).last_write() {
                    Some(prev) => prev != data@,
                    None => true,
                })
            },
            forall|j: int|
                j != index ==> {
                    &&& final(self).written(j) == old(self).written(j)
                    &&& final(self).contents(j) == old(self).contents(j)
                    &&& final(self).capacity(j) == old(self).capacity(j)
                },
    {
        if count == 0 {
            return false;
        }
        let ghost s0 = self.slots@;
        while self.slots.len() <= index
            invariant
                self.slots@.len() > s0.len() ==> self.slots@.len() <= index + 1,
                self.slots@.len() >= s0.len(),
                self.wf(),
                self.last@ == old(self).last@,
                self.has_last == old(self).has_last,
                forall|j: int| 0 <= j < s0.len() ==> self.slots@[j] == s0[j],
                forall|j: int|
                    s0.len() <= j < self.slots@.len() ==> !(#[trigger] self.slots@[j]).written
                        && self.slots@[j].capacity == 0 && self.slots@[j].contents@.len() == 0,
            decreases index + 1 - self.slots@.len(),
        {
            self.slots.push(Slot { capacity: 0, contents: Vec::new(), written: false });
        }
        let changed = if self.has_last {
            !same_records(&self.last, data)
        } else {
            true
        };
        let old_capacity = self.slots[index].capacity;
        let capacity = if count > old_capacity {
            count
        } else {
            old_capacity
        };
        let copy = copy_vec(data);
        self.slots.set(index, Slot { capacity, contents: copy, written: true });
        self.last = copy_vec(data);
        self.has_last = true;
        self.changed = changed;
        true
    }

    /// Whether slot `index` can be bound for drawing: false when nothing was
    /// ever written to it.
    pub fn bind(&self, index: usize) -> (r: bool)
        ensures
            r == self.written(index as int),
    {
        index < self.slots.len() && self.slots[index].written
    }

    /// What slot `index` holds.
    pub fn contents_of(&self, index: usize) -> (r: &Vec<T>)
        requires
            self.written(index as int),
        ensures
            r@ == self.contents(index as int),
    {
        &self.slots[index].contents
    }

    /// How many items slot `index` has room for.
    pub fn capacity_of(&self, index: usize) -> (r: usize)
        ensures
            r == self.capacity(index as int),
    {
        if index < self.slots.len() {
            self.slots[index].capacity
        } else {
            0
        }
    }

    /// Whether the most recent write differed from the one before it; true
    /// for the first write.
    pub fn changed(&self) -> (r: bool)
        ensures
            r == self.changed_spec(),
    {
        self.changed
    }
}

} // verus!
