//! The run-time heap: an arena with constant-time allocation and
//! free-by-index. Freed slots keep their value but are marked free and
//! are reused by the next allocation; the arena never shrinks.

use vstd::prelude::*;

verus! {

/// The arena. `data` holds every slot ever allocated; `free_indices`
/// the slots currently free, each listed once.
#[derive(Debug)]
pub struct Heap<T> {
    pub data: Vec<T>,
    pub free_indices: Vec<usize>,
}

/// The free list names real slots, each at most once.
pub open spec fn heap_wf<T>(h: Heap<T>) -> bool {
    &&& (forall|i: int|
        0 <= i < h.free_indices@.len() ==> (#[trigger] h.free_indices@[i]) < h.data@.len())
    &&& (forall|i: int, j: int|
        0 <= i < h.free_indices@.len() && 0 <= j < h.free_indices@.len() && i != j
            ==> h.free_indices@[i] != h.free_indices@[j])
}

/// The live values among the first `n` slots, in slot order.
pub open spec fn live_prefix<T>(h: Heap<T>, n: int) -> Seq<T>
    decreases n,
{
    if n <= 0 {
        Seq::empty()
    } else if heap_live(h, n - 1) {
        live_prefix(h, n - 1).push(h.data@[n - 1])
    } else {
        live_prefix(h, n - 1)
    }
}

/// Whether slot `i` holds a live value.
pub open spec fn heap_live<T>(h: Heap<T>, i: int) -> bool {
    0 <= i < h.data@.len() && !h.free_indices@.contains(i as usize)
}

impl<T> Heap<T> {
    /// An empty arena.
    pub fn new() -> (r: Self)
        ensures
            heap_wf(r),
            r.data@.len() == 0,
            r.free_indices@.len() == 0,
    {
        Heap { data: Vec::new(), free_indices: Vec::new() }
    }

    /// Put a value into the arena and hand back its slot: a freed slot
    /// if one exists, a fresh one otherwise. The slot is live afterwards
    /// and holds exactly the value.
    pub fn push(&mut self, val: T) -> (idx: usize)
        requires
            heap_wf(*old(self)),
        ensures
            heap_wf(*final(self)),
            idx < final(self).data@.len(),
            heap_live(*final(self), idx as int),
            final(self).data@[idx as int] == val,
            final(self).data@.len() >= old(self).data@.len(),
            forall|i: int|
                0 <= i < old(self).data@.len() && i != idx
                    ==> #[trigger] final(self).data@[i] == old(self).data@[i],
            forall|i: int|
                heap_live(*old(self), i) && i != idx ==> heap_live(*final(self), i),
            forall|i: int|
                0 <= i < old(self).data@.len() && !heap_live(*old(self), i) && i != idx
                    ==> !heap_live(*final(self), i),
            old(self).free_indices@.len() > 0 ==> ({
                &&& idx == old(self).free_indices@[old(self).free_indices@.len() - 1]
                &&& final(self).data@.len() == old(self).data@.len()
                &&& final(self).free_indices@ == old(self).free_indices@.subrange(
                    0,
                    old(self).free_indices@.len() - 1,
                )
            }),
            old(self).free_indices@.len() == 0 ==> ({
                &&& idx == old(self).data@.len()
                &&& final(self).data@.len() == old(self).data@.len() + 1
            }),
    {
        match self.free_indices.pop() {
            Some(idx) => {
                proof {
                    assert(old(self).free_indices@[old(self).free_indices@.len() - 1] == idx);
                }
                self.data.set(idx, val);
                proof {
                    assert forall|i: int|
                        0 <= i < self.free_indices@.len() implies (#[trigger] self
                            .free_indices@[i]) != idx by {
                        assert(self.free_indices@[i] == old(self).free_indices@[i]);
                    }
                    assert(!self.free_indices@.contains(idx));
                    assert forall|i: int|
                        heap_live(*old(self), i) && i != idx as int implies heap_live(
                        *self,
                        i,
                    ) by {
                        if self.free_indices@.contains(i as usize) {
                            let w = choose|w: int|
                                0 <= w < self.free_indices@.len() && self.free_indices@[w] == i;
                            assert(old(self).free_indices@[w] == i);
                        }
                    }
                    assert forall|i: int|
                        0 <= i < old(self).data@.len() && !heap_live(*old(self), i) && i
                            != idx as int implies !heap_live(*self, i) by {
                        let w = choose|w: int|
                            0 <= w < old(self).free_indices@.len() && old(
                                self,
                            ).free_indices@[w] == i;
                        assert(w < old(self).free_indices@.len() - 1);
                        assert(self.free_indices@[w] == i);
                    }
                }
                idx
            }
            None => {
                let idx = self.data.len();
                self.data.push(val);
                idx
            }
        }
    }

    /// Mark slot `idx` free, so the next allocation may reuse it.
    /// Answers whether the slot was live; freeing anything else does
    /// nothing.
    pub fn delete(&mut self, idx: usize) -> (r: bool)
        requires
            heap_wf(*old(self)),
        ensures
            heap_wf(*final(self)),
            final(self).data@ == old(self).data@,
            r <==> heap_live(*old(self), idx as int),
            !heap_live(*final(self), idx as int),
            r ==> final(self).free_indices@ == old(self).free_indices@.push(idx),
            !r ==> *final(self) == *old(self),
            forall|i: int|
                0 <= i < old(self).data@.len() && i != idx ==> (heap_live(*final(self), i)
                    <==> heap_live(*old(self), i)),
    {
        if idx >= self.data.len() {
            return false;
        }
        if self.contains_free(idx) {
            proof {
                assert(!heap_live(*old(self), idx as int));
            }
            return false;
        }
        self.free_indices.push(idx);
        proof {
            assert forall|i: int|
                0 <= i < old(self).data@.len() && i != idx implies (heap_live(*self, i)
                    <==> heap_live(*old(self), i)) by {
                if old(self).free_indices@.contains(i as usize) {
                    let w = choose|w: int|
                        0 <= w < old(self).free_indices@.len() && old(self).free_indices@[w]
                            == i;
                    assert(self.free_indices@[w] == i);
                }
                if self.free_indices@.contains(i as usize) {
                    let w = choose|w: int|
                        0 <= w < self.free_indices@.len() && self.free_indices@[w] == i;
                    assert(w < self.free_indices@.len() - 1);
                    assert(old(self).free_indices@[w] == i);
                }
            }
            assert(self.free_indices@[self.free_indices@.len() - 1] == idx);
        }
        true
    }

    /// Whether the free list names `idx`.
    fn contains_free(&self, idx: usize) -> (r: bool)
        ensures
            r <==> self.free_indices@.contains(idx),
    {
        let mut i: usize = 0;
        while i < self.free_indices.len()
            invariant
                i <= self.free_indices@.len(),
                forall|j: int| 0 <= j < i ==> self.free_indices@[j] != idx,
            decreases self.free_indices@.len() - i,
        {
            if self.free_indices[i] == idx {
                proof {
                    assert(self.free_indices@[i as int] == idx);
                }
                return true;
            }
            i = i + 1;
        }
        false
    }

    /// The value in slot `i`, live or freed; nothing outside the arena.
    pub fn get(&self, i: usize) -> (r: Option<&T>)
        ensures
            match r {
                Some(v) => i < self.data@.len() && *v == self.data@[i as int],
                None => i >= self.data@.len(),
            },
    {
        if i < self.data.len() {
            Some(&self.data[i])
        } else {
            None
        }
    }

    /// The live values, in slot order; freed slots are skipped.
    #[verifier::loop_isolation(false)]
    pub fn iter(&self) -> (r: Vec<&T>)
        ensures
            r@.len() == live_prefix(*self, self.data@.len() as int).len(),
            forall|j: int|
                0 <= j < r@.len() ==> *(#[trigger] r@[j]) == live_prefix(
                    *self,
                    self.data@.len() as int,
                )[j],
    {
        let mut out: Vec<&T> = Vec::new();
        let mut i: usize = 0;
        while i < self.data.len()
            invariant
                i <= self.data@.len(),
                out@.len() == live_prefix(*self, i as int).len(),
                forall|j: int|
                    0 <= j < out@.len() ==> *(#[trigger] out@[j]) == live_prefix(
                        *self,
                        i as int,
                    )[j],
            decreases self.data@.len() - i,
        {
            if self.is_live(i) {
                out.push(&self.data[i]);
            }
            i = i + 1;
        }
        out
    }

    /// Whether one particular slot is live.
    pub fn is_live(&self, i: usize) -> (r: bool)
        ensures
            r <==> heap_live(*self, i as int),
    {
        i < self.data.len() && !self.contains_free(i)
    }
}

impl<T> Default for Heap<T> {
    /// An empty arena.
    fn default() -> (r: Self)
        ensures
            heap_wf(r),
            r.data@.len() == 0,
            r.free_indices@.len() == 0,
    {
        Heap::new()
    }
}

} // verus!
