//! A fixed-capacity rolling window: the newest `capacity` items, pushed in
//! order, with the oldest overwritten once the window is full.

use vstd::prelude::*;

verus! {

/// Fixed-capacity circular buffer. Storage is allocated once; `push`
/// never reallocates after the buffer has filled.
#[derive(Clone, Debug)]
pub struct RollingBuffer<T> {
    pub data: Vec<T>,
    pub capacity: usize,
    pub cursor: usize,
}

impl<T> View for RollingBuffer<T> {
    type V = Seq<T>;

    /// The retained items, oldest first.
    open spec fn view(&self) -> Seq<T> {
        if self.data@.len() < self.capacity {
            self.data@
        } else {
            self.data@.subrange(self.cursor as int, self.data@.len() as int) + self.data@.subrange(
                0,
                self.cursor as int,
            )
        }
    }
}

impl<T> RollingBuffer<T> {
    /// Internal consistency: never more items than the capacity, and the
    /// cursor points at the oldest slot once full, at zero before that.
    pub open spec fn wf(&self) -> bool {
        &&& 0 < self.capacity
        &&& self.data@.len() <= self.capacity
        &&& if self.data@.len() < self.capacity {
            self.cursor == 0
        } else {
            self.cursor < self.capacity
        }
    }

    /// The fixed capacity this buffer was created with.
    pub open spec fn spec_capacity(&self) -> int {
        self.capacity as int
    }
}

impl<T: Copy> RollingBuffer<T> {
    /// An empty buffer that will retain the newest `capacity` items.
    pub fn new(capacity: usize) -> (r: RollingBuffer<T>)
        requires
            0 < capacity,
        ensures
            r.wf(),
            r@.len() == 0,
            r.spec_capacity() == capacity,
    {
        RollingBuffer { data: Vec::with_capacity(capacity), capacity, cursor: 0 }
    }

    /// Append `item`, overwriting the oldest entry when the buffer is
    /// full.
    pub fn push(&mut self, item: T)
        requires
            old(self).wf(),
        ensures
            final(self).wf(),
            final(self).spec_capacity() == old(self).spec_capacity(),
            final(self)@ == if old(self)@.len() < old(self).spec_capacity() {
                old(self)@.push(item)
            } else {
                old(self)@.subrange(1, old(self)@.len() as int).push(item)
            },
    {
        if self.data.len() < self.capacity {
            self.data.push(item);
            proof {
                if self.data@.len() < self.capacity {
                } else {
                    assert(self@ =~= self.data@);
                }
            }
        } else {
            let ghost pre = *self;
            self.data.set(self.cursor, item);
            self.cursor = if self.cursor + 1 == self.capacity {
                0
            } else {
                self.cursor + 1
            };
            proof {
                assert(self@ =~= pre@.subrange(1, pre@.len() as int).push(item));
            }
        }
    }

    /// The newest item, if any.
    pub fn last(&self) -> (r: Option<T>)
        requires
            self.wf(),
        ensures
            r == if self@.len() == 0 {
                None::<T>
            } else {
                Some(self@.last())
            },
    {
        if self.data.is_empty() {
            return None;
        }
        if self.data.len() < self.capacity {
            Some(self.data[self.data.len() - 1])
        } else {
            let last_idx = if self.cursor == 0 {
                self.capacity - 1
            } else {
                self.cursor - 1
            };
            Some(self.data[last_idx])
        }
    }

    /// All retained items, oldest first, even after the buffer has
    /// wrapped around.
    pub fn to_vec(&self) -> (r: Vec<T>)
        requires
            self.wf(),
        ensures
            r@ == self@,
    {
        let mut out: Vec<T> = Vec::new();
        if self.data.len() < self.capacity {
            let n = self.data.len();
            let mut i: usize = 0;
            while i < n
                invariant
                    n == self.data@.len(),
                    i <= n,
                    out@ == self.data@.subrange(0, i as int),
                decreases n - i,
            {
                out.push(self.data[i]);
                proof {
                    assert(self.data@.subrange(0, i as int + 1) =~= self.data@.subrange(
                        0,
                        i as int,
                    ).push(self.data@[i as int]));
                }
                i += 1;
            }
            proof {
                assert(self.data@.subrange(0, n as int) =~= self.data@);
            }
        } else {
            let n = self.data.len();
            let mut i: usize = self.cursor;
            while i < n
                invariant
                    n == self.data@.len(),
                    self.cursor <= i <= n,
                    out@ == self.data@.subrange(self.cursor as int, i as int),
                decreases n - i,
            {
                out.push(self.data[i]);
                proof {
                    assert(self.data@.subrange(self.cursor as int, i as int + 1)
                        =~= self.data@.subrange(self.cursor as int, i as int).push(
                        self.data@[i as int],
                    ));
                }
                i += 1;
            }
            let mut j: usize = 0;
            while j < self.cursor
                invariant
                    n == self.data@.len(),
                    self.cursor <= n,
                    j <= self.cursor,
                    out@ == self.data@.subrange(self.cursor as int, n as int)
                        + self.data@.subrange(0, j as int),
                decreases self.cursor - j,
            {
                out.push(self.data[j]);
                proof {
                    assert(self.data@.subrange(self.cursor as int, n as int) + self.data@.subrange(
                        0,
                        j as int + 1,
                    ) =~= (self.data@.subrange(self.cursor as int, n as int) + self.data@.subrange(
                        0,
                        j as int,
                    )).push(self.data@[j as int]));
                }
                j += 1;
            }
        }
        out
    }
}

} // verus!
