//! A fixed-capacity ring buffer that drops the oldest item when full.

use vstd::prelude::*;

verus! {

/// Ring buffer holding the last `capacity` items pushed into it.
///
/// While the buffer is not yet full the storage grows; once full, each push
/// overwrites the oldest slot. `view()` is the held items, oldest first.
pub struct DropVec<T> {
    index: usize,
    buffer: Vec<T>,
    capacity: usize,
}

impl<T> DropVec<T> {
    /// Structural invariant: the write cursor trails the storage until the
    /// buffer is full, then wraps inside it.
    pub closed spec fn wf(&self) -> bool {
        &&& self.buffer@.len() <= self.capacity
        &&& if self.buffer@.len() < self.capacity {
            self.index == self.buffer@.len()
        } else {
            self.capacity == 0 ==> self.index == 0
        }
        &&& self.buffer@.len() == self.capacity && self.capacity > 0 ==> self.index
            < self.capacity
    }

    pub closed spec fn spec_capacity(&self) -> usize {
        self.capacity
    }

    /// The held items, oldest first.
    pub closed spec fn view(&self) -> Seq<T> {
        if self.buffer@.len() < self.capacity {
            self.buffer@
        } else {
            self.buffer@.subrange(self.index as int, self.buffer@.len() as int)
                + self.buffer@.subrange(0, self.index as int)
        }
    }

    pub fn new(capacity: usize) -> (r: Self)
        ensures
            r.wf(),
            r.spec_capacity() == capacity,
            r@ =~= Seq::<T>::empty(),
    {
        DropVec { index: 0, buffer: Vec::new(), capacity }
    }

    /// Appends `item`; once the buffer is full the oldest item is dropped.
    /// With capacity 0 the push is a no-op.
    pub fn push(&mut self, item: T)
        requires
            old(self).wf(),
        ensures
            final(self).wf(),
            final(self).spec_capacity() == old(self).spec_capacity(),
            final(self)@ =~= if old(self).spec_capacity() == 0 {
                old(self)@
            } else if old(self)@.len() < old(self).spec_capacity() {
                old(self)@.push(item)
            } else {
                old(self)@.drop_first().push(item)
            },
            final(self)@.len() <= final(self).spec_capacity(),
    {
        if self.capacity == 0 {
            return ;
        }
        if self.buffer.len() < self.capacity {
            self.buffer.push(item);
            self.index = if self.buffer.len() == self.capacity {
                0
            } else {
                self.buffer.len()
            };
        } else {
            self.buffer[self.index] = item;
            self.index = self.index + 1;
            if self.index == self.buffer.len() {
                self.index = 0;
            }
            proof {
                assert(self@ =~= old(self)@.drop_first().push(item));
            }
        }
    }

    /// Pushes every item of `items` in order: afterwards the buffer holds
    /// the last `capacity` items of the old contents followed by `items`.
    pub fn extend(&mut self, items: Vec<T>)
        requires
            old(self).wf(),
        ensures
            final(self).wf(),
            final(self).spec_capacity() == old(self).spec_capacity(),
            final(self)@ =~= window(old(self)@ + items@, old(self).spec_capacity() as int),
    {
        let ghost items0 = items@;
        let items_len = items.len();
        let mut rest = items;
        let mut i: usize = 0;
        proof {
            assert(items0.take(0) =~= Seq::<T>::empty());
            assert(old(self)@ + items0.take(0) =~= old(self)@);
            assert(self@ =~= window(old(self)@ + items0.take(0), self.spec_capacity() as int));
        }
        while i < items_len
            invariant
                self.wf(),
                self.spec_capacity() == old(self).spec_capacity(),
                old(self)@.len() <= old(self).spec_capacity(),
                i <= items_len,
                items_len == items0.len(),
                rest@.len() == items_len - i,
                forall|j: int| 0 <= j < items_len - i ==> #[trigger] rest@[j] == items0[j + i],
                self@ =~= window(old(self)@ + items0.take(i as int), self.spec_capacity() as int),
            decreases items_len - i,
        {
            let item = rest.remove(0);
            let ghost cap = self.spec_capacity() as int;
            self.push(item);
            proof {
                let base = old(self)@ + items0.take(i as int);
                assert(old(self)@ + items0.take(i + 1) =~= base.push(items0[i as int]));
                lemma_window_push(base, items0[i as int], cap);
            }
            i = i + 1;
        }
        proof {
            assert(items0.take(items_len as int) =~= items0);
        }
    }

    /// An iterator over the held items, oldest first.
    pub fn iter<'a>(&'a self) -> (r: Iter<'a, T>)
        requires
            self.wf(),
        ensures
            r.wf(),
            r.remaining() =~= self@,
    {
        Iter { pos: 0, inner: self }
    }
}

/// The last `cap` items of `s` (all of them when `s` is shorter).
pub open spec fn window<T>(s: Seq<T>, cap: int) -> Seq<T> {
    if s.len() <= cap {
        s
    } else {
        s.skip(s.len() as int - cap)
    }
}

/// Appending to a sequence slides its capacity window by at most one.
proof fn lemma_window_push<T>(s: Seq<T>, x: T, cap: int)
    requires
        cap >= 0,
    ensures
        window(s.push(x), cap) =~= (if cap == 0 {
            window(s, cap)
        } else if window(s, cap).len() < cap {
            window(s, cap).push(x)
        } else {
            window(s, cap).drop_first().push(x)
        }),
{
    if cap == 0 {
        assert(window(s.push(x), 0) =~= s.push(x).skip(s.len() as int + 1));
        assert(window(s, 0) =~= (if s.len() <= 0 {
            s
        } else {
            s.skip(s.len() as int)
        }));
        assert(window(s.push(x), 0) =~= window(s, 0));
    }
}

/// A `DropVec` never holds more items than its capacity.
pub proof fn lemma_len_bounded<T>(v: &DropVec<T>)
    requires
        v.wf(),
    ensures
        v@.len() <= v.spec_capacity(),
{
}

/// Read-only cursor over a `DropVec`, yielding items oldest first.
pub struct Iter<'a, T> {
    pos: usize,
    inner: &'a DropVec<T>,
}

impl<'a, T> Iter<'a, T> {
    pub closed spec fn wf(&self) -> bool {
        &&& self.inner.wf()
        &&& self.pos <= self.inner@.len()
    }

    /// The items not yet yielded, in yield order.
    pub closed spec fn remaining(&self) -> Seq<T> {
        self.inner@.skip(self.pos as int)
    }

    pub fn next(&mut self) -> (r: Option<&'a T>)
        requires
            old(self).wf(),
        ensures
            final(self).wf(),
            old(self).remaining().len() == 0 ==> r is None && final(self).remaining()
                =~= old(self).remaining(),
            old(self).remaining().len() > 0 ==> (r matches Some(item) && *item
                == old(self).remaining()[0] && final(self).remaining() =~= old(
                self,
            ).remaining().drop_first()),
    {
        let inner = self.inner;
        let len = inner.buffer.len();
        if self.pos >= len {
            proof {
                assert(self.inner@.len() == self.inner.buffer@.len());
            }
            return None;
        }
        let at = if inner.buffer.len() < inner.capacity {
            self.pos
        } else {
            // oldest item sits at the write cursor
            if self.pos < inner.buffer.len() - inner.index {
                inner.index + self.pos
            } else {
                self.pos - (inner.buffer.len() - inner.index)
            }
        };
        let item = &inner.buffer[at];
        proof {
            assert(*item == self.inner@[self.pos as int]);
        }
        self.pos = self.pos + 1;
        proof {
            assert(self.remaining() =~= old(self).remaining().drop_first());
        }
        Some(item)
    }
}

} // verus!
