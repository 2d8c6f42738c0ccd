//! Fixed-capacity double-ended ring buffer backing the editor's bounded
//! history queues (jumplist, change list, etc.). Inserts on a full buffer
//! evict the opposite end and return the displaced value.

use vstd::prelude::*;

verus! {

/// Physical slot of logical position `i` when the front sits at `head`:
/// `(head + i) mod n`, written without a division for `head, i < n`.
pub open spec fn ring_slot(head: int, i: int, n: int) -> int {
    if head + i < n {
        head + i
    } else {
        head + i - n
    }
}

proof fn lemma_wrap_mod(x: int, n: int)
    requires
        n > 0,
        0 <= x < 2 * n,
    ensures
        x % n == (if x < n { x } else { x - n }),
{
    if x < n {
        assert(x % n == x) by (nonlinear_arith)
            requires
                0 <= x < n,
        ;
    } else {
        assert(x % n == x - n) by (nonlinear_arith)
            requires
                n <= x < 2 * n,
        ;
    }
}

/// A fixed-capacity, double-ended, overwriting ring buffer.
///
/// `push_back` on a full buffer evicts the front (oldest) element;
/// `push_front` on a full buffer evicts the back element.
///
/// Exactly the slots at physical indices `(head + i) % N` for `i in 0..len`
/// hold a value.
#[derive(Clone)]
pub struct RingBuffer<T, const N: usize> {
    data: Vec<Option<T>>,
    head: usize,
    len: usize,
}

impl<T, const N: usize> View for RingBuffer<T, N> {
    type V = Seq<T>;

    /// The live elements, front to back.
    closed spec fn view(&self) -> Seq<T> {
        Seq::new(
            self.len as nat,
            |i: int| self.data@[ring_slot(self.head as int, i, N as int)]->Some_0,
        )
    }
}

impl<T, const N: usize> RingBuffer<T, N> {
    /// Internal consistency: one slot per unit of capacity, the live range
    /// starting at `head` is occupied.
    pub closed spec fn wf(&self) -> bool {
        &&& 0 < N <= usize::MAX / 2
        &&& self.data@.len() == N
        &&& self.head < N
        &&& self.len <= N
        &&& forall|i: int|
            0 <= i < self.len ==> (#[trigger] self.data@[ring_slot(
                self.head as int,
                i,
                N as int,
            )]) is Some
    }

    /// An empty buffer. A capacity of zero is refused (the buffer could never
    /// hold anything); `N` also stays within half the address space, which
    /// any buffer that fits in memory does.
    pub fn new() -> (rb: Self)
        requires
            0 < N <= usize::MAX / 2,
        ensures
            rb.wf(),
            rb@ == Seq::<T>::empty(),
    {
        let mut data: Vec<Option<T>> = Vec::new();
        let mut k: usize = 0;
        while k < N
            invariant
                k <= N,
                data@.len() == k,
            decreases N - k,
        {
            data.push(None);
            k = k + 1;
        }
        let rb = RingBuffer { data, head: 0, len: 0 };
        assert(rb@ =~= Seq::<T>::empty());
        rb
    }

    pub fn len(&self) -> (n: usize)
        requires
            self.wf(),
        ensures
            n == self@.len(),
    {
        self.len
    }

    pub fn is_empty(&self) -> (b: bool)
        requires
            self.wf(),
        ensures
            b == (self@.len() == 0),
    {
        self.len == 0
    }

    pub fn is_full(&self) -> (b: bool)
        requires
            self.wf(),
        ensures
            b == (self@.len() == N),
    {
        self.len == N
    }

    pub fn capacity(&self) -> (n: usize)
        ensures
            n == N,
    {
        N
    }

    /// Advance a physical index by one, wrapping at the capacity.
    fn next_slot(i: usize) -> (s: usize)
        requires
            0 < N <= usize::MAX / 2,
            i < N,
        ensures
            s == ring_slot(i as int, 1, N as int),
    {
        proof {
            lemma_wrap_mod(i + 1, N as int);
        }
        (i + 1) % N
    }

    /// Physical slot of the current back element.
    fn last_slot(&self) -> (s: usize)
        requires
            self.wf(),
            self.len > 0,
        ensures
            s == ring_slot(self.head as int, self.len - 1, N as int),
    {
        proof {
            lemma_wrap_mod(self.head + self.len - 1, N as int);
        }
        (self.head + self.len - 1) % N
    }

    /// Append `value` to the back. Returns `Some(evicted)` if the buffer was
    /// full (front element displaced), or `None` if there was room.
    pub fn push_back(&mut self, value: T) -> (evicted: Option<T>)
        requires
            old(self).wf(),
        ensures
            final(self).wf(),
            old(self)@.len() < N ==> evicted is None && final(self)@ == old(self)@.push(value),
            old(self)@.len() == N ==> evicted == Some(old(self)@[0]) && final(self)@
                == old(self)@.drop_first().push(value),
    {
        let ghost old_view = self@;
        let evicted = if self.len == N {
            let h = self.head;
            let val = self.data[h].take();
            self.head = Self::next_slot(h);
            self.len = self.len - 1;
            proof {
                assert forall|i: int| 0 <= i < self.len implies (#[trigger] self.data@[ring_slot(
                    self.head as int,
                    i,
                    N as int,
                )]) is Some && self.data@[ring_slot(self.head as int, i, N as int)]
                    == old(self).data@[ring_slot(h as int, i + 1, N as int)] by {
                    assert(old(self).data@[ring_slot(h as int, i + 1, N as int)] is Some);
                }
                assert(self@ =~= old_view.drop_first());
            }
            val
        } else {
            None
        };
        let ghost mid_view = self@;
        let slot = self.back_slot();
        self.data[slot] = Some(value);
        self.len = self.len + 1;
        proof {
            assert forall|i: int| 0 <= i < self.len implies (#[trigger] self.data@[ring_slot(
                self.head as int,
                i,
                N as int,
            )]) is Some by {
                if i < self.len - 1 {
                    assert(old(self).data@.len() == N);
                }
            }
            assert(self@ =~= mid_view.push(value));
        }
        evicted
    }

    /// Prepend `value` to the front. Returns `Some(evicted)` if the buffer
    /// was full (back element displaced), or `None` if there was room.
    pub fn push_front(&mut self, value: T) -> (evicted: Option<T>)
        requires
            old(self).wf(),
        ensures
            final(self).wf(),
            old(self)@.len() < N ==> evicted is None && final(self)@ == seq![value] + old(self)@,
            old(self)@.len() == N ==> evicted == Some(old(self)@.last()) && final(self)@ == seq![
                value,
            ] + old(self)@.drop_last(),
    {
        let ghost old_view = self@;
        let evicted = if self.len == N {
            let back = self.last_slot();
            let val = self.data[back].take();
            self.len = self.len - 1;
            proof {
                assert forall|i: int| 0 <= i < self.len implies (#[trigger] self.data@[ring_slot(
                    self.head as int,
                    i,
                    N as int,
                )]) is Some && self.data@[ring_slot(self.head as int, i, N as int)]
                    == old(self).data@[ring_slot(self.head as int, i, N as int)] by {
                    assert(old(self).data@[ring_slot(self.head as int, i, N as int)] is Some);
                }
                assert(self@ =~= old_view.drop_last());
            }
            val
        } else {
            None
        };
        let ghost mid_view = self@;
        let ghost old_head = self.head;
        let slot = self.front_slot();
        self.data[slot] = Some(value);
        self.head = slot;
        self.len = self.len + 1;
        proof {
            assert forall|i: int| 0 <= i < self.len implies (#[trigger] self.data@[ring_slot(
                self.head as int,
                i,
                N as int,
            )]) is Some && (i > 0 ==> self.data@[ring_slot(self.head as int, i, N as int)]
                == self.data@[ring_slot(old_head as int, i - 1, N as int)]) by {
                if i > 0 {
                    assert(ring_slot(self.head as int, i, N as int) == ring_slot(
                        old_head as int,
                        i - 1,
                        N as int,
                    ));
                }
            }
            assert(self@ =~= seq![value] + mid_view);
        }
        evicted
    }

    /// Remove and return the back element, or `None` if empty.
    pub fn pop_back(&mut self) -> (r: Option<T>)
        requires
            old(self).wf(),
        ensures
            final(self).wf(),
            old(self)@.len() == 0 ==> r is None && final(self)@ == old(self)@,
            old(self)@.len() > 0 ==> r == Some(old(self)@.last()) && final(self)@ == old(
                self,
            )@.drop_last(),
    {
        if self.len == 0 {
            return None;
        }
        let ghost old_view = self@;
        let slot = self.last_slot();
        self.len = self.len - 1;
        let r = self.data[slot].take();
        proof {
            assert forall|i: int| 0 <= i < self.len implies (#[trigger] self.data@[ring_slot(
                self.head as int,
                i,
                N as int,
            )]) is Some && self.data@[ring_slot(self.head as int, i, N as int)] == old(
                self,
            ).data@[ring_slot(self.head as int, i, N as int)] by {
                assert(old(self).data@[ring_slot(self.head as int, i, N as int)] is Some);
            }
            assert(self@ =~= old_view.drop_last());
        }
        r
    }

    /// Remove and return the front element, or `None` if empty.
    pub fn pop_front(&mut self) -> (r: Option<T>)
        requires
            old(self).wf(),
        ensures
            final(self).wf(),
            old(self)@.len() == 0 ==> r is None && final(self)@ == old(self)@,
            old(self)@.len() > 0 ==> r == Some(old(self)@[0]) && final(self)@ == old(
                self,
            )@.drop_first(),
    {
        if self.len == 0 {
            return None;
        }
        let ghost old_view = self@;
        let slot = self.head;
        self.head = Self::next_slot(slot);
        self.len = self.len - 1;
        let r = self.data[slot].take();
        proof {
            assert(old(self).data@[ring_slot(slot as int, 0, N as int)] is Some);
            assert forall|i: int| 0 <= i < self.len implies (#[trigger] self.data@[ring_slot(
                self.head as int,
                i,
                N as int,
            )]) is Some && self.data@[ring_slot(self.head as int, i, N as int)] == old(
                self,
            ).data@[ring_slot(slot as int, i + 1, N as int)] by {
                assert(old(self).data@[ring_slot(slot as int, i + 1, N as int)] is Some);
            }
            assert(self@ =~= old_view.drop_first());
        }
        r
    }

    pub fn peek_back(&self) -> (r: Option<&T>)
        requires
            self.wf(),
        ensures
            self@.len() == 0 ==> r is None,
            self@.len() > 0 ==> r == Some(&self@.last()),
    {
        if self.len == 0 {
            return None;
        }
        let slot = self.last_slot();
        proof {
            assert(self.data@[ring_slot(self.head as int, self.len - 1, N as int)] is Some);
        }
        self.data[slot].as_ref()
    }

    pub fn peek_front(&self) -> (r: Option<&T>)
        requires
            self.wf(),
        ensures
            self@.len() == 0 ==> r is None,
            self@.len() > 0 ==> r == Some(&self@[0]),
    {
        if self.len == 0 {
            return None;
        }
        proof {
            assert(self.data@[ring_slot(self.head as int, 0, N as int)] is Some);
        }
        self.data[self.head].as_ref()
    }

    /// The live elements front-to-back, borrowed.
    pub fn iter(&self) -> (v: Vec<&T>)
        requires
            self.wf(),
        ensures
            v@.len() == self@.len(),
            forall|i: int| 0 <= i < v@.len() ==> *v@[i] == self@[i],
    {
        let mut v: Vec<&T> = Vec::new();
        let mut i: usize = 0;
        while i < self.len
            invariant
                self.wf(),
                i <= self.len,
                v@.len() == i,
                forall|j: int| 0 <= j < i ==> *v@[j] == self@[j],
            decreases self.len - i,
        {
            proof {
                lemma_wrap_mod(self.head + i, N as int);
                assert(self.data@[ring_slot(self.head as int, i as int, N as int)] is Some);
            }
            let slot = (self.head + i) % N;
            match self.data[slot].as_ref() {
                Some(x) => v.push(x),
                None => {},
            }
            i = i + 1;
        }
        v
    }

    /// The physical slot of the front element.
    pub closed spec fn spec_head(&self) -> int {
        self.head as int
    }

    /// The live elements as two runs, front to back: the run from the
    /// front's slot to the end of the storage (or to the back, whichever
    /// comes first), then the run that wrapped around to the start of the
    /// storage, which is empty when the live range does not wrap.
    pub fn as_slices(&self) -> (r: (Vec<&T>, Vec<&T>))
        requires
            self.wf(),
        ensures
            r.0@.len() == (if N - self.spec_head() < self@.len() {
                N - self.spec_head()
            } else {
                self@.len() as int
            }),
            r.0@.len() + r.1@.len() == self@.len(),
            forall|i: int| 0 <= i < r.0@.len() ==> *r.0@[i] == self@[i],
            forall|i: int| 0 <= i < r.1@.len() ==> *r.1@[i] == self@[r.0@.len() + i],
    {
        let first_len = if N - self.head < self.len {
            N - self.head
        } else {
            self.len
        };
        let mut first: Vec<&T> = Vec::new();
        let mut second: Vec<&T> = Vec::new();
        let mut i: usize = 0;
        while i < self.len
            invariant
                self.wf(),
                first_len <= self.len,
                first_len <= N - self.head,
                first_len == N - self.head || first_len == self.len,
                i <= self.len,
                i <= first_len ==> first@.len() == i && second@.len() == 0,
                i > first_len ==> first@.len() == first_len && second@.len() == i - first_len,
                forall|j: int| 0 <= j < first@.len() ==> *first@[j] == self@[j],
                forall|j: int| 0 <= j < second@.len() ==> *second@[j] == self@[first_len + j],
            decreases self.len - i,
        {
            proof {
                lemma_wrap_mod(self.head + i, N as int);
                assert(self.data@[ring_slot(self.head as int, i as int, N as int)] is Some);
            }
            let slot = (self.head + i) % N;
            match self.data[slot].as_ref() {
                Some(x) => {
                    if i < first_len {
                        first.push(x);
                    } else {
                        second.push(x);
                    }
                },
                None => {},
            }
            i = i + 1;
        }
        (first, second)
    }

    /// Physical slot where the next `push_back` writes (one past the current back).
    fn back_slot(&self) -> (s: usize)
        requires
            self.wf(),
            self.len < N,
        ensures
            s == ring_slot(self.head as int, self.len as int, N as int),
    {
        proof {
            lemma_wrap_mod(self.head + self.len, N as int);
        }
        (self.head + self.len) % N
    }

    /// Physical slot where the next `push_front` writes (one before the current front).
    fn front_slot(&self) -> (s: usize)
        requires
            self.wf(),
        ensures
            s == ring_slot(self.head as int, N - 1, N as int),
    {
        proof {
            lemma_wrap_mod(self.head + N - 1, N as int);
        }
        (self.head + N - 1) % N
    }
}

/// Consuming iterator produced by `RingBuffer::into_iter`: `next` yields
/// front-to-back, `next_back` back-to-front.
pub struct IntoIter<T, const N: usize> {
    ring: RingBuffer<T, N>,
}

impl<T, const N: usize> View for IntoIter<T, N> {
    type V = Seq<T>;

    /// The elements not yet yielded, front to back.
    closed spec fn view(&self) -> Seq<T> {
        self.ring@
    }
}

impl<T, const N: usize> IntoIter<T, N> {
    pub closed spec fn wf(&self) -> bool {
        self.ring.wf()
    }

    pub fn next(&mut self) -> (r: Option<T>)
        requires
            old(self).wf(),
        ensures
            final(self).wf(),
            old(self)@.len() == 0 ==> r is None && final(self)@ == old(self)@,
            old(self)@.len() > 0 ==> r == Some(old(self)@[0]) && final(self)@ == old(
                self,
            )@.drop_first(),
    {
        self.ring.pop_front()
    }

    pub fn next_back(&mut self) -> (r: Option<T>)
        requires
            old(self).wf(),
        ensures
            final(self).wf(),
            old(self)@.len() == 0 ==> r is None && final(self)@ == old(self)@,
            old(self)@.len() > 0 ==> r == Some(old(self)@.last()) && final(self)@ == old(
                self,
            )@.drop_last(),
    {
        self.ring.pop_back()
    }

    pub fn size_hint(&self) -> (r: (usize, Option<usize>))
        requires
            self.wf(),
        ensures
            r.0 == self@.len(),
            r.1 == Some(self@.len() as usize),
    {
        let n = self.ring.len();
        (n, Some(n))
    }
}

impl<T, const N: usize> RingBuffer<T, N> {
    /// Consume the buffer into an iterator over its elements.
    pub fn into_iter(self) -> (it: IntoIter<T, N>)
        requires
            self.wf(),
        ensures
            it.wf(),
            it@ == self@,
    {
        IntoIter { ring: self }
    }
}

/// A buffer never holds more than its capacity: pushing onto a buffer of
/// at most `cap` elements leaves at most `cap`, whichever end is pushed.
pub proof fn law_push_keeps_capacity<T>(s: Seq<T>, v: T, cap: nat)
    requires
        0 < cap,
        s.len() <= cap,
    ensures
        s.len() < cap ==> s.push(v).len() <= cap && (seq![v] + s).len() <= cap,
        s.len() == cap ==> s.drop_first().push(v).len() == cap && (seq![v]
            + s.drop_last()).len() == cap,
{
}

/// Popping the back right after a `push_back` with room gives back the
/// pushed value and the original contents.
pub proof fn law_push_back_then_pop_back<T>(s: Seq<T>, v: T)
    ensures
        s.push(v).len() > 0,
        s.push(v).last() == v,
        s.push(v).drop_last() == s,
{
    assert(s.push(v).drop_last() =~= s);
}

/// Popping the front right after a `push_front` with room gives back the
/// pushed value and the original contents.
pub proof fn law_push_front_then_pop_front<T>(s: Seq<T>, v: T)
    ensures
        (seq![v] + s).len() > 0,
        (seq![v] + s)[0] == v,
        (seq![v] + s).drop_first() == s,
{
    assert((seq![v] + s).drop_first() =~= s);
}

/// Queue order: after `push_back` with room, the front is unchanged when the
/// buffer was non-empty, so `pop_front` drains elements in insertion order.
pub proof fn law_push_back_preserves_front<T>(s: Seq<T>, v: T)
    requires
        s.len() > 0,
    ensures
        s.push(v)[0] == s[0],
        s.push(v).drop_first() == s.drop_first().push(v),
{
    assert(s.push(v).drop_first() =~= s.drop_first().push(v));
}

/// On a full buffer `push_back` keeps exactly the newest `cap` elements of
/// the sequence extended by the new value.
pub proof fn law_full_push_back_keeps_newest<T>(s: Seq<T>, v: T, cap: nat)
    requires
        0 < cap,
        s.len() == cap,
    ensures
        s.drop_first().push(v) == s.push(v).subrange(1, cap + 1 as int),
{
    assert(s.drop_first().push(v) =~= s.push(v).subrange(1, cap + 1 as int));
}


/// A valid buffer never holds more than its capacity.
pub proof fn law_len_within_capacity<T, const N: usize>(rb: RingBuffer<T, N>)
    requires
        rb.wf(),
    ensures
        rb@.len() <= N,
        0 < N,
{
}

} // verus!
