use vstd::prelude::*;
use std::collections::VecDeque;
use vstd::std_specs::iter::IteratorSpec;

verus! {

/// The last `n` elements of `s`, or all of `s` when it holds no more than `n`.
pub open spec fn keep_last<T>(s: Seq<T>, n: nat) -> Seq<T> {
    if s.len() <= n {
        s
    } else {
        s.subrange(s.len() - n, s.len() as int)
    }
}

/// Trimming to the last `n` before appending more changes nothing once the
/// result is trimmed again: the queue keeps the last `n` of all it was given.
pub proof fn lemma_keep_last_append<T>(s: Seq<T>, t: Seq<T>, n: nat)
    ensures
        keep_last(keep_last(s, n) + t, n) == keep_last(s + t, n),
        keep_last(s, n).len() <= n,
{
    let a = keep_last(s, n) + t;
    let b = s + t;
    if s.len() > n {
        assert forall|i: int| 0 <= i < keep_last(a, n).len() implies keep_last(a, n)[i] == keep_last(b, n)[i] by {
            if a.len() > n {
                assert(keep_last(a, n)[i] == a[a.len() - n + i]);
            }
        }
    } else {
        assert(keep_last(s, n) == s);
    }
    assert(keep_last(a, n) =~= keep_last(b, n));
}

/// A first-in first-out sequence that never holds more than its capacity:
/// appending past it drops the oldest elements.
#[derive(Clone, Debug)]
pub struct QueueMaxLen<T> {
    vec: VecDeque<T>,
    max_len: usize,
}

impl<T> View for QueueMaxLen<T> {
    type V = Seq<T>;

    closed spec fn view(&self) -> Seq<T> {
        self.vec@
    }
}

impl<T> QueueMaxLen<T> {
    /// The capacity.
    pub closed spec fn capacity(&self) -> nat {
        self.max_len as nat
    }

    pub open spec fn wf(&self) -> bool {
        self@.len() <= self.capacity()
    }

    /// An empty queue of capacity zero.
    pub fn new() -> (r: Self)
        ensures
            r@ == Seq::<T>::empty(),
            r.capacity() == 0,
            r.wf(),
    {
        Self::with_capacity(0)
    }

    /// An empty queue of capacity `max_len`.
    pub fn with_capacity(max_len: usize) -> (r: Self)
        ensures
            r@ == Seq::<T>::empty(),
            r.capacity() == max_len,
            r.wf(),
    {
        QueueMaxLen { vec: VecDeque::new(), max_len }
    }

    pub fn len(&self) -> (r: usize)
        ensures
            r == self@.len(),
    {
        self.vec.len()
    }

    pub fn max_len(&self) -> (r: usize)
        ensures
            r == self.capacity(),
    {
        self.max_len
    }

    /// The elements, oldest first.
    pub fn vec(&self) -> (r: &VecDeque<T>)
        ensures
            r@ == self@,
    {
        &self.vec
    }

    /// The element at `i`, counted from the oldest.
    pub fn get(&self, i: usize) -> (r: Option<&T>)
        ensures
            i < self@.len() ==> r == Some(&self@[i as int]),
            i >= self@.len() ==> r is None,
    {
        if i < self.vec.len() {
            Some(&self.vec[i])
        } else {
            None
        }
    }

    /// An iterator over the elements, oldest first.
    pub fn iter(&self) -> (r: std::collections::vec_deque::Iter<'_, T>)
        ensures
            r.remaining() == self@.map_values(|x: T| &x),
    {
        broadcast use vstd::std_specs::vecdeque::group_vec_dequeue_axioms;
        let r = self.vec.iter();
        proof {
            assert(r.remaining() =~= self@.map_values(|x: T| &x));
        }
        r
    }

    /// The most recent element.
    pub fn back(&self) -> (r: Option<&T>)
        ensures
            self@.len() == 0 ==> r is None,
            self@.len() > 0 ==> r == Some(&self@.last()),
    {
        let n = self.vec.len();
        if n == 0 {
            None
        } else {
            Some(&self.vec[n - 1])
        }
    }

    /// The elements, oldest first, as a vector.
    pub fn to_vec(&self) -> (r: Vec<T>)
        where T: Copy
        ensures
            r@ == self@,
    {
        let mut r: Vec<T> = Vec::new();
        let mut i: usize = 0;
        while i < self.vec.len()
            invariant
                i <= self.vec@.len(),
                r@ == self.vec@.take(i as int),
            decreases self.vec@.len() - i,
        {
            r.push(self.vec[i]);
            proof {
                assert(r@ =~= self.vec@.take(i + 1));
            }
            i = i + 1;
        }
        proof {
            assert(r@ =~= self.vec@);
        }
        r
    }

    fn drop_oldest(&mut self, keep: usize)
        ensures
            final(self).max_len == old(self).max_len,
            final(self)@ == keep_last(old(self)@, keep as nat),
    {
        let ghost s = self.vec@;
        while self.vec.len() > keep
            invariant
                self.max_len == old(self).max_len,
                s == old(self)@,
                s.len() >= self.vec@.len(),
                self.vec@ == s.subrange(s.len() - self.vec@.len(), s.len() as int),
                self.vec@.len() >= keep || self.vec@.len() == s.len(),
            decreases self.vec@.len(),
        {
            self.vec.pop_front();
        }
        proof {
            assert(self.vec@ =~= keep_last(s, keep as nat));
        }
    }

    /// Changes the capacity, dropping the oldest elements beyond it.
    pub fn set_max_len(&mut self, max_len: usize)
        ensures
            final(self).capacity() == max_len,
            final(self)@ == keep_last(old(self)@, max_len as nat),
            final(self).wf(),
    {
        let len = self.vec.len();
        if len < max_len {
            self.vec.reserve(max_len - len);
        } else {
            self.drop_oldest(max_len);
        }
        self.max_len = max_len;
    }

    /// Appends one element, dropping the oldest as needed.
    pub fn push(&mut self, value: T)
        requires
            old(self).wf(),
        ensures
            final(self).capacity() == old(self).capacity(),
            final(self)@ == keep_last(old(self)@.push(value), old(self).capacity()),
            final(self).wf(),
    {
        if self.max_len == 0 {
            proof {
                assert(keep_last(self@.push(value), 0) =~= Seq::<T>::empty());
            }
            return;
        }
        let ghost s = self.vec@;
        self.drop_oldest(self.max_len - 1);
        self.vec.push_back(value);
        proof {
            assert(self.vec@ =~= keep_last(s.push(value), self.max_len as nat));
        }
    }

    /// Appends a batch of elements in order, dropping the oldest as needed;
    /// the same as pushing them one by one.
    pub fn extend(&mut self, values: Vec<T>)
        requires
            old(self).wf(),
        ensures
            final(self).capacity() == old(self).capacity(),
            final(self)@ == keep_last(old(self)@ + values@, old(self).capacity()),
            final(self).wf(),
    {
        let ghost s = self.vec@;
        let ghost cap = self.max_len as nat;
        let mut vals = values;
        let n = vals.len();
        if n >= self.max_len {
            self.drop_oldest(0);
            vals = vals.split_off(n - self.max_len);
        } else {
            self.drop_oldest(self.max_len - n);
        }
        let ghost kept = vals@;
        // reverse once, then pop to restore arrival order
        let mut rev: Vec<T> = Vec::new();
        while vals.len() > 0
            invariant
                vals@ + rev@.reverse() == kept,
            decreases vals@.len(),
        {
            let x = vals.pop().unwrap();
            proof {
                assert(vals@ + rev@.push(x).reverse() =~= kept);
            }
            rev.push(x);
        }
        let ghost base = self.vec@;
        while rev.len() > 0
            invariant
                self.vec@ == base + kept.subrange(0, kept.len() - rev@.len()),
                rev@.reverse() == kept.subrange(kept.len() - rev@.len(), kept.len() as int),
                rev@.len() <= kept.len(),
                self.max_len == cap,
            decreases rev@.len(),
        {
            let ghost r0 = rev@;
            let x = rev.pop().unwrap();
            proof {
                assert(r0.reverse()[0] == x);
                assert(rev@.reverse() =~= r0.reverse().subrange(1, r0.len() as int));
                assert(kept.subrange(0, kept.len() - rev@.len()) =~= kept.subrange(
                    0,
                    kept.len() - r0.len(),
                ).push(x));
            }
            self.vec.push_back(x);
        }
        proof {
            assert(self.vec@ =~= keep_last(s + values@, cap));
        }
    }
}

/// Everything appended to a queue, in order: one batch per `push` (a
/// single element) or `extend`.
pub open spec fn appended<T>(batches: Seq<Seq<T>>) -> Seq<T>
    decreases batches.len(),
{
    if batches.len() == 0 {
        Seq::empty()
    } else {
        appended(batches.drop_last()) + batches.last()
    }
}

/// The contents of a queue of capacity `n` that started empty, after each
/// batch in turn, as `push` and `extend` state it.
pub open spec fn replay<T>(batches: Seq<Seq<T>>, n: nat) -> Seq<T>
    decreases batches.len(),
{
    if batches.len() == 0 {
        Seq::empty()
    } else {
        keep_last(replay(batches.drop_last(), n) + batches.last(), n)
    }
}

/// After any sequence of `push` and `extend` calls on a queue of capacity
/// `n`, it holds at most `n` elements, and they are the last `n` appended,
/// oldest first.
pub proof fn lemma_queue_keeps_last<T>(batches: Seq<Seq<T>>, n: nat)
    ensures
        replay(batches, n).len() <= n,
        replay(batches, n) == keep_last(appended(batches), n),
    decreases batches.len(),
{
    if batches.len() > 0 {
        lemma_queue_keeps_last(batches.drop_last(), n);
        lemma_keep_last_append(appended(batches.drop_last()), batches.last(), n);
        lemma_keep_last_append(replay(batches.drop_last(), n) + batches.last(), Seq::empty(), n);
    }
}

} // verus!
