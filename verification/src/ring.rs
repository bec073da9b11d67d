//! The live capture's rolling buffer of the most recent samples.

use vstd::prelude::*;

verus! {

/// `s` without its oldest items beyond the last `capacity`.
pub open spec fn most_recent<T>(s: Seq<T>, capacity: nat) -> Seq<T> {
    if s.len() > capacity {
        s.skip(s.len() - capacity)
    } else {
        s
    }
}

/// A buffer that keeps the last `capacity` items written to it, and counts
/// every item ever written (saturating).
pub struct RingBuffer<T> {
    capacity: usize,
    data: Vec<T>,
    written: u64,
}

impl<T: Copy> RingBuffer<T> {
    /// How many items the buffer keeps.
    pub closed spec fn capacity(&self) -> nat {
        self.capacity as nat
    }

    /// The items held, oldest first.
    pub closed spec fn items(&self) -> Seq<T> {
        self.data@
    }

    /// How many items were ever written, up to `u64::MAX`.
    pub closed spec fn written_count(&self) -> u64 {
        self.written
    }

    /// The buffer holds at most `capacity` items.
    pub closed spec fn wf(&self) -> bool {
        self.data@.len() <= self.capacity
    }

    /// An empty buffer of `capacity` items.
    pub fn new(capacity: usize) -> (r: Self)
        ensures
            r.wf(),
            r.capacity() == capacity,
            r.items().len() == 0,
            r.written_count() == 0,
    {
        RingBuffer { capacity, data: Vec::new(), written: 0 }
    }

    /// Writes `samples`: the buffer then holds the last `capacity` items of
    /// what it held followed by `samples`.
    pub fn push_slice(&mut self, samples: &[T])
        requires
            old(self).wf(),
        ensures
            final(self).wf(),
            final(self).capacity() == old(self).capacity(),
            final(self).items() == most_recent(old(self).items() + samples@, old(self).capacity()),
            final(self).written_count() == (if old(self).written_count() + samples@.len()
                > u64::MAX {
                u64::MAX as int
            } else {
                old(self).written_count() + samples@.len()
            }),
    {
        let n = samples.len() as u64;
        self.written = if self.written > u64::MAX - n {
            u64::MAX
        } else {
            self.written + n
        };
        let ghost all = self.data@ + samples@;
        let cap = self.capacity;
        let held = self.data.len();
        let total_fits = held <= cap && samples.len() <= cap - held;
        let keep_from_old: usize = if samples.len() >= cap {
            held
        } else if total_fits {
            0
        } else {
            held - (cap - samples.len())
        };
        let skip_new: usize = if samples.len() >= cap {
            samples.len() - cap
        } else {
            0
        };
        let mut out: Vec<T> = Vec::new();
        let mut i: usize = keep_from_old;
        while i < held
            invariant
                keep_from_old <= i <= held,
                held == self.data@.len(),
                out@ == self.data@.subrange(keep_from_old as int, i as int),
            decreases held - i,
        {
            out.push(self.data[i]);
            assert(self.data@.subrange(keep_from_old as int, i + 1) =~= self.data@.subrange(
                keep_from_old as int,
                i as int,
            ).push(self.data@[i as int]));
            i = i + 1;
        }
        let mut j: usize = skip_new;
        while j < samples.len()
            invariant
                skip_new <= j <= samples@.len(),
                out@ == self.data@.subrange(keep_from_old as int, held as int) + samples@.subrange(
                    skip_new as int,
                    j as int,
                ),
                held == self.data@.len(),
            decreases samples@.len() - j,
        {
            out.push(samples[j]);
            assert(samples@.subrange(skip_new as int, j + 1) =~= samples@.subrange(
                skip_new as int,
                j as int,
            ).push(samples@[j as int]));
            j = j + 1;
        }
        proof {
            let start = if all.len() > cap {
                all.len() - cap
            } else {
                0
            };
            assert(all.skip(start as int) =~= out@);
            assert(most_recent(all, cap as nat) =~= out@);
        }
        self.data = out;
    }

    /// A copy of the items held, oldest first.
    pub fn snapshot(&self) -> (r: Vec<T>)
        ensures
            r@ == self.items(),
    {
        let mut r: Vec<T> = Vec::new();
        let mut i: usize = 0;
        while i < self.data.len()
            invariant
                i <= self.data@.len(),
                r@ == self.data@.take(i as int),
            decreases self.data@.len() - i,
        {
            r.push(self.data[i]);
            assert(self.data@.take(i + 1) =~= self.data@.take(i as int).push(self.data@[i as int]));
            i = i + 1;
        }
        assert(self.data@.take(self.data@.len() as int) =~= self.data@);
        r
    }

    /// How many items the buffer holds.
    pub fn len(&self) -> (r: usize)
        ensures
            r == self.items().len(),
    {
        self.data.len()
    }

    /// How many items were ever written, up to `u64::MAX`.
    pub fn written(&self) -> (r: u64)
        ensures
            r == self.written_count(),
    {
        self.written
    }
}

/// Writing in two batches leaves the buffer holding what writing them as
/// one batch would: the most recent items do not depend on how the writes
/// were split.
pub proof fn lemma_split_writes<T>(held: Seq<T>, a: Seq<T>, b: Seq<T>, capacity: nat)
    ensures
        most_recent(most_recent(held + a, capacity) + b, capacity) == most_recent(
            held + a + b,
            capacity,
        ),
{
    let first = most_recent(held + a, capacity);
    let whole = held + a + b;
    let lhs = most_recent(first + b, capacity);
    let rhs = most_recent(whole, capacity);
    assert(lhs.len() == rhs.len());
    assert forall|i: int| 0 <= i < lhs.len() implies lhs[i] == rhs[i] by {
        let k = (held + a).len() - first.len();
        assert(forall|m: int| 0 <= m < first.len() ==> first[m] == (held + a)[m + k]);
        assert(forall|m: int| 0 <= m < (first + b).len() ==> (first + b)[m] == whole[m + k]);
    }
    assert(lhs =~= rhs);
}

} // verus!
