//! Bounded history of one scalar stream: append at the end, evict at the front.

use vstd::prelude::*;

verus! {

/// The contents of a buffer of `capacity` samples that held `samples`, after
/// `value` was pushed: `value` goes to the end, and when that makes the buffer
/// longer than its capacity the oldest sample leaves.
pub open spec fn pushed(samples: Seq<u64>, capacity: nat, value: u64) -> Seq<u64> {
    let grown = samples.push(value);
    if grown.len() > capacity {
        grown.drop_first()
    } else {
        grown
    }
}

/// The contents after each of `values` was pushed in turn, first to last.
pub open spec fn pushed_all(samples: Seq<u64>, capacity: nat, values: Seq<u64>) -> Seq<u64>
    decreases values.len(),
{
    if values.len() == 0 {
        samples
    } else {
        pushed(pushed_all(samples, capacity, values.drop_last()), capacity, values.last())
    }
}

/// The last `count` elements of `samples`, in order; all of them where there
/// are no more than `count`.
pub open spec fn most_recent(samples: Seq<u64>, count: nat) -> Seq<u64> {
    if samples.len() <= count {
        samples
    } else {
        samples.subrange(samples.len() - count, samples.len() as int)
    }
}

/// A fixed-capacity, append-only sequence of samples, oldest first.
#[derive(Debug)]
pub struct HistoryBuffer {
    capacity: usize,
    samples: Vec<u64>,
}

impl View for HistoryBuffer {
    type V = Seq<u64>;

    closed spec fn view(&self) -> Seq<u64> {
        self.samples@
    }
}

impl HistoryBuffer {
    /// The most samples the buffer ever holds.
    pub closed spec fn spec_capacity(&self) -> usize {
        self.capacity
    }

    /// The buffer holds no more samples than its capacity.
    pub open spec fn wf(&self) -> bool {
        self@.len() <= self.capacity()
    }

    /// An empty buffer that will hold up to `capacity` samples.
    pub fn new(capacity: usize) -> (buffer: Self)
        ensures
            buffer.wf(),
            buffer@ == Seq::<u64>::empty(),
            buffer.capacity() == capacity,
    {
        HistoryBuffer { capacity, samples: Vec::new() }
    }

    /// The most samples the buffer ever holds.
    #[verifier::when_used_as_spec(spec_capacity)]
    pub fn capacity(&self) -> (capacity: usize)
        ensures
            capacity == self.spec_capacity(),
    {
        self.capacity
    }

    /// Number of samples held.
    pub fn len(&self) -> (len: usize)
        ensures
            len == self@.len(),
    {
        self.samples.len()
    }

    pub fn is_empty(&self) -> (empty: bool)
        ensures
            empty == (self@.len() == 0),
    {
        self.samples.len() == 0
    }

    /// The sample at `offset`, counted from the oldest, if there is one.
    pub fn get(&self, offset: usize) -> (sample: Option<u64>)
        ensures
            sample == if offset < self@.len() {
                Some(self@[offset as int])
            } else {
                None
            },
    {
        if offset < self.samples.len() {
            Some(self.samples[offset])
        } else {
            None
        }
    }

    /// The newest sample, if any.
    pub fn latest(&self) -> (sample: Option<u64>)
        ensures
            sample == if self@.len() > 0 {
                Some(self@.last())
            } else {
                None
            },
    {
        let len = self.samples.len();
        if len > 0 {
            Some(self.samples[len - 1])
        } else {
            None
        }
    }

    /// The samples, oldest first.
    pub fn samples(&self) -> (samples: &Vec<u64>)
        ensures
            samples@ == self@,
    {
        &self.samples
    }

    /// Appends `value`; when that takes the buffer past its capacity, the
    /// oldest sample is dropped.
    pub fn push(&mut self, value: u64)
        requires
            old(self).wf(),
        ensures
            final(self).wf(),
            final(self).capacity() == old(self).capacity(),
            final(self)@ == pushed(old(self)@, old(self).capacity() as nat, value),
    {
        self.samples.push(value);
        if self.samples.len() > self.capacity {
            let _ = self.samples.remove(0);
        }
    }
}

/// Pushing never takes a buffer past its capacity.
pub proof fn lemma_push_is_bounded(samples: Seq<u64>, capacity: nat, value: u64)
    requires
        samples.len() <= capacity,
    ensures
        pushed(samples, capacity, value).len() <= capacity,
        pushed(samples, capacity, value).len() == if samples.len() < capacity {
            samples.len() + 1
        } else {
            capacity
        },
{
}

/// Whatever is pushed, and however much of it, a buffer that started within
/// its capacity stays within it and holds the most recent samples in the
/// order in which they came: the last `capacity` of what it held followed by
/// what was pushed.
pub proof fn lemma_pushes_keep_most_recent(samples: Seq<u64>, capacity: nat, values: Seq<u64>)
    requires
        samples.len() <= capacity,
    ensures
        pushed_all(samples, capacity, values) == most_recent(samples + values, capacity),
        pushed_all(samples, capacity, values).len() <= capacity,
    decreases values.len(),
{
    if values.len() == 0 {
        assert(samples + values =~= samples);
    } else {
        let earlier = values.drop_last();
        lemma_pushes_keep_most_recent(samples, capacity, earlier);
        assert((samples + earlier).push(values.last()) =~= samples + values);
        assert(pushed(most_recent(samples + earlier, capacity), capacity, values.last())
            =~= most_recent(samples + values, capacity));
    }
}

/// An empty buffer into which more samples were pushed than it can hold
/// contains exactly the last `capacity` of them, in order.
pub proof fn lemma_overfilled_holds_the_tail(capacity: nat, values: Seq<u64>)
    requires
        values.len() > capacity,
    ensures
        pushed_all(Seq::empty(), capacity, values) == values.subrange(
            values.len() - capacity,
            values.len() as int,
        ),
        pushed_all(Seq::empty(), capacity, values).len() == capacity,
{
    lemma_pushes_keep_most_recent(Seq::empty(), capacity, values);
    assert(Seq::<u64>::empty() + values =~= values);
}

} // verus!
