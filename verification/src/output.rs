//! The handle through which a task emits records on an output of its
//! operator, with an emission mode that accounts for the bytes produced.

use crate::connection::{Capability, OutputIndex};
use vstd::prelude::*;

verus! {
/// The records of `container`, each at `time`.
pub open spec fn records_at<D>(time: u64, container: Seq<D>) -> Seq<(u64, D)> {
    Seq::new(container.len(), |i: int| (time, container[i]))
}

/// The account after a fueled emission of `size` bytes: it grows by the
/// size, and starts at zero again where it would go beyond the budget.
pub open spec fn accounted(outstanding: int, size: int) -> int {
    if outstanding + size > AsyncOutputHandle::<()>::MAX_OUTSTANDING_BYTES {
        0
    } else {
        outstanding + size
    }
}

/// Async handle to an operator's output stream.
///
/// Records are buffered with the time of the capability they are given
/// with, until [`AsyncOutputHandle::cease`] hands them on.
pub struct AsyncOutputHandle<D> {
    index: usize,
    buffer: Vec<(u64, D)>,
    /// The bytes accounted for since the task last yielded.
    bytes: usize,
}

impl<D> AsyncOutputHandle<D> {
    /// The number of bytes that fueled emission may produce before the task yields.
    pub const MAX_OUTSTANDING_BYTES: usize = 128 * 1024 * 1024;

    /// The records that are buffered, oldest first, each with its time.
    pub closed spec fn buffered(&self) -> Seq<(u64, D)> {
        self.buffer@
    }

    /// The bytes accounted for since the task last yielded.
    pub closed spec fn outstanding_bytes(&self) -> usize {
        self.bytes
    }

    /// The handle of the output with the given index, with nothing buffered.
    pub fn new(index: usize) -> (handle: Self)
        ensures
            handle.spec_index() == index,
            handle.buffered() == Seq::<(u64, D)>::empty(),
            handle.outstanding_bytes() == 0,
    {
        AsyncOutputHandle { index, buffer: Vec::new(), bytes: 0 }
    }

    /// Provides one record at the time specified by the capability.
    pub fn give(&mut self, cap: &Capability, data: D)
        requires
            cap.output() == old(self).spec_index(),
        ensures
            final(self).buffered() == old(self).buffered().push((cap.time(), data)),
            final(self).spec_index() == old(self).spec_index(),
            final(self).outstanding_bytes() == old(self).outstanding_bytes(),
    {
        self.buffer.push((cap.time(), data));
    }

    /// Provides all records of a container at the time specified by the
    /// capability, in their order, and leaves the container empty.
    pub fn give_container(&mut self, cap: &Capability, container: &mut Vec<D>)
        requires
            cap.output() == old(self).spec_index(),
        ensures
            final(self).buffered() == old(self).buffered() + records_at(cap.time(), old(container)@),
            final(container)@ == Seq::<D>::empty(),
            final(self).spec_index() == old(self).spec_index(),
            final(self).outstanding_bytes() == old(self).outstanding_bytes(),
    {
        let ghost before = self.buffer@;
        let ghost given = container@;
        let time = cap.time();
        let mut taken: Vec<D> = Vec::new();
        taken.append(container);
        for record in records: taken
            invariant
                records.seq() == given,
                self.buffer@ == before + records_at(time, given.take(records.index() as int)),
                self.index == old(self).index,
                self.bytes == old(self).bytes,
        {
            self.buffer.push((time, record));
        }
    }

    /// Provides one record of `size` bytes at the time specified by the
    /// capability, and tells whether the task has to yield to the scheduler
    /// before it goes on.
    ///
    /// The task yields once more than [`Self::MAX_OUTSTANDING_BYTES`] have
    /// been produced since it last did; the account then starts at zero again.
    pub fn give_fueled(&mut self, cap: &Capability, data: D, size: usize) -> (should_yield: bool)
        requires
            cap.output() == old(self).spec_index(),
        ensures
            final(self).buffered() == old(self).buffered().push((cap.time(), data)),
            final(self).spec_index() == old(self).spec_index(),
            should_yield == (old(self).outstanding_bytes() + size > Self::MAX_OUTSTANDING_BYTES),
            final(self).outstanding_bytes() == accounted(
                old(self).outstanding_bytes() as int,
                size as int,
            ),
            final(self).outstanding_bytes() <= Self::MAX_OUTSTANDING_BYTES,
    {
        self.buffer.push((cap.time(), data));
        match self.bytes.checked_add(size) {
            Some(total) if total <= Self::MAX_OUTSTANDING_BYTES => {
                self.bytes = total;
                false
            },
            _ => {
                self.bytes = 0;
                true
            },
        }
    }

    /// Flushes the output: hands on all buffered records, oldest first, and
    /// leaves the buffer empty.
    pub fn cease(&mut self) -> (flushed: Vec<(u64, D)>)
        ensures
            flushed@ == old(self).buffered(),
            final(self).buffered() == Seq::<(u64, D)>::empty(),
            final(self).spec_index() == old(self).spec_index(),
            final(self).outstanding_bytes() == old(self).outstanding_bytes(),
    {
        let mut flushed: Vec<(u64, D)> = Vec::new();
        flushed.append(&mut self.buffer);
        flushed
    }
}

impl<D> OutputIndex for AsyncOutputHandle<D> {
    closed spec fn spec_index(&self) -> usize {
        self.index
    }

    fn index(&self) -> (index: usize) {
        self.index
    }
}

/// The bytes accounted for after fueled emissions of the given `sizes`,
/// one after the other, from an account of `start` bytes.
pub open spec fn outstanding_after(start: int, sizes: Seq<usize>) -> int
    decreases sizes.len(),
{
    if sizes.len() == 0 {
        start
    } else {
        accounted(outstanding_after(start, sizes.drop_last()), sizes.last() as int)
    }
}

/// Whether the last of the fueled emissions of the given `sizes` has the task yield.
pub open spec fn yields_at_last(start: int, sizes: Seq<usize>) -> bool
    recommends
        sizes.len() > 0,
{
    outstanding_after(start, sizes.drop_last()) + sizes.last() > AsyncOutputHandle::<
        (),
    >::MAX_OUTSTANDING_BYTES
}

/// The sum of `sizes`.
pub open spec fn total(sizes: Seq<usize>) -> int
    decreases sizes.len(),
{
    if sizes.len() == 0 {
        0
    } else {
        total(sizes.drop_last()) + sizes.last()
    }
}

/// Fueled emission keeps what is outstanding within the budget.
///
/// From an account within the budget, the account stays within it. As long
/// as no emission has the task yield, the account is the sum of what has
/// been emitted; so once that sum is beyond the budget, some emission has
/// had the task yield: the first one with which the sum went beyond it.
pub proof fn lemma_fuel_bounded(start: int, sizes: Seq<usize>)
    requires
        0 <= start <= AsyncOutputHandle::<()>::MAX_OUTSTANDING_BYTES,
    ensures
        0 <= outstanding_after(start, sizes) <= AsyncOutputHandle::<()>::MAX_OUTSTANDING_BYTES,
        (forall|n: int| 0 < n <= sizes.len() ==> !yields_at_last(start, #[trigger] sizes.take(n)))
            ==> outstanding_after(start, sizes) == start + total(sizes),
        start + total(sizes) > AsyncOutputHandle::<()>::MAX_OUTSTANDING_BYTES ==> exists|n: int|
            0 < n <= sizes.len() && yields_at_last(start, #[trigger] sizes.take(n)),
    decreases sizes.len(),
{
    if sizes.len() > 0 {
        let fewer = sizes.drop_last();
        lemma_fuel_bounded(start, fewer);
        assert(sizes.take(sizes.len() as int) =~= sizes);
        assert(forall|n: int| 0 < n <= fewer.len() ==> #[trigger] fewer.take(n) == sizes.take(
            n,
        ));
    }
}
} // verus!
