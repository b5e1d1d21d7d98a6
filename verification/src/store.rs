//! The holder of the latest detections.
//!
//! The store keeps one whole result and nothing else. A write replaces the
//! result as a unit and a read copies it as a unit, so whoever shares a store
//! behind a lock always reads the result of one write.

use vstd::prelude::*;
use crate::geometry::BoundingBox;

verus! {

/// The latest detections.
#[derive(Debug)]
pub struct DetectionStore {
    latest: Vec<BoundingBox>,
}

impl View for DetectionStore {
    type V = Seq<BoundingBox>;

    closed spec fn view(&self) -> Seq<BoundingBox> {
        self.latest@
    }
}

/// What a store holds after `result` was written to it: the result, and
/// nothing of what it held before.
pub open spec fn replaced(held: Seq<BoundingBox>, result: Seq<BoundingBox>) -> Seq<BoundingBox> {
    result
}

/// What a store holds after the results `writes` have been written to it in
/// order, starting from `initial`.
pub open spec fn after_writes(initial: Seq<BoundingBox>, writes: Seq<Seq<BoundingBox>>) -> Seq<
    BoundingBox,
>
    decreases writes.len(),
{
    if writes.len() == 0 {
        initial
    } else {
        replaced(after_writes(initial, writes.drop_last()), writes.last())
    }
}

impl DetectionStore {
    /// A store without detections.
    pub fn new() -> (s: DetectionStore)
        ensures
            s@ == Seq::<BoundingBox>::empty(),
    {
        DetectionStore { latest: Vec::new() }
    }

    /// Puts `result` in place of what the store held.
    pub fn replace(&mut self, result: Vec<BoundingBox>)
        ensures
            final(self)@ == result@,
            final(self)@ == replaced(old(self)@, result@),
    {
        self.latest = result;
    }

    /// Returns a copy of what was written last.
    pub fn snapshot(&self) -> (r: Vec<BoundingBox>)
        ensures
            r@ == self@,
    {
        let n = self.latest.len();
        let mut copy: Vec<BoundingBox> = Vec::new();
        let mut i: usize = 0;
        while i < n
            invariant
                i <= n,
                n == self.latest@.len(),
                copy@ == self.latest@.take(i as int),
            decreases n - i,
        {
            copy.push(self.latest[i]);
            assert(self.latest@.take(i + 1) =~= self.latest@.take(i as int).push(
                self.latest@[i as int],
            ));
            i += 1;
        }
        assert(self.latest@.take(n as int) =~= self.latest@);
        copy
    }

    /// The number of detections held.
    pub fn len(&self) -> (n: usize)
        ensures
            n == self@.len(),
    {
        self.latest.len()
    }
}

/// A read that follows a write reflects that write or a later one, never an
/// earlier one. Right after the write at `k`, the store holds its result;
/// after all of `writes`, it holds the result of a write that is not before
/// `k`, namely the last.
pub proof fn lemma_reads_see_latest_write(
    initial: Seq<BoundingBox>,
    writes: Seq<Seq<BoundingBox>>,
    k: int,
)
    requires
        0 <= k < writes.len(),
    ensures
        after_writes(initial, writes.take(k + 1)) == writes[k],
        after_writes(initial, writes) == writes.last(),
        exists|j: int|
            k <= j < writes.len() && after_writes(initial, writes) == #[trigger] writes[j],
{
    assert(writes.take(k + 1).last() == writes[k]);
    assert(after_writes(initial, writes) == writes[writes.len() - 1]);
}

/// What a store holds is always the whole result of one write, or what it
/// started with: it never mixes the boxes of two writes, and its number of
/// boxes is that of one write.
pub proof fn lemma_reads_see_one_write(initial: Seq<BoundingBox>, writes: Seq<Seq<BoundingBox>>)
    ensures
        writes.len() == 0 ==> after_writes(initial, writes) == initial,
        writes.len() > 0 ==> exists|k: int|
            0 <= k < writes.len() && after_writes(initial, writes) == #[trigger] writes[k],
{
    if writes.len() > 0 {
        assert(after_writes(initial, writes) == writes[writes.len() - 1]);
    }
}

} // verus!
