//! The bookkeeping of joining several futures: which of them are still to
//! be polled, and when all have finished. Polling the futures and keeping
//! their outputs, by index, is left to the caller.

use vstd::prelude::*;

verus! {

/// The number of unfinished entries of `finished`.
pub open spec fn unfinished_count(finished: Seq<bool>) -> nat
    decreases finished.len(),
{
    if finished.len() == 0 {
        0
    } else {
        unfinished_count(finished.drop_last()) + if finished.last() {
            0nat
        } else {
            1nat
        }
    }
}

/// Marking one unfinished entry finished lowers the count by one.
proof fn lemma_unfinished_count_update(finished: Seq<bool>, i: int)
    requires
        0 <= i < finished.len(),
        !finished[i],
    ensures
        unfinished_count(finished.update(i, true)) + 1 == unfinished_count(finished),
    decreases finished.len(),
{
    let updated = finished.update(i, true);
    if i == finished.len() - 1 {
        assert(updated.drop_last() =~= finished.drop_last());
    } else {
        lemma_unfinished_count_update(finished.drop_last(), i);
        assert(updated.drop_last() =~= finished.drop_last().update(i, true));
    }
}

/// The count is zero exactly when every entry is finished, and never more
/// than the number of entries.
proof fn lemma_unfinished_count_zero(finished: Seq<bool>)
    ensures
        (unfinished_count(finished) == 0) == (forall|i: int|
            0 <= i < finished.len() ==> #[trigger] finished[i]),
        unfinished_count(finished) <= finished.len(),
    decreases finished.len(),
{
    if finished.len() > 0 {
        let rest = finished.drop_last();
        lemma_unfinished_count_zero(rest);
        if unfinished_count(finished) == 0 {
            assert forall|i: int| 0 <= i < finished.len() implies #[trigger] finished[i] by {
                if i < finished.len() - 1 {
                    assert(rest[i] == finished[i]);
                }
            }
        }
        if forall|i: int| 0 <= i < finished.len() ==> #[trigger] finished[i] {
            assert forall|i: int| 0 <= i < rest.len() implies #[trigger] rest[i] by {
                assert(finished[i]);
            }
            assert(finished[finished.len() - 1]);
        }
    }
}

/// Which of a fixed number of joined futures have finished.
pub struct JoinState {
    finished: Vec<bool>,
    remaining: usize,
}

impl JoinState {
    /// For each future, by index, whether it has finished.
    pub closed spec fn finished(&self) -> Seq<bool> {
        self.finished@
    }

    /// The number of futures that have not finished.
    pub closed spec fn remaining(&self) -> nat {
        self.remaining as nat
    }

    /// The count of unfinished futures is kept.
    pub open spec fn well_formed(&self) -> bool {
        self.remaining() == unfinished_count(self.finished())
    }

    /// `total` futures, none of them finished.
    pub fn new(total: usize) -> (j: Self)
        ensures
            j.well_formed(),
            j.finished() == Seq::new(total as nat, |i: int| false),
            j.remaining() == total,
    {
        let mut finished: Vec<bool> = Vec::new();
        let mut n: usize = 0;
        while n < total
            invariant
                n <= total,
                finished@ == Seq::new(n as nat, |i: int| false),
                unfinished_count(finished@) == n,
            decreases total - n,
        {
            proof {
                assert(finished@.push(false).drop_last() =~= finished@);
            }
            finished.push(false);
            n = n + 1;
            assert(finished@ =~= Seq::new(n as nat, |i: int| false));
        }
        JoinState { finished, remaining: total }
    }

    /// The number of futures that have not finished.
    pub fn remaining_count(&self) -> (n: usize)
        ensures
            n == self.remaining(),
    {
        self.remaining
    }

    /// The indices of the futures that have not finished, ascending: those
    /// the caller polls next.
    pub fn pending(&self) -> (indices: Vec<usize>)
        ensures
            forall|k: int|
                0 <= k < indices.len() ==> indices[k] < self.finished().len() && !self.finished()[#[trigger] indices[k] as int],
            forall|k: int, l: int| 0 <= k < l < indices.len() ==> indices[k] < indices[l],
            forall|i: int|
                0 <= i < self.finished().len() && !self.finished()[i] ==> #[trigger] indices@.contains(i as usize),
    {
        let mut indices: Vec<usize> = Vec::new();
        let mut i: usize = 0;
        while i < self.finished.len()
            invariant
                i <= self.finished@.len(),
                forall|k: int|
                    0 <= k < indices.len() ==> indices[k] < i && !self.finished@[#[trigger] indices[k] as int],
                forall|k: int, l: int| 0 <= k < l < indices.len() ==> indices[k] < indices[l],
                forall|m: int| 0 <= m < i && !self.finished@[m] ==> #[trigger] indices@.contains(m as usize),
            decreases self.finished@.len() - i,
        {
            if !self.finished[i] {
                let ghost before = indices@;
                indices.push(i);
                proof {
                    assert forall|m: int| 0 <= m < i + 1 && !self.finished@[m] implies #[trigger] indices@.contains(m as usize) by {
                        if m < i {
                            assert(before.contains(m as usize));
                            let k = choose|k: int| 0 <= k < before.len() && before[k] == m as usize;
                            assert(indices@[k] == m as usize);
                        } else {
                            assert(indices@[indices.len() - 1] == m as usize);
                        }
                    }
                }
            }
            i = i + 1;
        }
        indices
    }

    /// Records that the future at index `i`, not finished before, has
    /// finished.
    pub fn record_ready(&mut self, i: usize)
        requires
            old(self).well_formed(),
            i < old(self).finished().len(),
            !old(self).finished()[i as int],
        ensures
            final(self).well_formed(),
            final(self).finished() == old(self).finished().update(i as int, true),
            final(self).remaining() + 1 == old(self).remaining(),
    {
        proof {
            lemma_unfinished_count_update(self.finished@, i as int);
        }
        self.finished.set(i, true);
        self.remaining = self.remaining - 1;
    }

    /// `true` when every future has finished.
    pub fn is_complete(&self) -> (b: bool)
        requires
            self.well_formed(),
        ensures
            b == forall|i: int| 0 <= i < self.finished().len() ==> #[trigger] self.finished()[i],
    {
        proof {
            lemma_unfinished_count_zero(self.finished@);
        }
        self.remaining == 0
    }
}

} // verus!
