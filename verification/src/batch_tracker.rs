//! The batches under way, and how far a checkpoint may advance.
//!
//! A checkpoint only ever advances through batches that are confirmed one after
//! another from the oldest on: a batch confirmed behind one that is not does not
//! count yet.
use vstd::prelude::*;

verus! {

/// What became of a batch.
#[derive(Debug, Clone, Copy, PartialEq, Eq, Structural)]
pub enum BatchStatus {
    /// Under way.
    Pending,
    /// Confirmed by the endpoint.
    Acked,
    /// Given up.
    Failed,
}

/// A batch, with the stretch of the file and of the buffer that it stands for.
#[derive(Debug, Clone, Copy)]
pub struct TrackedBatch {
    /// The batch's number; later batches have higher numbers.
    pub sequence: u64,
    /// Where in the file the batch begins.
    pub start_offset: u64,
    /// Where in the file it ends: the checkpoint once all up to here is confirmed.
    pub end_offset: u64,
    /// The inode of the file when the batch was read.
    pub inode: u64,
    /// The first of the batch's entries in the buffer.
    pub buffer_first_seq: u64,
    /// The last of them.
    pub buffer_last_seq: u64,
    pub status: BatchStatus,
}

/// How far a checkpoint may advance.
#[derive(Debug)]
pub struct SafeCheckpoint {
    /// The offset to keep.
    pub offset: u64,
    /// The inode of the file at that offset.
    pub inode: u64,
    /// The entries of the buffer that may be deleted.
    pub acked_buffer_sequences: Vec<u64>,
}

/// The batches under way.
pub struct BatchTracker {
    batches: Vec<TrackedBatch>,
    next_sequence: u64,
}

/// How many batches are confirmed, one after another, from the oldest on.
pub open spec fn acked_prefix(batches: Seq<TrackedBatch>) -> nat
    decreases batches.len(),
{
    if batches.len() > 0 && batches[0].status == BatchStatus::Acked {
        1 + acked_prefix(batches.skip(1))
    } else {
        0
    }
}

/// The numbers from `first` up to and with `last`.
pub open spec fn numbers(first: u64, last: u64) -> Seq<u64> {
    if first <= last {
        Seq::new((last - first + 1) as nat, |i: int| (first + i) as u64)
    } else {
        seq![]
    }
}

/// The buffer's entries that batches stand for.
pub open spec fn buffer_sequences(batches: Seq<TrackedBatch>) -> Seq<u64>
    decreases batches.len(),
{
    if batches.len() == 0 {
        seq![]
    } else {
        buffer_sequences(batches.drop_last()) + numbers(
            batches.last().buffer_first_seq,
            batches.last().buffer_last_seq,
        )
    }
}

/// Batches with one of them marked.
pub open spec fn marked(batches: Seq<TrackedBatch>, sequence: u64, status: BatchStatus) -> Seq<
    TrackedBatch,
> {
    batches.map_values(
        |b: TrackedBatch|
            if b.sequence == sequence {
                TrackedBatch { status, ..b }
            } else {
                b
            },
    )
}

/// How many batches have a status.
pub open spec fn count_of(batches: Seq<TrackedBatch>, status: BatchStatus) -> nat {
    batches.filter(|b: TrackedBatch| b.status == status).len()
}

proof fn lemma_prefix(batches: Seq<TrackedBatch>)
    ensures
        acked_prefix(batches) <= batches.len(),
        forall|i: int|
            0 <= i < acked_prefix(batches) ==> (#[trigger] batches[i]).status == BatchStatus::Acked,
        acked_prefix(batches) < batches.len() ==> batches[acked_prefix(batches) as int].status
            != BatchStatus::Acked,
    decreases batches.len(),
{
    if batches.len() > 0 && batches[0].status == BatchStatus::Acked {
        let rest = batches.skip(1);
        lemma_prefix(rest);
        assert forall|i: int| 0 <= i < acked_prefix(batches) implies (
        #[trigger] batches[i]).status == BatchStatus::Acked by {
            if i > 0 {
                assert(batches[i] == rest[i - 1]);
            }
        }
        if acked_prefix(batches) < batches.len() {
            assert(batches[acked_prefix(batches) as int] == rest[acked_prefix(rest) as int]);
        }
    }
}

/// The prefix ends where the first batch stands that is not confirmed.
proof fn lemma_prefix_is(batches: Seq<TrackedBatch>, n: int)
    requires
        0 <= n <= batches.len(),
        forall|i: int| 0 <= i < n ==> (#[trigger] batches[i]).status == BatchStatus::Acked,
        n < batches.len() ==> batches[n].status != BatchStatus::Acked,
    ensures
        acked_prefix(batches) == n,
{
    lemma_prefix(batches);
    let k = acked_prefix(batches) as int;
    if k < n {
        assert(batches[k].status == BatchStatus::Acked);
    } else if n < k {
        assert(batches[n].status == BatchStatus::Acked);
    }
}

impl BatchTracker {
    /// The batches, from the oldest on.
    pub closed spec fn batches(&self) -> Seq<TrackedBatch> {
        self.batches@
    }

    /// The number that the next batch gets.
    pub closed spec fn next(&self) -> u64 {
        self.next_sequence
    }

    /// The numbers of the batches ascend, and all are below the next one.
    pub closed spec fn wf(&self) -> bool {
        &&& forall|i: int, j: int|
            0 <= i < j < self.batches@.len() ==> (#[trigger] self.batches@[i]).sequence < (
            #[trigger] self.batches@[j]).sequence
        &&& forall|i: int|
            0 <= i < self.batches@.len() ==> (#[trigger] self.batches@[i]).sequence
                < self.next_sequence
    }

    /// No batches yet; the first one gets the number 1.
    pub fn new() -> (r: Self)
        ensures
            r.wf(),
            r.batches() == Seq::<TrackedBatch>::empty(),
            r.next() == 1,
    {
        BatchTracker { batches: Vec::new(), next_sequence: 1 }
    }

    /// Takes in a new batch. Its number is above that of every batch before it.
    pub fn track(
        &mut self,
        start_offset: u64,
        end_offset: u64,
        inode: u64,
        buffer_first_seq: u64,
        buffer_last_seq: u64,
    ) -> (r: u64)
        requires
            old(self).wf(),
            old(self).next() < u64::MAX,
        ensures
            final(self).wf(),
            r == old(self).next(),
            final(self).next() == r + 1,
            forall|i: int|
                0 <= i < old(self).batches().len() ==> (
                #[trigger] old(self).batches()[i]).sequence < r,
            final(self).batches() == old(self).batches().push(
                TrackedBatch {
                    sequence: r,
                    start_offset,
                    end_offset,
                    inode,
                    buffer_first_seq,
                    buffer_last_seq,
                    status: BatchStatus::Pending,
                },
            ),
    {
        let sequence = self.next_sequence;
        self.next_sequence = sequence + 1;
        self.batches.push(
            TrackedBatch {
                sequence,
                start_offset,
                end_offset,
                inode,
                buffer_first_seq,
                buffer_last_seq,
                status: BatchStatus::Pending,
            },
        );
        sequence
    }

    fn mark(&mut self, sequence: u64, status: BatchStatus)
        ensures
            old(self).wf() ==> final(self).wf(),
            final(self).batches() == marked(old(self).batches(), sequence, status),
            final(self).next() == old(self).next(),
    {
        let ghost before = self.batches@;
        let ghost after = marked(before, sequence, status);
        let n = self.batches.len();
        let mut i: usize = 0;
        while i < n
            invariant
                i <= n,
                n == before.len(),
                n == self.batches@.len(),
                after == marked(before, sequence, status),
                self.next_sequence == old(self).next_sequence,
                forall|j: int| 0 <= j < i ==> #[trigger] self.batches@[j] == after[j],
                forall|j: int| i <= j < n ==> #[trigger] self.batches@[j] == before[j],
            decreases n - i,
        {
            let b = self.batches[i];
            if b.sequence == sequence {
                self.batches.set(i, TrackedBatch { status, ..b });
            }
            i = i + 1;
        }
        assert(self.batches@ =~= after);
        assert(forall|j: int| 0 <= j < n ==> (#[trigger] after[j]).sequence == before[j].sequence);
    }

    /// Marks a batch as confirmed. A number that no batch has is passed over.
    pub fn ack(&mut self, sequence: u64)
        ensures
            old(self).wf() ==> final(self).wf(),
            final(self).batches() == marked(old(self).batches(), sequence, BatchStatus::Acked),
            final(self).next() == old(self).next(),
    {
        self.mark(sequence, BatchStatus::Acked);
    }

    /// Marks a batch as given up. A number that no batch has is passed over.
    pub fn fail(&mut self, sequence: u64)
        ensures
            old(self).wf() ==> final(self).wf(),
            final(self).batches() == marked(old(self).batches(), sequence, BatchStatus::Failed),
            final(self).next() == old(self).next(),
    {
        self.mark(sequence, BatchStatus::Failed);
    }

    fn prefix_len(&self) -> (r: usize)
        ensures
            r == acked_prefix(self.batches@),
    {
        let mut n: usize = 0;
        while n < self.batches.len() && self.batches[n].status == BatchStatus::Acked
            invariant
                n <= self.batches@.len(),
                forall|i: int|
                    0 <= i < n ==> (#[trigger] self.batches@[i]).status == BatchStatus::Acked,
            decreases self.batches.len() - n,
        {
            n = n + 1;
        }
        proof {
            lemma_prefix_is(self.batches@, n as int);
        }
        n
    }

    /// How far a checkpoint may advance: to the end of the last batch of those
    /// that are confirmed one after another from the oldest on. The entries of
    /// just these batches may be deleted from the buffer.
    pub fn safe_checkpoint(&self) -> (r: Option<SafeCheckpoint>)
        ensures
            ({
                let n = acked_prefix(self.batches());
                &&& r is Some <==> n > 0
                &&& r is Some ==> r->0.offset == self.batches()[n - 1].end_offset && r->0.inode
                    == self.batches()[n - 1].inode && r->0.acked_buffer_sequences@
                    == buffer_sequences(self.batches().take(n as int))
            }),
    {
        let n = self.prefix_len();
        proof {
            lemma_prefix(self.batches@);
        }
        if n == 0 {
            return None;
        }
        let mut sequences: Vec<u64> = Vec::new();
        let mut i: usize = 0;
        assert(sequences@ =~= buffer_sequences(self.batches@.take(0)));
        while i < n
            invariant
                i <= n <= self.batches@.len(),
                sequences@ == buffer_sequences(self.batches@.take(i as int)),
            decreases n - i,
        {
            let ghost before = sequences@;
            let first = self.batches[i].buffer_first_seq;
            let last = self.batches[i].buffer_last_seq;
            push_numbers(&mut sequences, first, last);
            proof {
                let next = self.batches@.take(i + 1);
                assert(next.drop_last() =~= self.batches@.take(i as int));
                assert(next.last() == self.batches@[i as int]);
            }
            i = i + 1;
        }
        Some(
            SafeCheckpoint {
                offset: self.batches[n - 1].end_offset,
                inode: self.batches[n - 1].inode,
                acked_buffer_sequences: sequences,
            },
        )
    }

    /// Lets go of the batches that are confirmed one after another from the
    /// oldest on, and says how many they were.
    pub fn drain_acked(&mut self) -> (r: usize)
        ensures
            old(self).wf() ==> final(self).wf(),
            r == acked_prefix(old(self).batches()),
            final(self).batches() == old(self).batches().skip(r as int),
            final(self).next() == old(self).next(),
    {
        proof {
            lemma_prefix(self.batches@);
        }
        let n = self.prefix_len();
        let rest = self.batches.split_off(n);
        self.batches = rest;
        n
    }

    fn has(&self, status: BatchStatus) -> (r: bool)
        ensures
            r == exists|i: int|
                0 <= i < self.batches().len() && (#[trigger] self.batches()[i]).status == status,
    {
        let mut i: usize = 0;
        while i < self.batches.len()
            invariant
                i <= self.batches@.len(),
                forall|j: int| 0 <= j < i ==> (#[trigger] self.batches@[j]).status != status,
            decreases self.batches.len() - i,
        {
            if self.batches[i].status == status {
                assert(self.batches()[i as int].status == status);
                return true;
            }
            i = i + 1;
        }
        false
    }

    /// Whether a batch is under way.
    pub fn has_pending(&self) -> (r: bool)
        ensures
            r == exists|i: int|
                0 <= i < self.batches().len() && (#[trigger] self.batches()[i]).status
                    == BatchStatus::Pending,
    {
        self.has(BatchStatus::Pending)
    }

    /// Whether a batch was given up.
    pub fn has_failed(&self) -> (r: bool)
        ensures
            r == exists|i: int|
                0 <= i < self.batches().len() && (#[trigger] self.batches()[i]).status
                    == BatchStatus::Failed,
    {
        self.has(BatchStatus::Failed)
    }

    /// How many batches are under way.
    pub fn pending_count(&self) -> (r: usize)
        ensures
            r == count_of(self.batches(), BatchStatus::Pending),
    {
        let mut n: usize = 0;
        let mut i: usize = 0;
        let ghost f = |b: TrackedBatch| b.status == BatchStatus::Pending;
        proof {
            reveal(Seq::filter);
            assert(self.batches@.take(0).filter(f).len() == 0);
        }
        while i < self.batches.len()
            invariant
                n <= i <= self.batches@.len(),
                f == (|b: TrackedBatch| b.status == BatchStatus::Pending),
                n == self.batches@.take(i as int).filter(f).len(),
            decreases self.batches.len() - i,
        {
            proof {
                reveal(Seq::filter);
                let next = self.batches@.take(i + 1);
                assert(next.drop_last() =~= self.batches@.take(i as int));
                assert(next.last() == self.batches@[i as int]);
            }
            if self.batches[i].status == BatchStatus::Pending {
                n = n + 1;
            }
            i = i + 1;
        }
        assert(self.batches@.take(i as int) =~= self.batches@);
        n
    }

    /// How many batches are tracked.
    pub fn total_count(&self) -> (r: usize)
        ensures
            r == self.batches().len(),
    {
        self.batches.len()
    }

    /// The number of the oldest batch that is under way.
    pub fn oldest_pending_sequence(&self) -> (r: Option<u64>)
        ensures
            match r {
                Some(sequence) => exists|i: int|
                    {
                        &&& 0 <= i < self.batches().len()
                        &&& (#[trigger] self.batches()[i]).sequence == sequence
                        &&& self.batches()[i].status == BatchStatus::Pending
                        &&& forall|j: int|
                            0 <= j < i ==> (#[trigger] self.batches()[j]).status
                                != BatchStatus::Pending
                    },
                None => forall|i: int|
                    0 <= i < self.batches().len() ==> (#[trigger] self.batches()[i]).status
                        != BatchStatus::Pending,
            },
    {
        let mut i: usize = 0;
        while i < self.batches.len()
            invariant
                i <= self.batches@.len(),
                forall|j: int|
                    0 <= j < i ==> (#[trigger] self.batches()[j]).status != BatchStatus::Pending,
            decreases self.batches.len() - i,
        {
            if self.batches[i].status == BatchStatus::Pending {
                let sequence = self.batches[i].sequence;
                assert(self.batches()[i as int].sequence == sequence);
                return Some(sequence);
            }
            i = i + 1;
        }
        None
    }
}

impl Default for BatchTracker {
    fn default() -> (r: Self)
        ensures
            r.wf(),
            r.batches() == Seq::<TrackedBatch>::empty(),
            r.next() == 1,
    {
        Self::new()
    }
}

fn push_numbers(out: &mut Vec<u64>, first: u64, last: u64)
    ensures
        final(out)@ == old(out)@ + numbers(first, last),
{
    if first > last {
        assert(out@ =~= old(out)@ + numbers(first, last));
        return;
    }
    let ghost before = out@;
    let ghost all = numbers(first, last);
    let mut n: u64 = first;
    assert(out@ =~= before + all.take(0));
    while n < last
        invariant
            first <= n <= last,
            all == numbers(first, last),
            out@ == before + all.take(n - first),
        decreases last - n,
    {
        out.push(n);
        n = n + 1;
        assert(all.take(n - first) =~= all.take(n - first - 1).push((n - 1) as u64));
    }
    out.push(n);
    assert(out@ =~= before + all);
}

// ---------------------------------------------------------------------------
// Laws
// ---------------------------------------------------------------------------

/// A checkpoint never passes a batch that is not confirmed: every batch that it
/// covers is confirmed and older.
pub proof fn checkpoint_never_passes_unconfirmed(batches: Seq<TrackedBatch>, i: int)
    requires
        0 <= i < batches.len(),
        batches[i].status != BatchStatus::Acked,
    ensures
        acked_prefix(batches) <= i,
        forall|j: int|
            0 <= j < acked_prefix(batches) ==> (#[trigger] batches[j]).status
                == BatchStatus::Acked,
{
    lemma_prefix(batches);
}

/// A confirmation never takes a checkpoint back.
pub proof fn confirming_only_advances(batches: Seq<TrackedBatch>, sequence: u64)
    ensures
        acked_prefix(marked(batches, sequence, BatchStatus::Acked)) >= acked_prefix(batches),
{
    let after = marked(batches, sequence, BatchStatus::Acked);
    lemma_prefix(batches);
    lemma_prefix(after);
    let k = acked_prefix(after) as int;
    if k < acked_prefix(batches) {
        assert(batches[k].status == BatchStatus::Acked);
        assert(after[k].status == BatchStatus::Acked);
    }
}

/// Giving a batch up stops every checkpoint in front of it.
pub proof fn giving_up_stops_the_checkpoint(batches: Seq<TrackedBatch>, i: int)
    requires
        0 <= i < batches.len(),
    ensures
        acked_prefix(marked(batches, batches[i].sequence, BatchStatus::Failed)) <= i,
{
    let after = marked(batches, batches[i].sequence, BatchStatus::Failed);
    assert(after[i].status == BatchStatus::Failed);
    checkpoint_never_passes_unconfirmed(after, i);
}

/// Once the confirmed batches are drained, there is nothing to checkpoint until
/// another batch is confirmed, and no batch that is not confirmed is lost.
pub proof fn draining_keeps_the_unconfirmed(batches: Seq<TrackedBatch>)
    ensures
        acked_prefix(batches.skip(acked_prefix(batches) as int)) == 0,
        forall|i: int|
            0 <= i < batches.len() && (#[trigger] batches[i]).status != BatchStatus::Acked
                ==> batches.skip(acked_prefix(batches) as int).contains(batches[i]),
{
    lemma_prefix(batches);
    let n = acked_prefix(batches) as int;
    let rest = batches.skip(n);
    if rest.len() > 0 {
        assert(rest[0] == batches[n]);
    }
    assert forall|i: int|
        0 <= i < batches.len() && (#[trigger] batches[i]).status
            != BatchStatus::Acked implies rest.contains(batches[i]) by {
        assert(i >= n);
        assert(rest[i - n] == batches[i]);
    }
}

impl BatchTracker {
    /// The numbers of the batches ascend, and all are below the next one.
    pub proof fn batches_stand_in_order(&self)
        requires
            self.wf(),
        ensures
            forall|i: int, j: int|
                0 <= i < j < self.batches().len() ==> (#[trigger] self.batches()[i]).sequence < (
                #[trigger] self.batches()[j]).sequence,
            forall|i: int|
                0 <= i < self.batches().len() ==> (#[trigger] self.batches()[i]).sequence
                    < self.next(),
    {
    }
}

} // verus!
