//! Group-commit persistence worker.
//!
//! Callers enqueue durable writes on a bounded queue, a dedicated writer groups
//! up to [`MAX_BATCH`] pending writes into a single transaction, and each caller
//! waits until its batch has committed. One flush amortizes over the whole
//! batch. When the queue is full, submitters wait.
//!
//! This module holds what the writer decides: when a batch is closed, which
//! sequence it publishes as committed, and what each caller is answered.

use vstd::prelude::*;

use crate::journal::{
    AdmissionRecord, BusinessJournal, CommittedEntry, JournalError, JournalOutcome, JournalView,
    PendingEntry, StagedBatch,
};

verus! {

/// Maximum writes grouped into one durable transaction.
pub const MAX_BATCH: usize = 64;

/// Bounded queue capacity before submitters block.
pub const CHANNEL_CAPACITY: usize = 1024;

/// Coalescing window after the first queued write before committing, in
/// microseconds.
///
/// Without a window the writer commits as soon as one request arrives. Waiting
/// briefly for concurrent submitters to attach trades a little admission latency
/// for a much larger batch.
pub const COALESCE_WINDOW_MICROS: u64 = 600;

/// Whether a batch of `pending` writes, begun `elapsed_micros` ago, takes
/// another one.
pub fn keeps_collecting(pending: usize, elapsed_micros: u64) -> (r: bool)
    ensures
        r == (pending < MAX_BATCH && elapsed_micros < COALESCE_WINDOW_MICROS),
{
    pending < MAX_BATCH && elapsed_micros < COALESCE_WINDOW_MICROS
}

/// The sequence number under which an entry was committed.
pub open spec fn committed_seq(entry: CommittedEntry) -> u64 {
    match entry {
        CommittedEntry::Admission(record) => record.seq,
        CommittedEntry::Outcome { seq, origin_seq } => seq,
    }
}

/// The sequence number that a committed batch publishes: that of its last
/// entry, or the one published before if the batch is empty.
pub fn published_high_water(committed: &Vec<CommittedEntry>, before: u64) -> (r: u64)
    ensures
        r == (if committed@.len() > 0 {
            committed_seq(committed@.last())
        } else {
            before
        }),
{
    if committed.len() == 0 {
        return before;
    }
    match &committed[committed.len() - 1] {
        CommittedEntry::Admission(record) => record.seq,
        CommittedEntry::Outcome { seq, origin_seq } => *seq,
    }
}

/// What the callers of a batch are answered: each its own result, in the order
/// of the batch, or all of them the error that kept the batch from committing.
pub open spec fn answers(
    callers: nat,
    result: Result<Seq<CommittedEntry>, JournalError>,
) -> Seq<Result<CommittedEntry, JournalError>> {
    match result {
        Ok(committed) => Seq::new(
            if callers <= committed.len() {
                callers
            } else {
                committed.len()
            },
            |i: int| Ok(committed[i]),
        ),
        Err(error) => Seq::new(callers, |i: int| Err(error)),
    }
}

/// Answers the `callers` of a batch: each its own result, in the order of the
/// batch, or all of them the error that kept the batch from committing.
pub fn fan_out(callers: usize, result: Result<Vec<CommittedEntry>, JournalError>) -> (r: Vec<
    Result<CommittedEntry, JournalError>,
>)
    ensures
        r@ == answers(
            callers as nat,
            match result {
                Ok(committed) => Ok(committed@),
                Err(error) => Err(error),
            },
        ),
{
    let mut out: Vec<Result<CommittedEntry, JournalError>> = Vec::new();
    match result {
        Ok(committed) => {
            let ghost all = committed@;
            for entry in it: committed
                invariant
                    it.seq() == all,
                    out@ == answers(
                        if it.index() <= callers {
                            it.index() as nat
                        } else {
                            callers as nat
                        },
                        Ok(all),
                    ),
            {
                if out.len() < callers {
                    out.push(Ok(entry));
                }
                assert(out@ =~= answers(
                    if it.index() + 1 <= callers {
                        (it.index() + 1) as nat
                    } else {
                        callers as nat
                    },
                    Ok(all),
                ));
            }
            assert(out@ =~= answers(callers as nat, Ok(all)));
        },
        Err(error) => {
            let mut i: usize = 0;
            while i < callers
                invariant
                    i <= callers,
                    out@ =~= answers(i as nat, Err(error)),
                decreases callers - i,
            {
                out.push(Err(error.clone()));
                i = i + 1;
            }
        },
    }
    out
}

/// The admission that an admission write was answered with.
pub fn admission_answer(answer: Result<CommittedEntry, JournalError>) -> (r: Result<
    AdmissionRecord,
    JournalError,
>)
    ensures
        match answer {
            Ok(CommittedEntry::Admission(record)) => r == Ok::<AdmissionRecord, JournalError>(
                *record,
            ),
            Ok(CommittedEntry::Outcome { seq, origin_seq }) => r matches Err(
                JournalError::Encoding(reason),
            ) && reason@ == "worker returned outcome for admission write"@,
            Err(error) => r == Err::<AdmissionRecord, JournalError>(error),
        },
{
    match answer {
        Ok(CommittedEntry::Admission(record)) => Ok(*record),
        Ok(CommittedEntry::Outcome { seq, origin_seq }) => Err(
            JournalError::Encoding("worker returned outcome for admission write".to_owned()),
        ),
        Err(error) => Err(error),
    }
}

/// The sequence number that an outcome write was answered with.
pub fn outcome_answer(answer: Result<CommittedEntry, JournalError>) -> (r: Result<
    u64,
    JournalError,
>)
    ensures
        match answer {
            Ok(CommittedEntry::Outcome { seq, origin_seq }) => r == Ok::<u64, JournalError>(seq),
            Ok(CommittedEntry::Admission(record)) => r matches Err(JournalError::Encoding(reason))
                && reason@ == "worker returned admission for outcome write"@,
            Err(error) => r == Err::<u64, JournalError>(error),
        },
{
    match answer {
        Ok(CommittedEntry::Outcome { seq, origin_seq }) => Ok(seq),
        Ok(CommittedEntry::Admission(record)) => Err(
            JournalError::Encoding("worker returned admission for outcome write".to_owned()),
        ),
        Err(error) => Err(error),
    }
}

/// The journal behind the worker, and the committed high-water sequence that it
/// publishes for followers to poll.
pub struct PersistenceWorker {
    journal: BusinessJournal,
    high_water: u64,
}

impl PersistenceWorker {
    /// The state of the journal.
    pub closed spec fn journal_view(&self) -> JournalView {
        self.journal@
    }

    /// The high-water sequence.
    pub closed spec fn published(&self) -> u64 {
        self.high_water
    }

    /// Starts a worker that commits batches to `journal`, and publishes its last
    /// sequence.
    pub fn start(journal: BusinessJournal) -> (r: Self)
        ensures
            r.journal_view() == journal@,
            r.published() == journal@.last_seq,
    {
        let high_water = match journal.last_seq() {
            Ok(seq) => seq,
            Err(_) => 0,
        };
        PersistenceWorker { journal, high_water }
    }

    /// Read-only access to the journal (snapshots, tail scans, lookups).
    pub fn journal(&self) -> (r: &BusinessJournal)
        ensures
            r@ == self.journal_view(),
    {
        &self.journal
    }

    /// The last committed high-water sequence published by the worker.
    pub fn high_water(&self) -> (r: u64)
        ensures
            r == self.published(),
    {
        self.high_water
    }

    /// Says what a batch of writes puts into the store; the store commits it in
    /// one transaction before [`PersistenceWorker::finish`] is told.
    pub fn stage(&self, writes: &[PendingEntry]) -> (r: Result<StagedBatch, JournalError>)
        ensures
            match r {
                Ok(batch) => {
                    &&& self.journal_view().has_room(writes@)
                    &&& self.journal_view().applied(batch) == self.journal_view().with_batch(
                        writes@,
                    )
                    &&& batch.results@ == self.journal_view().results(writes@)
                },
                Err(JournalError::Encoding(reason)) => !self.journal_view().has_room(writes@)
                    && reason@ == "sequence overflow"@,
                _ => false,
            },
    {
        self.journal.stage_batch(writes)
    }

    /// Takes up a batch that the store has committed, publishes its last
    /// sequence and answers its callers; where the store has not committed it,
    /// nothing changes and all callers get the error.
    pub fn finish(&mut self, callers: usize, stored: Result<StagedBatch, JournalError>) -> (r: Vec<
        Result<CommittedEntry, JournalError>,
    >)
        ensures
            match stored {
                Ok(batch) => {
                    &&& final(self).journal_view() == old(self).journal_view().applied(batch)
                    &&& final(self).published() == (if batch.results@.len() > 0 {
                        committed_seq(batch.results@.last())
                    } else {
                        old(self).published()
                    })
                    &&& r@ == answers(callers as nat, Ok(batch.results@))
                },
                Err(error) => {
                    &&& final(self).journal_view() == old(self).journal_view()
                    &&& final(self).published() == old(self).published()
                    &&& r@ == answers(callers as nat, Err(error))
                },
            },
    {
        match stored {
            Ok(batch) => {
                let committed = self.journal.apply(batch);
                self.high_water = published_high_water(&committed, self.high_water);
                fan_out(callers, Ok(committed))
            },
            Err(error) => fan_out(callers, Err(error)),
        }
    }

    /// Commits a batch of writes and answers each of its callers.
    pub fn commit_batch(&mut self, writes: &[PendingEntry]) -> (r: Vec<
        Result<CommittedEntry, JournalError>,
    >)
        ensures
            if old(self).journal_view().has_room(writes@) {
                &&& final(self).journal_view() == old(self).journal_view().with_batch(writes@)
                &&& final(self).published() == (if writes@.len() > 0 {
                    (old(self).journal_view().last_seq + writes@.len()) as u64
                } else {
                    old(self).published()
                })
                &&& r@ == answers(writes@.len(), Ok(old(self).journal_view().results(writes@)))
            } else {
                &&& final(self).journal_view() == old(self).journal_view()
                &&& final(self).published() == old(self).published()
                &&& r@.len() == writes@.len()
                &&& forall|i: int|
                    0 <= i < r@.len() ==> (#[trigger] r@[i] matches Err(
                        JournalError::Encoding(reason),
                    ) && reason@ == "sequence overflow"@)
            },
    {
        let staged = self.stage(writes);
        self.finish(writes.len(), staged)
    }

    /// Durably records an admission.
    pub fn submit_admission(&mut self, record: AdmissionRecord) -> (r: Result<
        AdmissionRecord,
        JournalError,
    >)
        ensures
            match r {
                Ok(admitted) => {
                    let before = old(self).journal_view();
                    &&& before.last_seq < u64::MAX
                    &&& admitted == record.numbered(before.epoch, (before.last_seq + 1) as u64)
                    &&& final(self).journal_view() == before.with_entry(
                        PendingEntry::Admission(Box::new(record)),
                    )
                    &&& final(self).published() == before.last_seq + 1
                },
                Err(JournalError::Encoding(reason)) => {
                    &&& old(self).journal_view().last_seq == u64::MAX
                    &&& reason@ == "sequence overflow"@
                    &&& final(self).journal_view() == old(self).journal_view()
                    &&& final(self).published() == old(self).published()
                },
                _ => false,
            },
    {
        let item = PendingEntry::Admission(Box::new(record));
        let ghost pending = item;
        let mut writes: Vec<PendingEntry> = Vec::new();
        writes.push(item);
        proof {
            lemma_single(self.journal_view(), pending);
            assert(writes@ =~= seq![pending]);
        }
        let mut replies = self.commit_batch(writes.as_slice());
        admission_answer(replies.pop().unwrap())
    }

    /// Durably records an outcome, and returns its sequence number.
    pub fn submit_outcome(&mut self, origin_seq: u64, outcome: JournalOutcome) -> (r: Result<
        u64,
        JournalError,
    >)
        ensures
            match r {
                Ok(seq) => {
                    let before = old(self).journal_view();
                    &&& before.last_seq < u64::MAX
                    &&& seq == before.last_seq + 1
                    &&& final(self).journal_view() == before.with_entry(
                        PendingEntry::Outcome { origin_seq, outcome },
                    )
                    &&& final(self).published() == seq
                },
                Err(JournalError::Encoding(reason)) => {
                    &&& old(self).journal_view().last_seq == u64::MAX
                    &&& reason@ == "sequence overflow"@
                    &&& final(self).journal_view() == old(self).journal_view()
                    &&& final(self).published() == old(self).published()
                },
                _ => false,
            },
    {
        let item = PendingEntry::Outcome { origin_seq, outcome };
        let ghost pending = item;
        let mut writes: Vec<PendingEntry> = Vec::new();
        writes.push(item);
        proof {
            lemma_single(self.journal_view(), pending);
            assert(writes@ =~= seq![pending]);
        }
        let mut replies = self.commit_batch(writes.as_slice());
        outcome_answer(replies.pop().unwrap())
    }
}

/// A batch of one write is that write.
proof fn lemma_single(journal: JournalView, item: PendingEntry)
    ensures
        journal.with_batch(seq![item]) == journal.with_entry(item),
        journal.results(seq![item]).len() == 1,
{
    assert(seq![item].drop_last() =~= Seq::<PendingEntry>::empty());
    assert(journal.with_batch(seq![item].drop_last()) == journal);
}

/// Every caller of a batch is answered, with what became of its own write: the
/// sequence numbers are those of the batch in the order of arrival, and the last
/// of them is the last of the journal.
pub proof fn law_each_caller_gets_its_own_result(journal: JournalView, items: Seq<PendingEntry>)
    requires
        journal.has_room(items),
    ensures
        ({
            let replies = answers(items.len(), Ok(journal.results(items)));
            &&& replies.len() == items.len()
            &&& forall|i: int|
                0 <= i < items.len() ==> (#[trigger] replies[i] matches Ok(entry)
                    && committed_seq(entry) == journal.last_seq + 1 + i && (entry is Admission
                    <==> items[i] is Admission))
            &&& items.len() > 0 ==> committed_seq(journal.results(items).last())
                == journal.last_seq + items.len()
        }),
{
}

} // verus!
