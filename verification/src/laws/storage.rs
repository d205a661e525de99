//! Laws of the journal and of the readiness gate: what was written is what is read.

use vstd::prelude::*;

use crate::journal::{
    law_admission_is_found, law_append_only, law_batch_is_contiguous, law_lookup_succeeds,
    law_outcome_is_latest, law_restart_loses_nothing, law_scan_has_no_gaps, reads, request_key,
    row_at, AdmissionRecord, BusinessJournal, CommittedEntry, JournalEntry, JournalError,
    JournalOutcome, JournalView, PendingEntry, RequestRecord, Row, StoredRow,
};
use crate::readiness::{Readiness, ReadinessGate};
use crate::worker::{keeps_collecting, PersistenceWorker};

verus! {

/// Two records say the same of a request; the journal assigns the rest.
pub open spec fn same_request(a: AdmissionRecord, b: AdmissionRecord) -> bool {
    &&& a.submitter_id@ == b.submitter_id@
    &&& a.request_id@ == b.request_id@
    &&& a.request_kind@ == b.request_kind@
    &&& a.request_fingerprint@ == b.request_fingerprint@
    &&& a.strategy_id@ == b.strategy_id@
    &&& a.instrument_id@ == b.instrument_id@
    &&& a.order_side@ == b.order_side@
    &&& a.quantity@ == b.quantity@
    &&& a.price@ == b.price@
    &&& a.time_in_force@ == b.time_in_force@
    &&& a.post_only == b.post_only
    &&& a.reduce_only == b.reduce_only
    &&& a.submit_before_ns == b.submit_before_ns
    &&& a.ts_init_ns == b.ts_init_ns
}

/// What was written is what is read: an admission under a new key is found by its
/// submitter, its method and its request ID, field by field as it was written, under
/// the next number of the journal and without an outcome. The writer is told the same.
pub proof fn law_written_admission_is_read_back(
    journal: &mut BusinessJournal,
    record: AdmissionRecord,
    admitted: AdmissionRecord,
    later: BusinessJournal,
    submitter_id: &str,
    method: &str,
    request_id: &str,
    found: Result<Option<RequestRecord>, JournalError>,
)
    requires
        call_ensures(
            BusinessJournal::append_admission,
            (journal, record),
            Ok::<AdmissionRecord, JournalError>(admitted),
        ),
        old(journal)@.intact(),
        old(journal)@.found(request_key(submitter_id@, method@, request_id@)) == Ok::<
            Option<RequestRecord>,
            Seq<char>,
        >(None),
        record.submitter_id@ == submitter_id@,
        record.request_kind@ == method@,
        record.request_id@ == request_id@,
        later@ == final(journal)@,
        call_ensures(
            BusinessJournal::find_request,
            (&later, submitter_id, method, request_id),
            found,
        ),
    ensures
        found matches Ok(Some(known)) && same_request(known.admission, record)
            && known.admission.seq == old(journal)@.last_seq + 1 && known.admission.journal_epoch
            == old(journal)@.epoch && known.outcome is None,
        same_request(admitted, record),
        admitted.seq == old(journal)@.last_seq + 1,
        admitted.journal_epoch == old(journal)@.epoch,
        final(journal)@.intact(),
        final(journal)@.last_seq == old(journal)@.last_seq + 1,
        final(journal)@.epoch == old(journal)@.epoch,
{
    law_lookup_succeeds(old(journal)@, record.key());
    law_append_only(old(journal)@, PendingEntry::Admission(Box::new(record)));
    law_admission_is_found(old(journal)@, record);
}

/// The latest outcome of a request is read: once an outcome was written for the
/// admission that a lookup gives, the lookup gives the same admission with that
/// outcome.
pub proof fn law_written_outcome_is_read_back(
    journal: &mut BusinessJournal,
    before: BusinessJournal,
    known: RequestRecord,
    outcome: JournalOutcome,
    seq: u64,
    later: BusinessJournal,
    submitter_id: &str,
    method: &str,
    request_id: &str,
    found: Result<Option<RequestRecord>, JournalError>,
)
    requires
        before@ == old(journal)@,
        before@.intact(),
        call_ensures(
            BusinessJournal::find_request,
            (&before, submitter_id, method, request_id),
            Ok::<Option<RequestRecord>, JournalError>(Some(known)),
        ),
        call_ensures(
            BusinessJournal::append_outcome,
            (journal, known.admission.seq, outcome),
            Ok::<u64, JournalError>(seq),
        ),
        later@ == final(journal)@,
        call_ensures(
            BusinessJournal::find_request,
            (&later, submitter_id, method, request_id),
            found,
        ),
    ensures
        found matches Ok(Some(now)) && now.admission == known.admission && now.outcome == Some(
            outcome,
        ),
        seq == before@.last_seq + 1,
{
    let key = request_key(submitter_id@, method@, request_id@);
    law_lookup_succeeds(before@, key);
    law_outcome_is_latest(before@, key, outcome);
}

/// The journal only grows, by what is written: a scan after a write gives what the
/// scan before it gave, and behind that the written entry under the next number.
pub proof fn law_scan_grows_by_what_is_written(
    journal: &mut BusinessJournal,
    record: AdmissionRecord,
    admitted: AdmissionRecord,
    before: BusinessJournal,
    later: BusinessJournal,
    earlier_entries: Vec<(u64, JournalEntry)>,
    entries: Vec<(u64, JournalEntry)>,
)
    requires
        call_ensures(
            BusinessJournal::append_admission,
            (journal, record),
            Ok::<AdmissionRecord, JournalError>(admitted),
        ),
        before@ == old(journal)@,
        before@.intact(),
        later@ == final(journal)@,
        call_ensures(
            BusinessJournal::scan_all,
            (&before,),
            Ok::<Vec<(u64, JournalEntry)>, JournalError>(earlier_entries),
        ),
        call_ensures(
            BusinessJournal::scan_all,
            (&later,),
            Ok::<Vec<(u64, JournalEntry)>, JournalError>(entries),
        ),
    ensures
        entries@.len() == earlier_entries@.len() + 1,
        forall|i: int|
            0 <= i < earlier_entries@.len() ==> #[trigger] entries@[i] == earlier_entries@[i],
        entries@.last().0 == before@.last_seq + 1,
        entries@.last().1 matches JournalEntry::Admission(written) && same_request(
            *written,
            record,
        ) && written.seq == before@.last_seq + 1,
{
    let item = PendingEntry::Admission(Box::new(record));
    law_append_only(before@, item);
    law_scan_has_no_gaps(before@, 0);
    law_scan_has_no_gaps(later@, 0);
    assert forall|i: int| 0 <= i < earlier_entries@.len() implies #[trigger] entries@[i]
        == earlier_entries@[i] by {
        assert(entries@[i] == ((0 + 1 + i) as u64, later@.rows[0 + i].stored->Entry_0));
        assert(later@.rows[i] == before@.rows[i]);
        assert(earlier_entries@[i] == ((0 + 1 + i) as u64, before@.rows[0 + i].stored->Entry_0));
    }
    let n = before@.last_seq as int;
    assert(entries@.last() == entries@[n]);
    assert(entries@[n] == ((0 + 1 + n) as u64, later@.rows[0 + n].stored->Entry_0));
}

/// A scan from a number on is the rest of the whole scan.
pub proof fn law_scan_from_a_number_is_the_rest(
    journal: BusinessJournal,
    after: u64,
    all: Vec<(u64, JournalEntry)>,
    entries: Vec<(u64, JournalEntry)>,
)
    requires
        journal@.intact(),
        after <= journal@.last_seq,
        call_ensures(
            BusinessJournal::scan_all,
            (&journal,),
            Ok::<Vec<(u64, JournalEntry)>, JournalError>(all),
        ),
        call_ensures(
            BusinessJournal::scan_after,
            (&journal, after),
            Ok::<Vec<(u64, JournalEntry)>, JournalError>(entries),
        ),
    ensures
        entries@ == all@.skip(after as int),
        all@.len() == journal@.last_seq,
        forall|i: int| 0 <= i < all@.len() ==> (#[trigger] all@[i]).0 == i + 1,
{
    law_scan_has_no_gaps(journal@, 0);
    law_scan_has_no_gaps(journal@, after);
    assert forall|i: int| 0 <= i < entries@.len() implies #[trigger] entries@[i] == all@.skip(
        after as int,
    )[i] by {
        assert(entries@[i] == (
            (after + 1 + i) as u64,
            journal@.rows[after + i].stored->Entry_0,
        ));
        assert(all@[after + i] == (
            (0 + 1 + (after + i)) as u64,
            journal@.rows[0 + (after + i)].stored->Entry_0,
        ));
    }
    assert(entries@ =~= all@.skip(after as int));
    assert forall|i: int| 0 <= i < all@.len() implies (#[trigger] all@[i]).0 == i + 1 by {
        assert(all@[i] == ((0 + 1 + i) as u64, journal@.rows[0 + i].stored->Entry_0));
    }
}

/// A restart loses nothing: the journal that is built from what a store holds of an
/// intact one is that very journal.
pub proof fn law_restored_journal_is_the_same(
    journal: JournalView,
    rows: Vec<Row>,
    keys: Vec<(String, u64)>,
    restored: BusinessJournal,
)
    requires
        journal.intact(),
        reads(journal, rows@, keys@),
        call_ensures(
            BusinessJournal::restore,
            (Some(journal.epoch), Some(journal.last_seq), rows, keys),
            restored,
        ),
    ensures
        restored@ == journal,
{
    law_restart_loses_nothing(
        journal,
        Some(journal.epoch),
        Some(journal.last_seq),
        rows@,
        keys@,
    );
}

/// A journal of its own is empty and intact.
pub proof fn law_new_journal_is_empty(journal: BusinessJournal)
    requires
        call_ensures(BusinessJournal::new, (), journal),
    ensures
        journal@.intact(),
        journal@.last_seq == 0,
        journal@.epoch == 1,
        journal@.rows.len() == 0,
        forall|key: Seq<char>| (#[trigger] journal@.found(key)) == Ok::<
            Option<RequestRecord>,
            Seq<char>,
        >(None),
{
}

/// The worker writes what it is given, answers each caller with what became of its own
/// write, and publishes the last number: an admission comes back as it was given, under
/// the number that its place in the batch leads to.
pub proof fn law_worker_answers_each_caller(
    worker: &mut PersistenceWorker,
    writes: &[PendingEntry],
    replies: Vec<Result<CommittedEntry, JournalError>>,
    i: int,
)
    requires
        call_ensures(PersistenceWorker::commit_batch, (worker, writes), replies),
        old(worker).journal_view().intact(),
        old(worker).journal_view().last_seq + writes@.len() <= u64::MAX,
        0 <= i < writes@.len(),
    ensures
        replies@.len() == writes@.len(),
        final(worker).journal_view().intact(),
        final(worker).journal_view().last_seq == old(worker).journal_view().last_seq
            + writes@.len(),
        final(worker).published() == final(worker).journal_view().last_seq,
        writes@[i] matches PendingEntry::Admission(record) ==> (replies@[i] matches Ok(
            CommittedEntry::Admission(admitted),
        ) && same_request(*admitted, *record) && admitted.seq
            == old(worker).journal_view().last_seq + 1 + i && admitted.journal_epoch
            == old(worker).journal_view().epoch),
        writes@[i] matches PendingEntry::Outcome { origin_seq, outcome } ==> (replies@[i] matches Ok(
            CommittedEntry::Outcome { seq, origin_seq: origin },
        ) && seq == old(worker).journal_view().last_seq + 1 + i && origin == origin_seq),
{
    law_batch_is_contiguous(old(worker).journal_view(), writes@);
}

// ---------------------------------------------------------------------------
// Readiness
// ---------------------------------------------------------------------------

/// A gate is as it was set last: in that state and for that reason, and open in the
/// ready state alone. The reason of the last halt stays until the next one.
pub proof fn law_gate_is_as_it_was_set(
    gate: &mut ReadinessGate,
    state: Readiness,
    reason: &str,
    later: ReadinessGate,
    now: Readiness,
    open: bool,
    why: String,
    halted: String,
)
    requires
        call_ensures(ReadinessGate::set, (gate, state, reason), ()),
        later == *final(gate),
        call_ensures(ReadinessGate::get, (&later,), now),
        call_ensures(ReadinessGate::is_admissible, (&later,), open),
        call_ensures(ReadinessGate::current_reason, (&later,), why),
        call_ensures(ReadinessGate::halt_reason, (&later,), halted),
    ensures
        now == state,
        open <==> state == Readiness::Ready,
        why@ == reason@,
        state == Readiness::Halted ==> halted@ == reason@,
        state != Readiness::Halted ==> halted@ == old(gate).halted_for(),
{
}

/// What is stored under a number is in a row of that number.
proof fn lemma_row_at(rows: Seq<Row>, seq: u64)
    ensures
        row_at(rows, seq) matches Some(stored) ==> exists|i: int|
            0 <= i < rows.len() && (#[trigger] rows[i]).seq == seq && rows[i].stored == stored,
        row_at(rows, seq) is None ==> forall|i: int|
            0 <= i < rows.len() ==> (#[trigger] rows[i]).seq != seq,
    decreases rows.len(),
{
    if rows.len() > 0 {
        let rest = rows.drop_last();
        lemma_row_at(rest, seq);
        assert(rows[rows.len() - 1] == rows.last());
        if rows.last().seq != seq {
            if let Some(stored) = row_at(rest, seq) {
                let i = choose|i: int|
                    0 <= i < rest.len() && (#[trigger] rest[i]).seq == seq && rest[i].stored
                        == stored;
                assert(rows[i] == rest[i]);
            } else {
                assert forall|i: int| 0 <= i < rows.len() implies (#[trigger] rows[i]).seq
                    != seq by {
                    if i < rest.len() {
                        assert(rest[i].seq != seq);
                    }
                }
            }
        }
    }
}

/// A lookup goes by the index and answers with what is stored: nothing is found only of
/// a request that the index does not have, what is found stands in the row that the
/// index leads to, and an index that leads to no admission is an error.
pub proof fn law_lookup_goes_by_the_index(
    journal: &BusinessJournal,
    submitter_id: &str,
    method: &str,
    request_id: &str,
    r: Result<Option<RequestRecord>, JournalError>,
)
    requires
        call_ensures(BusinessJournal::find_request, (journal, submitter_id, method, request_id), r),
    ensures
        ({
            let key = submitter_id@ + seq!['|'] + method@ + seq!['|'] + request_id@;
            &&& r == Ok::<Option<RequestRecord>, JournalError>(None)
                <==> !journal@.index.contains_key(key)
            &&& r matches Ok(Some(record)) ==> exists|i: int|
                0 <= i < journal@.rows.len() && (#[trigger] journal@.rows[i]).seq
                    == journal@.index[key] && (journal@.rows[i].stored matches StoredRow::Entry(
                    JournalEntry::Admission(found),
                ) && *found == record.admission)
        }),
{
    let key = submitter_id@ + seq!['|'] + method@ + seq!['|'] + request_id@;
    assert(key =~= request_key(submitter_id@, method@, request_id@));
    lemma_row_at(journal@.rows, journal@.index[key]);
}

/// A stored state is one of four, by their order; no other number is one.
pub proof fn law_stored_states_are_read(value: u8, r: Result<Readiness, u8>)
    requires
        call_ensures(Readiness::from_u8, (value,), r),
    ensures
        r == (if value == 0 {
            Ok::<Readiness, u8>(Readiness::Booting)
        } else if value == 1 {
            Ok(Readiness::Restoring)
        } else if value == 2 {
            Ok(Readiness::Ready)
        } else if value == 3 {
            Ok(Readiness::Halted)
        } else {
            Err(value)
        }),
{
}

/// A batch takes more writes while it has fewer than sixty-four and is younger than
/// six hundred microseconds: one that is full or old stays so.
pub proof fn law_batches_are_bounded(
    pending: usize,
    elapsed_micros: u64,
    more_pending: usize,
    later_micros: u64,
    r: bool,
    later_r: bool,
)
    requires
        call_ensures(keeps_collecting, (pending, elapsed_micros), r),
        call_ensures(keeps_collecting, (more_pending, later_micros), later_r),
        pending <= more_pending,
        elapsed_micros <= later_micros,
    ensures
        r <==> pending < 64 && elapsed_micros < 600,
        later_r ==> r,
{
}

/// Each state has its own name.
pub proof fn law_states_have_names(state: Readiness, name: &'static str)
    requires
        call_ensures(Readiness::as_str, (state,), name),
    ensures
        name@ == (match state {
            Readiness::Booting => "booting"@,
            Readiness::Restoring => "restoring"@,
            Readiness::Ready => "ready"@,
            Readiness::Halted => "halted"@,
        }),
{
}

} // verus!
