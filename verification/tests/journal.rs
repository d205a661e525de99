//! Journal: sequences, lookups, recovery, batches and the worker.

use orderhub::journal::{
    AdmissionRecord, BusinessJournal, CommittedEntry, JournalEntry, JournalError, JournalOutcome,
    PendingEntry, Row, StoredRow,
};
use orderhub::readiness::{Readiness, ReadinessGate};
use orderhub::worker::{
    admission_answer, fan_out, keeps_collecting, outcome_answer, published_high_water,
    PersistenceWorker, MAX_BATCH,
};

fn record(seq: u64) -> AdmissionRecord {
    AdmissionRecord {
        journal_epoch: 1,
        seq,
        submitter_id: "trader-1".to_string(),
        request_id: format!("req-{seq}"),
        request_kind: "SubmitOrder".to_string(),
        request_fingerprint: format!("fp-{seq}"),
        strategy_id: "ORDERHUB-S001".to_string(),
        instrument_id: "AAPL.XNAS".to_string(),
        order_side: "BUY".to_string(),
        quantity: "10".to_string(),
        price: "150.00".to_string(),
        time_in_force: "GTC".to_string(),
        post_only: false,
        reduce_only: false,
        submit_before_ns: None,
        ts_init_ns: 1,
    }
}

fn bench_record(request_id: &str) -> AdmissionRecord {
    let mut record = record(1);
    record.submitter_id = "bench".to_string();
    record.request_id = request_id.to_string();
    record.request_fingerprint = "fp".to_string();
    record
}

/// What a store holds of a journal, read back into a new one.
fn reopened(journal: &BusinessJournal) -> BusinessJournal {
    let mut rows = Vec::new();
    let mut keys = Vec::new();
    for (seq, entry) in journal.scan_all().unwrap() {
        if let JournalEntry::Admission(record) = &entry {
            keys.push((
                BusinessJournal::request_key_parts(
                    &record.submitter_id,
                    &record.request_kind,
                    &record.request_id,
                ),
                seq,
            ));
        }
        rows.push(Row { seq, stored: StoredRow::Entry(entry) });
    }
    BusinessJournal::restore(
        Some(journal.epoch()),
        Some(journal.last_seq().unwrap()),
        rows,
        keys,
    )
}

#[test]
fn request_key_parts_are_unambiguous() {
    let a = BusinessJournal::request_key_parts("s-1", "SubmitOrder", "r-1");
    let b = BusinessJournal::request_key_parts("s-1|SubmitOrder", "", "r-1");
    assert_ne!(a, b);
    assert_eq!(a, "s-1|SubmitOrder|r-1");
}

#[test]
fn m0_t5_journal_recovers_after_reopen() {
    let mut journal = BusinessJournal::new();
    let a1 = journal.append_admission(record(1)).unwrap();
    let a2 = journal.append_admission(record(2)).unwrap();
    let a3 = journal.append_admission(record(3)).unwrap();
    assert_eq!((a1.seq, a2.seq, a3.seq), (1, 2, 3));
    journal
        .append_outcome(
            a2.seq,
            JournalOutcome::DispatchStarted {
                client_order_id: "O-1-000000000002".to_string(),
            },
        )
        .unwrap();

    // Reopen: sequences continue, all entries recover in order
    let mut journal = reopened(&journal);
    assert_eq!(journal.epoch(), 1);
    assert_eq!(journal.last_seq().unwrap(), 4);
    let entries = journal.scan_all().unwrap();
    assert_eq!(entries.len(), 4);
    assert!(matches!(entries[0].1, JournalEntry::Admission(_)));
    assert!(matches!(
        entries[3].1,
        JournalEntry::Outcome { origin_seq: 2, .. }
    ));

    // Idempotency index survived, and the latest outcome is retrievable
    let rec = journal
        .find_request("trader-1", "SubmitOrder", "req-2")
        .unwrap()
        .expect("indexed request");
    assert_eq!(rec.admission.seq, 2);
    assert!(matches!(
        rec.outcome,
        Some(JournalOutcome::DispatchStarted { .. })
    ));

    // A fresh admission continues the sequence without reuse
    let a4 = journal.append_admission(record(0)).unwrap();
    assert_eq!(a4.seq, 5);
}

#[test]
fn m2_restore_a03_recovery_returns_original_results() {
    // Phase 1: two admissions committed, then a "crash".
    let mut journal = BusinessJournal::new();
    let first = journal.append_admission(record(1)).unwrap();
    let second = journal.append_admission(record(2)).unwrap();
    journal
        .append_outcome(
            second.seq,
            JournalOutcome::Filled {
                client_order_id: format!("O-1-{:012}", second.seq),
                filled_qty: "10".to_string(),
            },
        )
        .unwrap();

    // Phase 2: restart and restore.
    let mut gate = ReadinessGate::new();
    gate.set(Readiness::Restoring, "");
    let mut restored = reopened(&journal);
    let entries = restored.scan_all().unwrap();
    assert_eq!(entries.len(), 3, "all committed entries survive");
    assert_eq!(restored.last_seq().unwrap(), 3, "high-water preserved");

    // Same-key retry recovers the ORIGINAL result, including the fill outcome
    // recorded before the crash; no second order is created.
    let recovered = restored
        .find_request("trader-1", "SubmitOrder", "req-2")
        .unwrap()
        .expect("idempotency index survives");
    assert_eq!(recovered.admission.seq, second.seq);
    assert_eq!(
        recovered.admission.request_fingerprint,
        second.request_fingerprint
    );
    assert!(matches!(
        recovered.outcome,
        Some(JournalOutcome::Filled { .. })
    ));

    // Sequences continue without reuse; admission opens only after restore.
    let third = restored.append_admission(record(3)).unwrap();
    assert_eq!(third.seq, 4);
    assert_ne!(first.seq, second.seq);
    gate.set(Readiness::Ready, "");
    assert!(gate.is_admissible());
}

#[test]
fn m1_w2_outcomes_via_worker_are_queryable() {
    let mut worker = PersistenceWorker::start(BusinessJournal::new());

    let admitted = worker.submit_admission(bench_record("req-out-1")).unwrap();
    worker
        .submit_outcome(
            admitted.seq,
            JournalOutcome::DispatchStarted {
                client_order_id: format!("O-1-{:012}", admitted.seq),
            },
        )
        .unwrap();

    let record = worker
        .journal()
        .find_request("bench", "SubmitOrder", "req-out-1")
        .unwrap()
        .expect("admission present");
    assert!(matches!(
        record.outcome,
        Some(JournalOutcome::DispatchStarted { .. })
    ));
    assert!(worker.high_water() >= 2);
}

#[test]
fn a_tail_scan_has_no_gaps_and_follows() {
    let mut worker = PersistenceWorker::start(BusinessJournal::new());
    for i in 0..10 {
        worker.submit_admission(bench_record(&format!("req-tail-{i}"))).unwrap();
    }
    let snapshot_cursor = worker.high_water();
    assert_eq!(snapshot_cursor, 10);
    let all = worker.journal().scan_after(0).unwrap();
    assert_eq!(all.len(), 10);
    for (idx, (seq, _)) in all.iter().enumerate() {
        assert_eq!(*seq, idx as u64 + 1);
    }
    assert!(worker.journal().scan_after(snapshot_cursor).unwrap().is_empty());
    for i in 10..15 {
        worker.submit_admission(bench_record(&format!("req-tail-{i}"))).unwrap();
    }
    let caught_up = worker.journal().scan_after(snapshot_cursor).unwrap();
    assert_eq!(caught_up[0].0, snapshot_cursor + 1);
    assert_eq!(caught_up[4].0, snapshot_cursor + 5);
    assert!(caught_up.iter().all(|(_, e)| matches!(e, JournalEntry::Admission(_))));
    assert!(worker.journal().scan_after(u64::MAX).unwrap().is_empty());
}

#[test]
fn an_admission_is_read_back_as_it_was_written() {
    let mut journal = BusinessJournal::new();
    journal.append_admission(record(7)).unwrap();
    let found = journal.find_request("trader-1", "SubmitOrder", "req-7").unwrap().unwrap();
    assert_eq!(found.admission.seq, 1);
    assert_eq!(found.admission.journal_epoch, 1);
    assert_eq!(found.admission.request_fingerprint, "fp-7");
    assert!(found.outcome.is_none());
    assert!(journal.find_request("trader-1", "CancelOrder", "req-7").unwrap().is_none());
}

#[test]
fn the_latest_outcome_of_a_request_counts() {
    let mut journal = BusinessJournal::new();
    journal.append_admission(record(1)).unwrap();
    journal.append_admission(record(2)).unwrap();
    let started = JournalOutcome::DispatchStarted { client_order_id: "O-1".to_string() };
    let denied = JournalOutcome::Denied { reason: "LIMIT".to_string() };
    assert_eq!(journal.append_outcome(1, started).unwrap(), 3);
    assert_eq!(journal.append_outcome(2, denied).unwrap(), 4);
    let canceled = JournalOutcome::Canceled { client_order_id: "O-1".to_string() };
    journal.append_outcome(1, canceled).unwrap();
    let one = journal.find_request("trader-1", "SubmitOrder", "req-1").unwrap().unwrap();
    assert!(matches!(one.outcome, Some(JournalOutcome::Canceled { .. })));
    let two = journal.find_request("trader-1", "SubmitOrder", "req-2").unwrap().unwrap();
    assert!(matches!(two.outcome, Some(JournalOutcome::Denied { .. })));
}

#[test]
fn the_first_admission_under_a_key_is_the_original() {
    let mut journal = BusinessJournal::new();
    journal.append_admission(bench_record("req-1")).unwrap();
    let mut later = bench_record("req-1");
    later.quantity = "20".to_string();
    assert_eq!(journal.append_admission(later).unwrap().seq, 2);
    let found = journal.find_request("bench", "SubmitOrder", "req-1").unwrap().unwrap();
    assert_eq!(found.admission.seq, 1);
    assert_eq!(found.admission.quantity, "10");
    assert_eq!(journal.scan_all().unwrap().len(), 2);

    // So it is within one batch, of which only new keys are stored.
    let batch = [
        PendingEntry::Admission(Box::new(bench_record("req-1"))),
        PendingEntry::Admission(Box::new(bench_record("req-2"))),
        PendingEntry::Admission(Box::new(bench_record("req-2"))),
    ];
    let staged = journal.stage_batch(&batch).unwrap();
    assert_eq!(staged.keys, [("bench|SubmitOrder|req-2".to_string(), 4)]);
    journal.append_batch(&batch).unwrap();
    let found = journal.find_request("bench", "SubmitOrder", "req-2").unwrap().unwrap();
    assert_eq!(found.admission.seq, 4);
    let found = journal.find_request("bench", "SubmitOrder", "req-1").unwrap().unwrap();
    assert_eq!(found.admission.seq, 1);
}

#[test]
fn a_batch_takes_contiguous_sequences_in_order_of_arrival() {
    let mut journal = BusinessJournal::new();
    journal.append_admission(record(1)).unwrap();
    let batch = [
        PendingEntry::Admission(Box::new(record(2))),
        PendingEntry::Outcome {
            origin_seq: 1,
            outcome: JournalOutcome::Admitted { client_order_id: "O-1".to_string() },
        },
        PendingEntry::Admission(Box::new(record(3))),
    ];
    let committed = journal.append_batch(&batch).unwrap();
    assert_eq!(committed.len(), 3);
    assert!(matches!(&committed[0], CommittedEntry::Admission(r) if r.seq == 2));
    assert!(matches!(committed[1], CommittedEntry::Outcome { seq: 3, origin_seq: 1 }));
    assert!(matches!(&committed[2], CommittedEntry::Admission(r) if r.seq == 4));
    assert_eq!(journal.last_seq().unwrap(), 4);
    assert!(journal.append_batch(&[]).unwrap().is_empty());
    assert_eq!(journal.last_seq().unwrap(), 4);
}

#[test]
fn used_up_sequences_are_an_error_and_change_nothing() {
    let mut journal = BusinessJournal::restore(Some(3), Some(u64::MAX - 1), vec![], vec![]);
    assert_eq!(journal.epoch(), 3);
    let batch = [
        PendingEntry::Admission(Box::new(record(1))),
        PendingEntry::Admission(Box::new(record(2))),
    ];
    let error = journal.append_batch(&batch).unwrap_err();
    assert_eq!(error.message(), "journal encoding error: sequence overflow");
    assert_eq!(journal.last_seq().unwrap(), u64::MAX - 1);
    assert!(journal.find_request("trader-1", "SubmitOrder", "req-1").unwrap().is_none());
    assert_eq!(journal.append_admission(record(1)).unwrap().seq, u64::MAX);
    assert!(matches!(journal.append_admission(record(2)), Err(JournalError::Encoding(_))));
    let outcome = JournalOutcome::Canceled { client_order_id: "O".to_string() };
    assert!(matches!(journal.append_outcome(1, outcome), Err(JournalError::Encoding(_))));
}

#[test]
fn a_store_that_says_nothing_is_new() {
    let journal = BusinessJournal::restore(None, None, vec![], vec![]);
    assert_eq!(journal.epoch(), 1);
    assert_eq!(journal.last_seq().unwrap(), 0);
    assert!(journal.scan_all().unwrap().is_empty());
}

#[test]
fn a_damaged_store_is_reported_by_lookups_and_scans() {
    let outcome = StoredRow::Entry(JournalEntry::Outcome {
        origin_seq: 9,
        outcome: JournalOutcome::Canceled { client_order_id: "O".to_string() },
    });
    let journal = BusinessJournal::restore(
        None,
        Some(3),
        vec![
            Row { seq: 3, stored: StoredRow::Unreadable("bad bytes".to_string()) },
            Row { seq: 1, stored: outcome },
            Row { seq: 2, stored: StoredRow::Entry(JournalEntry::Admission(Box::new(record(2)))) },
        ],
        vec![
            ("a|b|1".to_string(), 1),
            ("a|b|2".to_string(), 2),
            ("a|b|3".to_string(), 3),
            ("a|b|7".to_string(), 7),
        ],
    );
    let text = |id: &str| journal.find_request("a", "b", id).unwrap_err().message();
    assert_eq!(
        text("1"),
        "journal encoding error: request index points at an outcome entry at seq 1"
    );
    assert_eq!(text("2"), "journal encoding error: bad bytes");
    assert_eq!(text("3"), "journal encoding error: bad bytes");
    assert_eq!(
        text("7"),
        "journal encoding error: request index points at missing seq 7"
    );
    assert!(journal.find_request("a", "b", "8").unwrap().is_none());
    assert!(journal.scan_after(2).is_err());
    assert!(journal.scan_after(3).unwrap().is_empty());
    let storage = JournalError::Storage("disk".to_string());
    assert_eq!(storage.message(), "journal storage error: disk");
}

#[test]
fn the_worker_stages_commits_and_answers_each_caller() {
    let mut worker = PersistenceWorker::start(BusinessJournal::new());
    let writes = [
        PendingEntry::Admission(Box::new(record(1))),
        PendingEntry::Admission(Box::new(record(2))),
    ];
    let staged = worker.stage(&writes).unwrap();
    assert_eq!(staged.last_seq, 2);
    assert_eq!(staged.rows.len(), 2);
    assert_eq!(staged.keys[1].0, "trader-1|SubmitOrder|req-2");
    assert_eq!(worker.journal().last_seq().unwrap(), 0, "staging commits nothing");
    let replies = worker.finish(2, Ok(staged));
    assert_eq!(worker.high_water(), 2);
    let seqs: Vec<u64> = replies
        .into_iter()
        .map(|reply| admission_answer(reply).unwrap().seq)
        .collect();
    assert_eq!(seqs, [1, 2]);

    let failed = worker.finish(3, Err(JournalError::Storage("disk full".to_string())));
    assert_eq!(failed.len(), 3);
    assert!(failed.iter().all(|r| matches!(r, Err(JournalError::Storage(s)) if s == "disk full")));
    assert_eq!(worker.high_water(), 2);
}

#[test]
fn a_batch_closes_when_it_is_full_or_the_window_is_over() {
    assert!(keeps_collecting(1, 0));
    assert!(keeps_collecting(MAX_BATCH - 1, 599));
    assert!(!keeps_collecting(MAX_BATCH, 0));
    assert!(!keeps_collecting(1, 600));
}

#[test]
fn answers_of_the_wrong_kind_are_errors() {
    let outcome = CommittedEntry::Outcome { seq: 4, origin_seq: 1 };
    let admission = CommittedEntry::Admission(Box::new(record(5)));
    assert_eq!(published_high_water(&vec![], 9), 9);
    assert_eq!(published_high_water(&vec![outcome], 9), 4);
    assert_eq!(published_high_water(&vec![admission], 9), 5);
    let wrong = admission_answer(Ok(CommittedEntry::Outcome { seq: 4, origin_seq: 1 }));
    assert_eq!(
        wrong.unwrap_err().message(),
        "journal encoding error: worker returned outcome for admission write"
    );
    let wrong = outcome_answer(Ok(CommittedEntry::Admission(Box::new(record(5)))));
    assert_eq!(
        wrong.unwrap_err().message(),
        "journal encoding error: worker returned admission for outcome write"
    );
    assert_eq!(outcome_answer(Ok(CommittedEntry::Outcome { seq: 4, origin_seq: 1 })).unwrap(), 4);
    assert_eq!(fan_out(0, Ok(vec![])).len(), 0);
}
