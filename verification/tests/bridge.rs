//! Bridge: admission, retries, conflicts, quota, readiness and cancels.

use orderhub::amount::Amount;
use orderhub::bridge::{
    admission_committed, begin_cancel, begin_submit, cancel_admitted, cancel_command,
    cancel_recorded, derive_client_order_id, fingerprint, notional_of, order_placed,
    outcome_committed, receipt_for_existing, release_tentative, tentative_ok, BridgeError,
    CancelStep, LimitOrderRequest, LiveOrder, OrderHubBridge, OrderSide, SubmitStep, TimeInForce,
};
use orderhub::exec_wiring::{outcome_for_event, seq_from_client_order_id, OrderEvent};
use orderhub::journal::{BusinessJournal, JournalEntry, JournalError, JournalOutcome};
use orderhub::orders::check_limit_order;
use orderhub::quota::QuotaLedger;
use orderhub::readiness::{Readiness, ReadinessGate};
use orderhub::worker::PersistenceWorker;

fn request(request_id: &str, quantity: &str) -> LimitOrderRequest {
    LimitOrderRequest {
        submitter_id: "trader-1".to_string(),
        request_id: request_id.to_string(),
        strategy_id: "ORDERHUB-S001".to_string(),
        instrument_id: "AAPL.XNAS".to_string(),
        side: OrderSide::Buy,
        quantity: quantity.to_string(),
        price: "150.00".to_string(),
        time_in_force: TimeInForce::Gtc,
        post_only: false,
        reduce_only: false,
        client_id: None,
        submit_before_ns: None,
    }
}

fn bridge() -> OrderHubBridge {
    OrderHubBridge::new("ORDER-HUB", BusinessJournal::new())
}

/// What a second placement of an order would come to.
fn placed_twice() -> Result<(), BridgeError> {
    Err(BridgeError::Cache("duplicate".to_string()))
}

fn admissions(journal: &BusinessJournal) -> usize {
    journal
        .scan_all()
        .unwrap()
        .into_iter()
        .filter(|(_, entry)| matches!(entry, JournalEntry::Admission(_)))
        .count()
}

/// The orders that were placed, by the outcomes that tell so.
fn placed_orders(journal: &BusinessJournal) -> Vec<(u64, String)> {
    journal
        .scan_all()
        .unwrap()
        .into_iter()
        .filter_map(|(_, entry)| match entry {
            JournalEntry::Outcome {
                origin_seq,
                outcome: JournalOutcome::Admitted { client_order_id },
            } => Some((origin_seq, client_order_id)),
            _ => None,
        })
        .collect()
}

#[test]
fn m0_t1_submit_reaches_execution_queue_with_attribution() {
    let mut bridge = bridge();

    let receipt = bridge.submit_limit_order(&request("req-1", "10"), 1, Ok(())).unwrap();
    assert!(!receipt.already_admitted);
    assert_eq!(receipt.journal_epoch, 1);
    assert_eq!(receipt.seq, 1);
    assert_eq!(receipt.client_order_id, "O-1-000000000001");

    // Exactly one order was placed, under its ID
    assert_eq!(placed_orders(bridge.journal()), [(1, receipt.client_order_id)]);

    // Journal holds the admission with an Admitted outcome and full attribution,
    // and no denial
    let record = bridge
        .journal()
        .find_request("trader-1", "SubmitOrder", "req-1")
        .unwrap()
        .expect("admission journaled");
    assert_eq!(record.admission.seq, 1);
    assert_eq!(record.admission.strategy_id, "ORDERHUB-S001");
    assert_eq!(record.admission.instrument_id, "AAPL.XNAS");
    assert!(matches!(
        record.outcome,
        Some(JournalOutcome::Admitted { .. })
    ));
    assert!(bridge.journal().scan_all().unwrap().into_iter().all(|(_, entry)| !matches!(
        entry,
        JournalEntry::Outcome { outcome: JournalOutcome::Denied { .. }, .. }
    )));
}

#[test]
fn m0_t3_idempotent_retry_returns_original_admission() {
    let mut bridge = bridge();

    let first = bridge.submit_limit_order(&request("req-1", "10"), 1, Ok(())).unwrap();
    let second = bridge.submit_limit_order(&request("req-1", "10"), 2, placed_twice()).unwrap();

    assert!(second.already_admitted);
    assert_eq!(first.client_order_id, second.client_order_id);
    assert_eq!(first.seq, second.seq);

    // No duplicate placement, single admission record
    assert_eq!(placed_orders(bridge.journal()), [(first.seq, first.client_order_id)]);
    assert_eq!(admissions(bridge.journal()), 1);
}

#[test]
fn m0_t4_conflicting_fingerprint_is_rejected() {
    let mut bridge = bridge();

    bridge.submit_limit_order(&request("req-1", "10"), 1, Ok(())).unwrap();

    // Same key, different quantity -> conflict, original request untouched
    let err = bridge.submit_limit_order(&request("req-1", "20"), 2, placed_twice()).unwrap_err();
    assert!(matches!(err, BridgeError::IdempotencyConflict { .. }));
    assert_eq!(placed_orders(bridge.journal()).len(), 1);

    assert_eq!(
        admissions(bridge.journal()),
        1,
        "conflict must not create a second admission"
    );
}

#[test]
fn the_bridge_runs_a_submission_through_all_its_steps() {
    let mut quota = QuotaLedger::new();
    quota.set_budget("ORDERHUB-S001", Amount::new(2000, 0));
    let mut gate = ReadinessGate::new();
    gate.set(Readiness::Ready, "");
    let mut bridge = bridge().with_quota(quota).with_gate(gate);
    let receipt = bridge.submit_limit_order(&request("req-1", "10"), 7, Ok(())).unwrap();
    assert_eq!(receipt.client_order_id, "O-1-000000000001");
    assert_eq!(bridge.journal_epoch(), 1);
    assert_eq!(bridge.journal_last_seq().unwrap(), 2);
    let found =
        bridge.journal().find_request("trader-1", "SubmitOrder", "req-1").unwrap().unwrap();
    assert_eq!(found.admission.ts_init_ns, 7);
    assert_eq!(found.admission.order_side, "BUY");
    assert_eq!(found.admission.time_in_force, "GTC");
    assert_eq!(
        found.admission.request_fingerprint,
        "LIMIT|ORDERHUB-S001|-|AAPL.XNAS|BUY|10|150.00|GTC|false|false|-"
    );
    // 2000 - 1500 leaves 500: not enough for four more at 150.00, but for three.
    let refused = bridge.submit_limit_order(&request("req-2", "4"), 8, Ok(())).unwrap_err();
    assert_eq!(
        refused.message(),
        "order construction error: order construction error: \
         strategy budget for ORDERHUB-S001: requested 600.00, available 500.00"
    );
    assert!(bridge.submit_limit_order(&request("req-3", "3"), 9, Ok(())).is_ok());
}

#[test]
fn nothing_is_admitted_unless_ready() {
    let mut gate = ReadinessGate::new();
    gate.set(Readiness::Halted, "journal lost");
    let mut bridge = bridge().with_gate(gate);
    let err = bridge.submit_limit_order(&request("req-1", "10"), 1, Ok(())).unwrap_err();
    assert_eq!(err.message(), "order hub not ready (halted): journal lost");
    assert_eq!(bridge.journal_last_seq().unwrap(), 0);
}

#[test]
fn a_refusal_tells_why_the_hub_is_not_ready() {
    let mut gate = ReadinessGate::new();
    gate.set(Readiness::Restoring, "replaying journal");
    let mut bridge = bridge().with_gate(gate);
    let err = bridge.submit_limit_order(&request("req-1", "10"), 1, Ok(())).unwrap_err();
    assert_eq!(err.message(), "order hub not ready (restoring): replaying journal");
    let BridgeError::NotReady { state, reason } = err else {
        panic!("not ready");
    };
    assert_eq!(state, "restoring");
    assert_eq!(reason, "replaying journal");
}

#[test]
fn an_order_that_cannot_be_placed_gives_its_hold_back() {
    let mut quota = QuotaLedger::new();
    quota.set_budget("ORDERHUB-S001", Amount::new(1500, 0));
    let mut bridge = bridge().with_quota(quota);
    let failure = || Err(BridgeError::Cache("duplicate".to_string()));
    let err = bridge.submit_limit_order(&request("req-1", "10"), 1, failure()).unwrap_err();
    assert_eq!(err.message(), "cache registration error: duplicate");
    assert_eq!(bridge.journal_last_seq().unwrap(), 1, "the admission stays");
    // The whole budget is there for the next request.
    assert!(bridge.submit_limit_order(&request("req-2", "10"), 2, Ok(())).is_ok());
    // A retry of the failed request finds its admission, under its derived ID.
    let retry = bridge.submit_limit_order(&request("req-1", "10"), 3, Ok(())).unwrap();
    assert!(retry.already_admitted);
    assert_eq!(retry.client_order_id, "O-1-000000000001");
}

#[test]
fn an_order_that_cannot_be_constructed_is_refused_after_its_admission() {
    let mut quota = QuotaLedger::new();
    quota.set_budget("ORDERHUB-S001", Amount::new(1500, 0));
    let mut bridge = bridge().with_quota(quota);
    let err = bridge.submit_limit_order(&request("req-1", "0.00"), 1, Ok(())).unwrap_err();
    assert_eq!(
        err.message(),
        "order construction error: invalid `Quantity` for 'quantity' not positive, was 0.00"
    );
    assert_eq!(bridge.journal_last_seq().unwrap(), 1);
    let mut dated = request("req-2", "10");
    dated.time_in_force = TimeInForce::Gtd;
    let err = bridge.submit_limit_order(&dated, 2, Ok(())).unwrap_err();
    assert_eq!(
        err.message(),
        "order construction error: `expire_time` is required for `GTD` order"
    );
    // What was held for it is free again.
    assert!(bridge.submit_limit_order(&request("req-3", "10"), 3, Ok(())).is_ok());

    let req = request("req-4", "10");
    assert!(check_limit_order("ORDER-HUB", &req, "O-1-000000000001", 4).is_ok());
    for (trader, id) in [("ORDERHUB", "O-1"), ("ORDER-", "O-1"), ("ORDER-HUB", " ")] {
        let err = check_limit_order(trader, &req, id, 4).unwrap_err();
        assert_eq!(err.message(), "order construction error: malformed order terms");
    }
    let mut unreadable = request("req-5", "ten");
    assert!(check_limit_order("ORDER-HUB", &unreadable, "O-1", 4).is_err());
    unreadable.quantity = "1_0".to_string();
    assert!(check_limit_order("ORDER-HUB", &unreadable, "O-1", 4).is_ok());
    for time_in_force in [
        TimeInForce::Gtc,
        TimeInForce::Ioc,
        TimeInForce::Fok,
        TimeInForce::Day,
        TimeInForce::AtTheOpen,
        TimeInForce::AtTheClose,
    ] {
        let mut req = request("req-6", "0.5");
        req.time_in_force = time_in_force;
        req.side = OrderSide::Sell;
        assert!(check_limit_order("ORDER-HUB", &req, "O-1", 4).is_ok());
    }
}

#[test]
fn a_failed_commit_gives_the_hold_back() {
    let mut quota = QuotaLedger::new();
    quota.set_budget("S-1", Amount::new(100, 0));
    let id = quota.try_tentative_buy("S-1", Amount::new(100, 0)).unwrap();
    let mut quota = Some(quota);
    let err = admission_committed(
        &mut quota,
        Some(id),
        Err(JournalError::Storage("disk full".to_string())),
    )
    .unwrap_err();
    assert_eq!(err.message(), "journal error: journal storage error: disk full");
    assert_eq!(quota.as_ref().unwrap().available("S-1"), Amount::new(100, 0));
    release_tentative(Some(id), &mut quota);
    assert_eq!(quota.as_ref().unwrap().available("S-1"), Amount::new(100, 0));
    assert_eq!(tentative_ok(&Some(Ok(id))), Some(id));
    assert_eq!(tentative_ok(&Some(Err(BridgeError::Order("no".to_string())))), None);
    assert_eq!(tentative_ok(&None), None);
}

#[test]
fn a_failed_outcome_commit_keeps_the_hold() {
    let mut worker = PersistenceWorker::start(BusinessJournal::new());
    let mut ledger = QuotaLedger::new();
    ledger.set_budget("ORDERHUB-S001", Amount::new(1500, 0));
    let mut quota = Some(ledger);
    let req = request("req-1", "10");
    let step = begin_submit(None, worker.journal(), &mut quota, &req, 1);
    let SubmitStep::Commit(submission) = step else {
        panic!("to be admitted");
    };
    let committed = worker.submit_admission(submission.record);
    let placement = admission_committed(&mut quota, submission.hold, committed).unwrap();
    order_placed(&mut quota, &placement, Ok(())).unwrap();
    let failed = Err(JournalError::Storage("disk full".to_string()));
    let answer = outcome_committed(&mut quota, placement, failed).unwrap();
    assert!(matches!(answer, Err(BridgeError::Journal(_))));
    assert_eq!(quota.unwrap().available("ORDERHUB-S001"), Amount::zero());
}

#[test]
fn sells_reserve_quantity() {
    let mut quota = QuotaLedger::new();
    quota.add_position("ORDERHUB-S001", "AAPL.XNAS", Amount::new(10, 0));
    let mut bridge = bridge().with_quota(quota);
    let mut sell = request("req-1", "6");
    sell.side = OrderSide::Sell;
    assert!(bridge.submit_limit_order(&sell, 1, Ok(())).is_ok());
    sell.request_id = "req-2".to_string();
    let err = bridge.submit_limit_order(&sell, 2, Ok(())).unwrap_err();
    assert_eq!(
        err.message(),
        "order construction error: order construction error: \
         sellable quantity for ORDERHUB-S001 on AAPL.XNAS: requested 6, available 4"
    );
}

#[test]
fn amounts_that_cannot_be_read_or_multiplied_are_told_apart() {
    assert_eq!(notional_of("10", "150.25").unwrap().unwrap(), Amount::new(150250, 2));
    assert!(matches!(notional_of("ten", "1"), Err(BridgeError::Order(_))));
    assert!(matches!(notional_of("1", "one"), Err(BridgeError::Order(_))));
    let most = Amount::max().to_text();
    assert!(notional_of(&most, "2").unwrap().is_none());

    let mut bridge = bridge().with_quota(QuotaLedger::new());
    let mut req = request("req-1", &most);
    assert!(bridge.checked_submit_limit_order(&req, 1, Ok(())).is_none());
    req.quantity = "ten".to_string();
    let answer = bridge.checked_submit_limit_order(&req, 1, Ok(()));
    assert!(matches!(answer, Some(Err(BridgeError::Order(_)))));
    assert_eq!(bridge.journal_last_seq().unwrap(), 0);
}

#[test]
fn order_ids_are_derived_and_lead_back() {
    assert_eq!(derive_client_order_id(1, 1), "O-1-000000000001");
    assert_eq!(derive_client_order_id(7, 123_456_789_012_345), "O-7-123456789012345");
    assert_ne!(derive_client_order_id(1, 11), derive_client_order_id(11, 1));
    for (epoch, seq) in [(0, 0), (1, 42), (u64::MAX, u64::MAX)] {
        assert_eq!(seq_from_client_order_id(&derive_client_order_id(epoch, seq)), Some(seq));
    }
    for other in ["", "O", "O-1", "X-1-2", "O-1-", "O-1-2-3", "O-1-x", "OO-1-2"] {
        assert_eq!(seq_from_client_order_id(other), None, "{other}");
    }
    assert_eq!(seq_from_client_order_id("O--5"), Some(5));
    assert_eq!(seq_from_client_order_id("O-any-+5"), Some(5));
}

#[test]
fn fingerprints_cover_every_business_field() {
    let base = fingerprint(&request("req-1", "10"));
    let mut others = Vec::new();
    let mut change = |f: &dyn Fn(&mut LimitOrderRequest)| {
        let mut req = request("req-1", "10");
        f(&mut req);
        others.push(fingerprint(&req));
    };
    change(&|r| r.strategy_id = "S-2".to_string());
    change(&|r| r.client_id = Some("GOX".to_string()));
    change(&|r| r.instrument_id = "IBM.XNAS".to_string());
    change(&|r| r.side = OrderSide::Sell);
    change(&|r| r.quantity = "11".to_string());
    change(&|r| r.price = "150.01".to_string());
    change(&|r| r.time_in_force = TimeInForce::Day);
    change(&|r| r.post_only = true);
    change(&|r| r.reduce_only = true);
    change(&|r| r.submit_before_ns = Some(5));
    for other in &others {
        assert_ne!(*other, base);
    }
    assert_eq!(others[1], "LIMIT|ORDERHUB-S001|GOX|AAPL.XNAS|BUY|10|150.00|GTC|false|false|-");
    assert_eq!(others[9], "LIMIT|ORDERHUB-S001|-|AAPL.XNAS|BUY|10|150.00|GTC|false|false|5");
    let mut retry = request("req-2", "10");
    retry.submitter_id = "trader-2".to_string();
    assert_eq!(fingerprint(&retry), base, "who asks is not part of it");
}

#[test]
fn a_retry_takes_the_order_id_that_the_journal_knows() {
    let mut bridge = bridge();
    bridge.submit_limit_order(&request("req-1", "10"), 1, Ok(())).unwrap();
    let journal = bridge.journal();
    let mut known =
        journal.find_request("trader-1", "SubmitOrder", "req-1").unwrap().unwrap();
    known.outcome =
        Some(JournalOutcome::DispatchStarted { client_order_id: "O-9".to_string() });
    let req = request("req-1", "10");
    let receipt = receipt_for_existing(known, &req, fingerprint(&req)).unwrap();
    assert_eq!(receipt.client_order_id, "O-9");
    assert!(receipt.already_admitted);
    let mut known =
        journal.find_request("trader-1", "SubmitOrder", "req-1").unwrap().unwrap();
    known.outcome = Some(JournalOutcome::Denied { reason: "no".to_string() });
    let receipt = receipt_for_existing(known, &req, fingerprint(&req)).unwrap();
    assert_eq!(receipt.client_order_id, "O-1-000000000001");
    let known = journal.find_request("trader-1", "SubmitOrder", "req-1").unwrap().unwrap();
    let conflict = receipt_for_existing(known, &req, "other".to_string()).unwrap_err();
    assert_eq!(
        conflict.message(),
        "idempotency conflict for key trader-1|SubmitOrder|req-1"
    );
}

#[test]
fn a_late_retry_returns_the_original_admission() {
    let mut journal = BusinessJournal::new();
    let req = request("req-1", "10");
    let SubmitStep::Commit(submission) = begin_submit(None, &journal, &mut None, &req, 1) else {
        panic!("to be admitted");
    };
    let first = journal.append_admission(submission.record).unwrap();
    let client_order_id = derive_client_order_id(first.journal_epoch, first.seq);
    let filled = JournalOutcome::Filled {
        client_order_id: client_order_id.clone(),
        filled_qty: "10".to_string(),
    };
    journal.append_outcome(first.seq, filled).unwrap();
    let mut bridge = OrderHubBridge::new("ORDER-HUB", journal);
    bridge.submit_limit_order(&request("req-2", "20"), 2, Ok(())).unwrap();
    let retry = bridge.submit_limit_order(&req, 3, placed_twice()).unwrap();
    assert!(retry.already_admitted);
    assert_eq!(retry.seq, first.seq);
    assert_eq!(retry.client_order_id, client_order_id);
    let changed = request("req-1", "11");
    let conflict = bridge.submit_limit_order(&changed, 4, placed_twice()).unwrap_err();
    assert!(matches!(conflict, BridgeError::IdempotencyConflict { .. }));
    assert_eq!(admissions(bridge.journal()), 2);
}

#[test]
fn cancels_are_recorded_once() {
    let mut bridge = bridge();
    bridge.submit_limit_order(&request("req-1", "10"), 1, Ok(())).unwrap();
    let first = bridge.cancel_order("trader-1", "c-1", "O-1-000000000001", 2).unwrap();
    assert!(!first.already_admitted);
    assert_eq!(first.seq, 3);
    assert_eq!(first.client_order_id, "O-1-000000000001");
    let retry = bridge.cancel_order("trader-1", "c-1", "O-1-000000000001", 3).unwrap();
    assert!(retry.already_admitted);
    assert_eq!(retry.seq, 3);
    assert_eq!(retry.client_order_id, "O-1-000000000001");
    let conflict = bridge.cancel_order("trader-1", "c-1", "O-1-000000000002", 4).unwrap_err();
    assert!(matches!(conflict, BridgeError::IdempotencyConflict { .. }));
    assert_eq!(bridge.journal_last_seq().unwrap(), 4);
    let found =
        bridge.journal().find_request("trader-1", "CancelOrder", "c-1").unwrap().unwrap();
    assert_eq!(found.admission.instrument_id, "CANCEL:O-1-000000000001");
    assert_eq!(found.admission.request_fingerprint, "CANCEL|O-1-000000000001");
    // A submission may use the same request ID.
    let mut same_id = request("c-1", "1");
    same_id.instrument_id = "IBM.XNAS".to_string();
    assert!(!bridge.submit_limit_order(&same_id, 5, Ok(())).unwrap().already_admitted);
    assert_eq!(bridge.journal_instrument_ids(), ["AAPL.XNAS", "IBM.XNAS"]);
}

#[test]
fn a_conflicting_cancel_is_told_so_whatever_its_order_id() {
    let mut bridge = bridge();
    bridge.cancel_order("trader-1", "c-1", "O-1", 1).unwrap();
    for other in ["", " ", "caf\u{e9}", "O-2"] {
        let BridgeError::IdempotencyConflict { original_fingerprint, new_fingerprint, .. } =
            bridge.cancel_order("trader-1", "c-1", other, 2).unwrap_err()
        else {
            panic!("expected a conflict");
        };
        assert_eq!(original_fingerprint, "CANCEL|O-1");
        assert_eq!(new_fingerprint, format!("CANCEL|{other}"));
    }
    assert_eq!(bridge.journal_last_seq().unwrap(), 2);
}

#[test]
fn a_cancel_is_dispatched_once_and_for_live_orders_only() {
    let live = || {
        Some(LiveOrder {
            strategy_id: "ORDERHUB-S001".to_string(),
            instrument_id: "AAPL.XNAS".to_string(),
            client_order_id: "O-1".to_string(),
        })
    };
    let mut bridge = bridge();
    let (answer, command) = bridge.cancel_live_order("trader-1", "c-1", "O-1", 7, live());
    assert!(!answer.unwrap().already_admitted);
    let command = command.expect("dispatched");
    assert_eq!(command.trader_id, "ORDER-HUB");
    assert_eq!(command.strategy_id, "ORDERHUB-S001");
    assert_eq!(command.instrument_id, "AAPL.XNAS");
    assert_eq!(command.client_order_id, "O-1");
    assert_eq!(command.ts_init_ns, 7);

    // A retry and a conflict dispatch nothing.
    let (answer, command) = bridge.cancel_live_order("trader-1", "c-1", "O-1", 8, live());
    assert!(answer.unwrap().already_admitted);
    assert!(command.is_none());
    let (answer, command) = bridge.cancel_live_order("trader-1", "c-1", "O-2", 9, live());
    assert!(matches!(answer, Err(BridgeError::IdempotencyConflict { .. })));
    assert!(command.is_none());

    // Nor does a request for an order that is not live.
    let (answer, command) = bridge.cancel_live_order("trader-1", "c-2", "O-3", 10, None);
    assert_eq!(answer.as_ref().unwrap().client_order_id, "O-3");
    assert!(command.is_none());
    assert!(cancel_command("ORDER-HUB", &answer, None, 10).is_none());
    assert!(cancel_command("ORDER-HUB", &answer, live(), 10).is_some());
}

#[test]
fn a_cancel_that_cannot_be_committed_fails() {
    let journal = BusinessJournal::new();
    let step = begin_cancel(&journal, "trader-1", "c-1", "O-1", 1);
    let CancelStep::Commit(record) = step else {
        panic!("to be admitted");
    };
    assert_eq!(record.order_side, "CANCEL");
    let failed = Err(JournalError::Storage("disk full".to_string()));
    assert!(matches!(cancel_admitted(failed, "O-1"), Err(BridgeError::Journal(_))));
    let (admission, outcome) = cancel_admitted(Ok(record), "O-1").unwrap();
    assert!(matches!(outcome, JournalOutcome::Admitted { client_order_id } if client_order_id == "O-1"));
    let failed = Err(JournalError::Storage("disk full".to_string()));
    assert!(matches!(cancel_recorded(&admission, failed, "O-1"), Err(BridgeError::Journal(_))));
}

#[test]
fn used_up_sequences_fail_a_submission() {
    let mut bridge = OrderHubBridge::new("ORDER-HUB", BusinessJournal::restore(
        None,
        Some(u64::MAX),
        vec![],
        vec![],
    ));
    let err = bridge.submit_limit_order(&request("req-1", "1"), 1, Ok(())).unwrap_err();
    assert_eq!(err.message(), "journal error: journal encoding error: sequence overflow");
    let err = bridge.cancel_order("trader-1", "c-1", "O-1", 1).unwrap_err();
    assert_eq!(err.message(), "journal error: journal encoding error: sequence overflow");
}

#[test]
fn a_worker_brings_its_own_journal() {
    let mut journal = BusinessJournal::new();
    journal
        .append_outcome(9, JournalOutcome::Canceled { client_order_id: "O-1-9".to_string() })
        .unwrap();
    let mut bridge = bridge().with_worker(PersistenceWorker::start(journal));
    let receipt = bridge.submit_limit_order(&request("req-1", "1"), 1, Ok(())).unwrap();
    assert_eq!(receipt.seq, 2);
}

#[test]
fn order_events_become_outcomes_of_their_admission() {
    let id = "O-1-000000000005".to_string();
    let filled = OrderEvent::Filled { client_order_id: id.clone(), last_qty: "3".to_string() };
    let (origin, outcome) = outcome_for_event(filled).unwrap();
    assert_eq!(origin, 5);
    assert!(matches!(outcome, JournalOutcome::Filled { filled_qty, .. } if filled_qty == "3"));
    let denied = OrderEvent::Denied { client_order_id: id.clone(), reason: "LIMIT".to_string() };
    let (_, outcome) = outcome_for_event(denied).unwrap();
    assert!(matches!(outcome, JournalOutcome::Denied { reason } if reason == "LIMIT"));
    let canceled = OrderEvent::Canceled { client_order_id: id };
    assert!(matches!(outcome_for_event(canceled), Some((5, JournalOutcome::Canceled { .. }))));
    let foreign = OrderEvent::Canceled { client_order_id: "EXTERNAL".to_string() };
    assert!(outcome_for_event(foreign).is_none());
    assert!(outcome_for_event(OrderEvent::Other).is_none());
}
