//! Service: credentials, readiness, intake, statuses, state and events.

use orderhub::auth::{SubmitterCredentials, SubmitterRegistry};
use orderhub::bridge::{
    AdmissionReceipt, BridgeError, LimitOrderRequest, OrderHubBridge, OrderSide, TimeInForce,
};
use orderhub::grpc::{
    authenticate, authorize_strategy, cancel_response, cancel_status, parse_cursor,
    show_instruments, state_response, submit_intake, submit_response, submit_status,
    take_snapshot, watch_step, CachedOrder, EventKind, InstrumentInfo, StatusCode, SubmitIntake,
    SubmitOrderRequest, WatchStep,
};
use orderhub::identifiers::{is_client_order_id, order_terms};
use orderhub::journal::{BusinessJournal, JournalOutcome, Row, StoredRow};
use orderhub::options::parse_storage_option;
use orderhub::readiness::{Readiness, ReadinessGate};

#[test]
fn m2_auth_r03_authorization_scopes() {
    let registry = SubmitterRegistry::new(vec![
        SubmitterCredentials {
            token: "token-alpha".to_string(),
            submitter_id: "trader-alpha".to_string(),
            strategies: vec!["ORDERHUB-S001".to_string()],
        },
        SubmitterCredentials {
            token: "token-beta".to_string(),
            submitter_id: "trader-beta".to_string(),
            strategies: vec!["ORDERHUB-S002".to_string(), "ORDERHUB-S003".to_string()],
        },
    ]);

    // Valid token + own strategy
    let alpha = registry
        .authenticate_header("Bearer token-alpha")
        .expect("alpha authenticated");
    assert!(SubmitterRegistry::is_authorized(alpha, "ORDERHUB-S001"));

    // Cross-strategy escalation is refused
    assert!(!SubmitterRegistry::is_authorized(alpha, "ORDERHUB-S002"));
    let beta = registry
        .authenticate_header("Bearer token-beta")
        .expect("beta authenticated");
    assert!(!SubmitterRegistry::is_authorized(beta, "ORDERHUB-S001"));

    // Unknown tokens and malformed headers fail closed
    assert!(registry.authenticate_header("Bearer nope").is_none());
    assert!(registry.authenticate_header("token-alpha").is_none());
    assert!(registry.authenticate_header("").is_none());
}

#[test]
fn m2_ready_gate_blocks_and_allows_admission() {
    let mut gate = ReadinessGate::new();
    assert_eq!(gate.get(), Readiness::Booting);
    assert!(!gate.is_admissible());

    gate.set(Readiness::Restoring, "");
    assert!(!gate.is_admissible());

    gate.set(Readiness::Ready, "");
    assert!(gate.is_admissible());

    gate.set(Readiness::Halted, "storage failure");
    assert!(!gate.is_admissible());
    assert_eq!(gate.halt_reason(), "storage failure");
}

fn credentials(token: &str, submitter_id: &str) -> SubmitterCredentials {
    SubmitterCredentials {
        token: token.to_string(),
        submitter_id: submitter_id.to_string(),
        strategies: vec!["ORDERHUB-S001".to_string()],
    }
}

#[test]
fn duplicate_tokens_are_found() {
    let repeated =
        vec![credentials("shared", "first"), credentials("own", "other"), credentials("shared", "second")];
    assert!(matches!(SubmitterRegistry::try_new(repeated), Err(id) if id == "second"));
    let registry = SubmitterRegistry::try_new(vec![credentials("a", "x"), credentials("b", "x")]);
    let registry = registry.ok().unwrap();
    assert_eq!(registry.authenticate("b").unwrap().token, "b");
    assert!(registry.authenticate("c").is_none());
}

#[test]
fn readiness_states_have_names_and_numbers() {
    let states =
        [Readiness::Booting, Readiness::Restoring, Readiness::Ready, Readiness::Halted];
    let names = ["booting", "restoring", "ready", "halted"];
    for (number, state) in states.into_iter().enumerate() {
        assert_eq!(Readiness::from_u8(number as u8), Ok(state));
        assert_eq!(state.as_str(), names[number]);
    }
    assert_eq!(Readiness::from_u8(4), Err(4));
}

#[test]
fn the_halt_reason_stays_until_the_next_halt() {
    let mut gate = ReadinessGate::new();
    assert_eq!(gate.halt_reason(), "");
    gate.set(Readiness::Halted, "one");
    gate.set(Readiness::Restoring, "replaying");
    assert_eq!(gate.halt_reason(), "one");
    gate.set(Readiness::Halted, "two");
    assert_eq!(gate.halt_reason(), "two");
}

#[test]
fn each_state_has_its_own_reason() {
    let mut gate = ReadinessGate::new();
    assert_eq!(gate.current_reason(), "");
    gate.set(Readiness::Restoring, "replaying journal");
    assert_eq!(gate.current_reason(), "replaying journal");
    gate.set(Readiness::Halted, "journal lost");
    assert_eq!(gate.current_reason(), "journal lost");
    gate.set(Readiness::Ready, "");
    assert_eq!(gate.current_reason(), "");
    assert_eq!(gate.halt_reason(), "journal lost");
}

fn submission() -> SubmitOrderRequest {
    SubmitOrderRequest {
        submitter_id: "somebody-else".to_string(),
        request_id: "req-1".to_string(),
        strategy_id: "ORDERHUB-S001".to_string(),
        instrument_id: "AAPL.GOX".to_string(),
        side: "BUY".to_string(),
        quantity: "10".to_string(),
        price: "90.00".to_string(),
        time_in_force: "DAY".to_string(),
        post_only: false,
        reduce_only: false,
        submit_before_ns: None,
    }
}

fn registry() -> SubmitterRegistry {
    SubmitterRegistry::new(vec![credentials("secret", "trader-1")])
}

fn refusal(intake: SubmitIntake) -> (StatusCode, String) {
    match intake {
        SubmitIntake::Refused(status) => (status.code, status.message),
        other => panic!("expected a refusal, got {other:?}"),
    }
}

#[test]
fn a_submission_is_read_on_behalf_of_its_submitter() {
    let intake = submit_intake(&registry(), Some("Bearer secret"), submission());
    let SubmitIntake::Request(request) = intake else {
        panic!("expected a request, got {intake:?}");
    };
    assert_eq!(request.submitter_id, "trader-1", "the credentials decide");
    assert_eq!(request.strategy_id, "ORDERHUB-S001");
    assert_eq!(request.instrument_id, "AAPL.GOX");
    assert_eq!(request.side, OrderSide::Buy);
    assert_eq!(request.quantity, "10");
    assert_eq!(request.price, "90.00");
    assert_eq!(request.time_in_force, TimeInForce::Day);
    assert!(request.client_id.is_none());
    for (name, expected) in [
        ("GTC", TimeInForce::Gtc),
        ("IOC", TimeInForce::Ioc),
        ("FOK", TimeInForce::Fok),
    ] {
        let mut req = submission();
        req.time_in_force = name.to_string();
        req.side = "SELL".to_string();
        let intake = submit_intake(&registry(), Some("Bearer secret"), req);
        let SubmitIntake::Request(request) = intake else {
            panic!("expected a request, got {intake:?}");
        };
        assert_eq!(request.time_in_force, expected);
        assert_eq!(request.side, OrderSide::Sell);
    }
}

#[test]
fn submissions_without_permission_are_refused() {
    let denied = StatusCode::PermissionDenied;
    assert_eq!(
        refusal(submit_intake(&registry(), None, submission())),
        (denied, "invalid or missing token".to_string())
    );
    assert_eq!(
        refusal(submit_intake(&registry(), Some("Bearer wrong"), submission())),
        (denied, "invalid or missing token".to_string())
    );
    let mut other = submission();
    other.strategy_id = "ORDERHUB-S002".to_string();
    assert_eq!(
        refusal(submit_intake(&registry(), Some("Bearer secret"), other)),
        (denied, "strategy not authorized for this submitter".to_string())
    );
    let registry = registry();
    assert_eq!(authenticate(&registry, Some("Bearer secret")).unwrap().submitter_id, "trader-1");
    assert!(authorize_strategy(&registry, Some("Bearer secret"), "ORDERHUB-S001").is_ok());
}

#[test]
fn submissions_that_cannot_be_read_are_refused() {
    let invalid = StatusCode::InvalidArgument;
    let mut req = submission();
    req.side = "HOLD".to_string();
    req.time_in_force = "NEVER".to_string();
    assert_eq!(
        refusal(submit_intake(&registry(), Some("Bearer secret"), req)),
        (invalid, "invalid side HOLD".to_string())
    );
    let mut req = submission();
    req.time_in_force = "GTD".to_string();
    assert_eq!(
        refusal(submit_intake(&registry(), Some("Bearer secret"), req)),
        (invalid, "invalid time_in_force GTD".to_string())
    );
    let mut req = submission();
    req.quantity = "ten".to_string();
    let intake = submit_intake(&registry(), Some("Bearer secret"), req);
    assert!(matches!(intake, SubmitIntake::Malformed));
}

#[test]
fn terms_are_put_into_the_notation_of_the_execution_chain() {
    let terms = order_terms("ORDERHUB-S001", "AAPL.GOX", "1_000", "1e2").unwrap();
    assert_eq!(terms.quantity, "1000");
    assert_eq!(terms.price, "100");
    assert_eq!(order_terms("S-1", "A.B.C", "0.50", "-1.5").unwrap().instrument_id, "A.B.C");
    assert!(order_terms("EXTERNAL", "A.B", "1", "1").is_some());
    for strategy in ["", " ", "S001", "-1", "S-", "S-\u{e9}"] {
        assert!(order_terms(strategy, "A.B", "1", "1").is_none(), "{strategy:?}");
    }
    for instrument in ["", "AAPL", ".GOX", "AAPL.", " .GOX", "A.\u{e9}", "\u{a0}.GOX"] {
        assert!(order_terms("S-1", instrument, "1", "1").is_none(), "{instrument:?}");
    }
    assert!(order_terms("S-1", "\u{e9}.GOX", "1", "1").is_some());
    assert!(order_terms("S-1", "A.B", "-1", "1").is_none());
    assert!(order_terms("S-1", "A.B", "1", "one").is_none());
}

#[test]
fn client_order_ids_are_ascii_and_more_than_white_space() {
    assert!(is_client_order_id("O-1-000000000001"));
    assert!(is_client_order_id(" x\t"));
    assert!(!is_client_order_id(""));
    assert!(!is_client_order_id(" \u{b}\u{c}\r\n\t"));
    assert!(!is_client_order_id("\u{e9}"));
    assert!(is_client_order_id("\u{1f}"));
}

#[test]
fn failures_have_their_status() {
    let conflict = BridgeError::IdempotencyConflict {
        submitter_id: "t".to_string(),
        request_id: "r".to_string(),
        original_fingerprint: "a".to_string(),
        new_fingerprint: "b".to_string(),
    };
    let text = "idempotency conflict for key t|SubmitOrder|r";
    let status = submit_status(&conflict);
    assert_eq!((status.code, status.message.as_str()), (StatusCode::AlreadyExists, text));
    let status = cancel_status(&conflict);
    assert_eq!((status.code, status.message.as_str()), (StatusCode::AlreadyExists, text));
    let order = BridgeError::Order("too much".to_string());
    let status = submit_status(&order);
    assert_eq!((status.code, status.message.as_str()), (StatusCode::InvalidArgument, "too much"));
    let status = cancel_status(&order);
    assert_eq!(
        (status.code, status.message.as_str()),
        (StatusCode::Internal, "order construction error: too much")
    );
    let status = submit_status(&BridgeError::Journal("gone".to_string()));
    assert_eq!(
        (status.code, status.message.as_str()),
        (StatusCode::Internal, "journal error: gone")
    );
}

#[test]
fn receipts_become_responses() {
    let receipt = AdmissionReceipt {
        journal_epoch: 1,
        seq: 12,
        client_order_id: "O-1-000000000012".to_string(),
        already_admitted: true,
    };
    let response = submit_response(&receipt);
    assert_eq!(response.journal_epoch, "1");
    assert_eq!(response.seq, "12");
    assert_eq!(response.client_order_id, "O-1-000000000012");
    assert!(response.already_admitted);
    assert_eq!(response.result, "ADMITTED");
    assert_eq!(response.reason, "");
    let response = cancel_response(&receipt, "O-1-000000000003");
    assert_eq!(response.client_order_id, "O-1-000000000003");
    assert_eq!(response.result, "CANCEL_INTENT_ACCEPTED");
}

fn limit_order(request_id: &str, instrument_id: &str) -> LimitOrderRequest {
    LimitOrderRequest {
        submitter_id: "trader-1".to_string(),
        request_id: request_id.to_string(),
        strategy_id: "ORDERHUB-S001".to_string(),
        instrument_id: instrument_id.to_string(),
        side: OrderSide::Buy,
        quantity: "10".to_string(),
        price: "90.00".to_string(),
        time_in_force: TimeInForce::Day,
        post_only: false,
        reduce_only: false,
        client_id: None,
        submit_before_ns: None,
    }
}

fn cached(id: &str, instrument_id: &str, closed: bool) -> CachedOrder {
    CachedOrder {
        client_order_id: id.to_string(),
        strategy_id: "ORDERHUB-S001".to_string(),
        instrument_id: instrument_id.to_string(),
        side: "BUY".to_string(),
        quantity: "10".to_string(),
        price: None,
        status: "ACCEPTED".to_string(),
        filled_quantity: "0".to_string(),
        closed,
    }
}

#[test]
fn a_snapshot_shows_open_orders_and_all_instruments() {
    let mut bridge = OrderHubBridge::new("ORDER-HUB", BusinessJournal::new());
    bridge.submit_limit_order(&limit_order("r-1", "IBM.GOX"), 1, Ok(())).unwrap();
    bridge.submit_limit_order(&limit_order("r-2", "AAPL.GOX"), 2, Ok(())).unwrap();
    bridge.cancel_order("trader-1", "c-1", "O-1-000000000001", 3).unwrap();
    let mut priced = cached("O-3", "ORCL.GOX", false);
    priced.price = Some("90.00".to_string());
    let orders =
        vec![cached("O-1", "IBM.GOX", true), cached("O-2", "AAPL.GOX", false), priced];
    let snapshot = take_snapshot(bridge.journal(), &orders);
    assert_eq!((snapshot.epoch, snapshot.cursor), (1, 6));
    let ids: Vec<&str> = snapshot.orders.iter().map(|o| o.client_order_id.as_str()).collect();
    assert_eq!(ids, ["O-2", "O-3"]);
    assert_eq!(snapshot.orders[0].price, "-");
    assert_eq!(snapshot.orders[1].price, "90.00");
    assert_eq!(snapshot.instrument_ids, ["AAPL.GOX", "IBM.GOX", "ORCL.GOX"]);

    let mut gate = ReadinessGate::new();
    gate.set(Readiness::Ready, "");
    let info = InstrumentInfo {
        instrument_id: "AAPL.GOX".to_string(),
        price_increment: "0.01".to_string(),
        size_increment: "1".to_string(),
        price_precision: 2,
    };
    let state = state_response(snapshot, &vec![info], &gate, &credentials("secret", "trader-1"));
    assert_eq!(state.journal_epoch, "1");
    assert_eq!(state.state_cursor, "6");
    assert!(state.writable);
    assert_eq!(state.readiness, "ready");
    assert_eq!(state.active_orders.len(), 2);
    assert_eq!(state.instruments.len(), 1);
    assert_eq!(state.instruments[0].price_increment, "0.01");
}

#[test]
fn instruments_are_shown_in_order_and_as_far_as_they_are_defined() {
    let defined = |id: &str, increment: &str| InstrumentInfo {
        instrument_id: id.to_string(),
        price_increment: increment.to_string(),
        size_increment: "1".to_string(),
        price_precision: 2,
    };
    let found = vec![
        defined("ORCL.GOX", "0.01"),
        defined("OTHER.GOX", "0.02"),
        defined("AAPL.GOX", "0.03"),
        defined("AAPL.GOX", "0.04"),
    ];
    let ids: Vec<String> = ["AAPL.GOX", "IBM.GOX", "ORCL.GOX"].map(str::to_string).to_vec();
    let shown: Vec<(String, String)> = show_instruments(&ids, &found)
        .into_iter()
        .map(|info| (info.instrument_id, info.price_increment))
        .collect();
    let line = |id: &str, increment: &str| (id.to_string(), increment.to_string());
    assert_eq!(shown, [line("AAPL.GOX", "0.03"), line("ORCL.GOX", "0.01")]);
    assert!(show_instruments(&vec![], &found).is_empty());
    assert!(show_instruments(&ids, &vec![]).is_empty());
}

#[test]
fn the_state_shows_a_submitter_its_own_orders() {
    let bridge = OrderHubBridge::new("ORDER-HUB", BusinessJournal::new());
    let shown_to = |strategies: &[&str]| {
        let orders: Vec<CachedOrder> = ["S-1", "S-2", "S-1", "S-3"]
            .into_iter()
            .enumerate()
            .map(|(number, strategy_id)| {
                let mut order = cached(&format!("O-{number}"), "IBM.GOX", false);
                order.strategy_id = strategy_id.to_string();
                order
            })
            .collect();
        let mut submitter = credentials("secret", "trader-1");
        submitter.strategies = strategies.iter().map(|s| s.to_string()).collect();
        let snapshot = take_snapshot(bridge.journal(), &orders);
        let state = state_response(snapshot, &vec![], &ReadinessGate::new(), &submitter);
        assert!(!state.writable);
        assert_eq!(state.readiness, "booting");
        state
            .active_orders
            .iter()
            .map(|o| (o.client_order_id.clone(), o.strategy_id.clone(), o.quantity.clone()))
            .collect::<Vec<_>>()
    };
    let view = |id: &str, strategy_id: &str| {
        (id.to_string(), strategy_id.to_string(), "10".to_string())
    };
    assert_eq!(shown_to(&["S-1"]), [view("O-0", "S-1"), view("O-2", "S-1")]);
    assert_eq!(shown_to(&["S-3", "S-2"]), [view("O-1", "S-2"), view("O-3", "S-3")]);
    assert!(shown_to(&["S-4"]).is_empty());
    assert!(shown_to(&[]).is_empty());
}

#[test]
fn a_follower_sees_every_entry_once() {
    let mut bridge = OrderHubBridge::new("ORDER-HUB", BusinessJournal::new());
    bridge.submit_limit_order(&limit_order("r-1", "IBM.GOX"), 1, Ok(())).unwrap();
    bridge.submit_limit_order(&limit_order("r-2", "IBM.GOX"), 2, Ok(())).unwrap();
    let step = watch_step(bridge.journal(), 1);
    let WatchStep::Events { events, cursor } = step else {
        panic!("expected events, got {step:?}");
    };
    assert_eq!(cursor, 4);
    let seqs: Vec<&str> = events.iter().map(|e| e.seq.as_str()).collect();
    assert_eq!(seqs, ["2", "3", "4"]);
    match &events[0].kind {
        EventKind::Outcome { origin_seq, client_order_id, outcome, reason } => {
            assert_eq!(origin_seq, "1");
            assert_eq!(client_order_id, "O-1-000000000001");
            assert_eq!(outcome, "ADMITTED");
            assert_eq!(reason, "");
        }
        other => panic!("expected an outcome, got {other:?}"),
    }
    match &events[1].kind {
        EventKind::Admission { submitter_id, request_id, request_kind, .. } => {
            assert_eq!(submitter_id, "trader-1");
            assert_eq!(request_id, "r-2");
            assert_eq!(request_kind, "SubmitOrder");
        }
        other => panic!("expected an admission, got {other:?}"),
    }
    let step = watch_step(bridge.journal(), cursor);
    let WatchStep::Progress { event, cursor } = step else {
        panic!("expected progress, got {step:?}");
    };
    assert_eq!(cursor, 4);
    assert!(matches!(event.kind, EventKind::Progress { state_cursor } if state_cursor == "4"));
}

#[test]
fn outcomes_are_named_in_events() {
    let mut journal = BusinessJournal::new();
    let id = || "O-1".to_string();
    let outcomes = [
        JournalOutcome::DispatchStarted { client_order_id: id() },
        JournalOutcome::Denied { reason: "LIMIT".to_string() },
        JournalOutcome::Filled { client_order_id: id(), filled_qty: "1".to_string() },
        JournalOutcome::Canceled { client_order_id: id() },
    ];
    for outcome in outcomes {
        journal.append_outcome(1, outcome).unwrap();
    }
    let WatchStep::Events { events, .. } = watch_step(&journal, 0) else {
        panic!("expected events");
    };
    let expected = [
        ("DISPATCH_STARTED", "O-1", ""),
        ("DENIED", "", "LIMIT"),
        ("FILLED", "O-1", ""),
        ("CANCELED", "O-1", ""),
    ];
    for (event, (name, order, cause)) in events.iter().zip(expected) {
        match &event.kind {
            EventKind::Outcome { client_order_id, outcome, reason, .. } => {
                assert_eq!((outcome.as_str(), client_order_id.as_str(), reason.as_str()), (name, order, cause));
            }
            other => panic!("expected an outcome, got {other:?}"),
        }
    }
}

#[test]
fn a_follower_of_a_damaged_journal_is_told() {
    let row = Row { seq: 1, stored: StoredRow::Unreadable("bad bytes".to_string()) };
    let journal = BusinessJournal::restore(None, Some(5), vec![row], vec![]);
    let WatchStep::Failed(status) = watch_step(&journal, 0) else {
        panic!("expected a failure");
    };
    assert_eq!(status.code, StatusCode::Internal);
    assert_eq!(status.message, "journal encoding error: bad bytes");
    // Behind the last row the follower moves on to the last sequence.
    let WatchStep::Progress { cursor, .. } = watch_step(&journal, 2) else {
        panic!("expected progress");
    };
    assert_eq!(cursor, 5);
}

#[test]
fn cursors_are_numbers() {
    assert_eq!(parse_cursor("0").unwrap(), 0);
    assert_eq!(parse_cursor("+7").unwrap(), 7);
    assert_eq!(parse_cursor("18446744073709551615").unwrap(), u64::MAX);
    for other in ["", "+", "-1", "1.0", "18446744073709551616", "seven"] {
        let status = parse_cursor(other).unwrap_err();
        assert_eq!(status.code, StatusCode::InvalidArgument);
        assert_eq!(status.message, "after must be a u64 string");
    }
}

#[test]
fn storage_options_are_split_at_the_first_equals() {
    assert_eq!(
        parse_storage_option("key=a=b").unwrap(),
        ("key".to_string(), "a=b".to_string())
    );
    assert_eq!(
        parse_storage_option("key").unwrap_err(),
        "Storage option must use key=value: key"
    );
    for incomplete in ["=value", "key=", "="] {
        assert_eq!(
            parse_storage_option(incomplete).unwrap_err(),
            format!("Storage option must use non-empty key=value: {incomplete}")
        );
    }
}
