//! Admission bridge from external submissions into the execution path.
//!
//! - Idempotency: retries with the same request key return the original
//!   admission; a different fingerprint for the same key is rejected.
//! - Durable admission: the request is committed to the business journal before
//!   the order enters the execution chain.
//! - Deterministic order IDs: `client_order_id` is a pure function of
//!   `(journal_epoch, seq)`, so restart replays never reuse an ID.
//! - Attribution: the submitting strategy identity flows through the order,
//!   command, and resulting events unchanged.
//!
//! A submission goes through four steps, each of which says what is to be done
//! next: [`begin_submit`] decides on admission, [`admission_committed`] takes up
//! the committed admission, [`order_placed`] the order that was handed to the
//! execution chain, and [`outcome_committed`] the committed outcome. Whoever
//! drives them commits and places in between. [`OrderHubBridge`] runs all four
//! over a journal of its own.

use vstd::prelude::*;

use crate::amount::{parsed_amount, product, Amount};
use crate::identifiers::is_identifier;
use crate::journal::{
    law_admission_is_found, law_append_leaves_others, law_append_only, law_outcome_is_latest,
    law_request_keys_are_unambiguous, request_key, scanned, AdmissionRecord, BusinessJournal,
    JournalEntry, JournalError, JournalOutcome, JournalView, PendingEntry, RequestRecord,
};
use crate::orders::{check_limit_order, order_refusal};
use crate::quota::{
    law_release_undoes_hold, Decision, HoldView, LedgerView, QuotaLedger, TentativeId,
};
use crate::readiness::{Readiness, ReadinessGate};
use crate::text::{
    ascending, insert_ascending, is_digit, join2, join3, join_with, joined, lemma_digits_without,
    lemma_joined_injective, lemma_numeral, lemma_padded, lemma_split_at, numeral, padded,
    padded_text, same, starts_with, strip_prefix, u64_text, views,
};
use crate::worker::PersistenceWorker;

verus! {

// ---------------------------------------------------------------------------
// Requests, receipts and errors
// ---------------------------------------------------------------------------

/// Errors from the admission bridge.
#[derive(Debug)]
pub enum BridgeError {
    /// The same request key was retried with different business parameters.
    IdempotencyConflict {
        submitter_id: String,
        request_id: String,
        original_fingerprint: String,
        new_fingerprint: String,
    },
    /// The business journal failed (storage or encoding).
    Journal(String),
    /// The order could not be constructed from the request.
    Order(String),
    /// The order could not be registered in the cache.
    Cache(String),
    /// The readiness gate is not admitting new orders.
    NotReady {
        /// Current readiness state name.
        state: String,
        /// Halt or restoring reason.
        reason: String,
    },
}

impl BridgeError {
    /// What the error says.
    pub open spec fn text(&self) -> Seq<char> {
        match *self {
            BridgeError::IdempotencyConflict {
                submitter_id,
                request_id,
                original_fingerprint,
                new_fingerprint,
            } => "idempotency conflict for key "@ + submitter_id@ + "|SubmitOrder|"@ + request_id@,
            BridgeError::Journal(err) => "journal error: "@ + err@,
            BridgeError::Order(err) => "order construction error: "@ + err@,
            BridgeError::Cache(err) => "cache registration error: "@ + err@,
            BridgeError::NotReady { state, reason } => "order hub not ready ("@ + state@ + "): "@
                + reason@,
        }
    }

    /// The error as text.
    pub fn message(&self) -> (r: String)
        ensures
            r@ == self.text(),
    {
        match self {
            BridgeError::IdempotencyConflict {
                submitter_id,
                request_id,
                original_fingerprint,
                new_fingerprint,
            } => {
                let head = join3(
                    "idempotency conflict for key ",
                    submitter_id.as_str(),
                    "|SubmitOrder|",
                );
                join2(head.as_str(), request_id.as_str())
            },
            BridgeError::Journal(err) => join2("journal error: ", err.as_str()),
            BridgeError::Order(err) => join2("order construction error: ", err.as_str()),
            BridgeError::Cache(err) => join2("cache registration error: ", err.as_str()),
            BridgeError::NotReady { state, reason } => {
                let head = join3("order hub not ready (", state.as_str(), "): ");
                join2(head.as_str(), reason.as_str())
            },
        }
    }
}

/// The journal's error as an error of the bridge.
pub open spec fn is_journal_error(error: BridgeError, cause: JournalError) -> bool {
    error matches BridgeError::Journal(text) && text@ == cause.text()
}

fn journal_failed(err: &JournalError) -> (r: BridgeError)
    ensures
        is_journal_error(r, *err),
{
    BridgeError::Journal(err.message())
}

/// The side of an order.
#[derive(Debug, Clone, Copy, PartialEq, Eq, Structural)]
pub enum OrderSide {
    Buy,
    Sell,
}

impl OrderSide {
    /// The name of the side.
    pub open spec fn name(self) -> Seq<char> {
        match self {
            OrderSide::Buy => "BUY"@,
            OrderSide::Sell => "SELL"@,
        }
    }

    /// The name of the side.
    pub fn as_str(self) -> (r: &'static str)
        ensures
            r@ == self.name(),
    {
        match self {
            OrderSide::Buy => "BUY",
            OrderSide::Sell => "SELL",
        }
    }
}

/// How long an order stays in force.
#[derive(Debug, Clone, Copy, PartialEq, Eq, Structural)]
pub enum TimeInForce {
    /// Good till cancel.
    Gtc,
    /// Immediate or cancel.
    Ioc,
    /// Fill or kill.
    Fok,
    /// Good till date.
    Gtd,
    /// Good for the trading session.
    Day,
    /// At the opening.
    AtTheOpen,
    /// At the closing.
    AtTheClose,
}

impl TimeInForce {
    /// The name of the time in force.
    pub open spec fn name(self) -> Seq<char> {
        match self {
            TimeInForce::Gtc => "GTC"@,
            TimeInForce::Ioc => "IOC"@,
            TimeInForce::Fok => "FOK"@,
            TimeInForce::Gtd => "GTD"@,
            TimeInForce::Day => "DAY"@,
            TimeInForce::AtTheOpen => "AT_THE_OPEN"@,
            TimeInForce::AtTheClose => "AT_THE_CLOSE"@,
        }
    }

    /// The name of the time in force.
    pub fn as_str(self) -> (r: &'static str)
        ensures
            r@ == self.name(),
    {
        match self {
            TimeInForce::Gtc => "GTC",
            TimeInForce::Ioc => "IOC",
            TimeInForce::Fok => "FOK",
            TimeInForce::Gtd => "GTD",
            TimeInForce::Day => "DAY",
            TimeInForce::AtTheOpen => "AT_THE_OPEN",
            TimeInForce::AtTheClose => "AT_THE_CLOSE",
        }
    }
}

/// A validated external limit-order request.
///
/// Identifiers, quantities and prices are in the notation of the execution
/// chain.
#[derive(Debug)]
pub struct LimitOrderRequest {
    /// Server-side submitter identity.
    pub submitter_id: String,
    /// Client-generated unique request ID, stable across retries.
    pub request_id: String,
    /// Strategy which owns this order (attribution, limits, PnL).
    pub strategy_id: String,
    pub instrument_id: String,
    pub side: OrderSide,
    pub quantity: String,
    pub price: String,
    pub time_in_force: TimeInForce,
    pub post_only: bool,
    pub reduce_only: bool,
    /// Optional routing client for the execution engine.
    pub client_id: Option<String>,
    /// Business deadline for first dispatch (ns since epoch), if any.
    pub submit_before_ns: Option<u64>,
}

/// The result of admitting a request through the bridge.
#[derive(Debug)]
pub struct AdmissionReceipt {
    /// Journal epoch of the admission.
    pub journal_epoch: u64,
    /// Committed journal sequence of the admission.
    pub seq: u64,
    /// The order ID assigned at first admission.
    pub client_order_id: String,
    /// `true` when this call was an idempotent retry of an existing request.
    pub already_admitted: bool,
}

/// What a receipt says.
#[verifier::ext_equal]
pub struct ReceiptView {
    pub journal_epoch: u64,
    pub seq: u64,
    pub client_order_id: Seq<char>,
    pub already_admitted: bool,
}

impl View for AdmissionReceipt {
    type V = ReceiptView;

    open spec fn view(&self) -> ReceiptView {
        ReceiptView {
            journal_epoch: self.journal_epoch,
            seq: self.seq,
            client_order_id: self.client_order_id@,
            already_admitted: self.already_admitted,
        }
    }
}

// ---------------------------------------------------------------------------
// Order IDs and fingerprints
// ---------------------------------------------------------------------------

/// The order ID of `(journal_epoch, seq)`.
pub open spec fn order_id(journal_epoch: u64, seq: u64) -> Seq<char> {
    "O-"@ + numeral(journal_epoch as nat) + "-"@ + padded(seq as nat, 12)
}

/// Derives the order ID deterministically from `(journal_epoch, seq)`.
///
/// The epoch scoping prevents ID reuse after restoring an older backup.
pub fn derive_client_order_id(journal_epoch: u64, seq: u64) -> (r: String)
    ensures
        r@ == order_id(journal_epoch, seq),
{
    let head = join3("O-", u64_text(journal_epoch).as_str(), "-");
    join2(head.as_str(), padded_text(seq, 12).as_str())
}

/// A truth value as text.
pub open spec fn bool_name(b: bool) -> Seq<char> {
    if b {
        "true"@
    } else {
        "false"@
    }
}

fn bool_text(b: bool) -> (r: String)
    ensures
        r@ == bool_name(b),
{
    if b {
        "true".to_owned()
    } else {
        "false".to_owned()
    }
}

/// The business fields that a fingerprint covers, as texts.
pub open spec fn fingerprint_parts(req: LimitOrderRequest) -> Seq<Seq<char>> {
    seq![
        "LIMIT"@,
        req.strategy_id@,
        match req.client_id {
            Some(id) => id@,
            None => "-"@,
        },
        req.instrument_id@,
        req.side.name(),
        req.quantity@,
        req.price@,
        req.time_in_force.name(),
        bool_name(req.post_only),
        bool_name(req.reduce_only),
        match req.submit_before_ns {
            Some(ns) => numeral(ns as nat),
            None => "-"@,
        },
    ]
}

/// The fingerprint of a request.
pub open spec fn fingerprint_text(req: LimitOrderRequest) -> Seq<char> {
    joined(fingerprint_parts(req), '|')
}

/// Canonical digest of the normalized business fields.
///
/// Covers strategy, routing, instrument, side, quantity, price, order type, time
/// in force, the trading instruction flags, and `submit_before`. Transient
/// fields (tokens, transport deadlines) are excluded.
pub fn fingerprint(req: &LimitOrderRequest) -> (r: String)
    ensures
        r@ == fingerprint_text(*req),
{
    let client_id = match &req.client_id {
        Some(id) => id.clone(),
        None => "-".to_owned(),
    };
    let submit_before = match req.submit_before_ns {
        Some(ns) => u64_text(ns),
        None => "-".to_owned(),
    };
    let mut parts: Vec<String> = Vec::new();
    parts.push("LIMIT".to_owned());
    parts.push(req.strategy_id.clone());
    parts.push(client_id);
    parts.push(req.instrument_id.clone());
    parts.push(req.side.as_str().to_owned());
    parts.push(req.quantity.clone());
    parts.push(req.price.clone());
    parts.push(req.time_in_force.as_str().to_owned());
    parts.push(bool_text(req.post_only));
    parts.push(bool_text(req.reduce_only));
    parts.push(submit_before);
    assert(views(parts@) =~= fingerprint_parts(*req));
    join_with(&parts, '|')
}

/// The fingerprint of a cancel request.
pub open spec fn cancel_fingerprint(client_order_id: Seq<char>) -> Seq<char> {
    "CANCEL|"@ + client_order_id
}

// ---------------------------------------------------------------------------
// Retries
// ---------------------------------------------------------------------------

/// The order ID that the journal knows for an admitted request.
pub open spec fn known_order_id(record: RequestRecord) -> Seq<char> {
    match record.outcome {
        Some(JournalOutcome::Admitted { client_order_id }) => client_order_id@,
        Some(JournalOutcome::DispatchStarted { client_order_id }) => client_order_id@,
        _ => order_id(record.admission.journal_epoch, record.admission.seq),
    }
}

/// An error says that a request was retried with other parameters.
pub open spec fn is_conflict(
    error: BridgeError,
    submitter: Seq<char>,
    request: Seq<char>,
    original: Seq<char>,
    fresh: Seq<char>,
) -> bool {
    error matches BridgeError::IdempotencyConflict {
        submitter_id,
        request_id,
        original_fingerprint,
        new_fingerprint,
    } && submitter_id@ == submitter && request_id@ == request && original_fingerprint@ == original
        && new_fingerprint@ == fresh
}

/// The answer to a retry: the original admission, or a conflict if the
/// fingerprint is another one.
pub open spec fn retry_answered(
    record: RequestRecord,
    req: LimitOrderRequest,
    fingerprint: Seq<char>,
    answer: Result<AdmissionReceipt, BridgeError>,
) -> bool {
    match answer {
        Ok(receipt) => record.admission.request_fingerprint@ == fingerprint && receipt@ == (
        ReceiptView {
            journal_epoch: record.admission.journal_epoch,
            seq: record.admission.seq,
            client_order_id: known_order_id(record),
            already_admitted: true,
        }),
        Err(error) => record.admission.request_fingerprint@ != fingerprint && is_conflict(
            error,
            req.submitter_id@,
            req.request_id@,
            record.admission.request_fingerprint@,
            fingerprint,
        ),
    }
}

/// Answers a retry of a request that the journal knows.
pub fn receipt_for_existing(
    record: RequestRecord,
    req: &LimitOrderRequest,
    fingerprint: String,
) -> (r: Result<AdmissionReceipt, BridgeError>)
    ensures
        retry_answered(record, *req, fingerprint@, r),
{
    if !same(record.admission.request_fingerprint.as_str(), fingerprint.as_str()) {
        return Err(
            BridgeError::IdempotencyConflict {
                submitter_id: req.submitter_id.clone(),
                request_id: req.request_id.clone(),
                original_fingerprint: record.admission.request_fingerprint,
                new_fingerprint: fingerprint,
            },
        );
    }
    let client_order_id = match &record.outcome {
        Some(JournalOutcome::Admitted { client_order_id }) => client_order_id.clone(),
        Some(JournalOutcome::DispatchStarted { client_order_id }) => client_order_id.clone(),
        _ => derive_client_order_id(record.admission.journal_epoch, record.admission.seq),
    };
    Ok(
        AdmissionReceipt {
            journal_epoch: record.admission.journal_epoch,
            seq: record.admission.seq,
            client_order_id,
            already_admitted: true,
        },
    )
}

// ---------------------------------------------------------------------------
// Submission
// ---------------------------------------------------------------------------

/// What the quota ledger answers to a request.
pub enum HoldAnswer {
    /// Nothing is held; this is why.
    Refused(Seq<char>),
    /// An amount on the way is out of range.
    OutOfRange,
    /// This is held.
    Held(HoldView),
}

/// What the ledger answers to a request: a buy asks for its notional (quantity
/// times price), a sell for its quantity out of the strategy's holdings.
pub open spec fn hold_for(ledger: LedgerView, req: LimitOrderRequest) -> HoldAnswer {
    match parsed_amount(req.quantity@) {
        Err(reason) => HoldAnswer::Refused(reason),
        Ok(quantity) => match req.side {
            OrderSide::Buy => match parsed_amount(req.price@) {
                Err(reason) => HoldAnswer::Refused(reason),
                Ok(price) => match product(quantity, price) {
                    None => HoldAnswer::OutOfRange,
                    Some(notional) => match ledger.buy_decision(req.strategy_id@, notional) {
                        None => HoldAnswer::OutOfRange,
                        Some(Decision::Held) => HoldAnswer::Held(
                            HoldView::BuyNotional { strategy_id: req.strategy_id@, notional },
                        ),
                        Some(decision) => HoldAnswer::Refused(
                            decision.refusal(
                                req.strategy_id@,
                                req.instrument_id@,
                                notional,
                            )->Some_0,
                        ),
                    },
                },
            },
            OrderSide::Sell => match ledger.sell_decision(
                req.strategy_id@,
                req.instrument_id@,
                quantity,
            ) {
                None => HoldAnswer::OutOfRange,
                Some(Decision::Held) => HoldAnswer::Held(
                    HoldView::SellQuantity {
                        strategy_id: req.strategy_id@,
                        instrument_id: req.instrument_id@,
                        quantity,
                    },
                ),
                Some(decision) => HoldAnswer::Refused(
                    decision.refusal(req.strategy_id@, req.instrument_id@, quantity)->Some_0,
                ),
            },
        },
    }
}

/// Decimal notional of a limit order (quantity x price); `None` if the product
/// is out of range.
pub fn notional_of(quantity: &str, price: &str) -> (r: Result<Option<Amount>, BridgeError>)
    ensures
        match (parsed_amount(quantity@), parsed_amount(price@)) {
            (Err(reason), _) => r matches Err(BridgeError::Order(text)) && text@ == reason,
            (Ok(q), Err(reason)) => r matches Err(BridgeError::Order(text)) && text@ == reason,
            (Ok(q), Ok(p)) => r == Ok::<Option<Amount>, BridgeError>(product(q, p)),
        },
{
    let q = match Amount::parse(quantity) {
        Ok(amount) => amount,
        Err(reason) => {
            return Err(BridgeError::Order(reason));
        },
    };
    match Amount::parse(price) {
        Ok(p) => Ok(q.checked_mul(p)),
        Err(reason) => Err(BridgeError::Order(reason)),
    }
}

/// What is held for an answer of the quota ledger, if anything.
pub fn tentative_ok(tentative: &Option<Result<TentativeId, BridgeError>>) -> (r: Option<
    TentativeId,
>)
    ensures
        r == (match *tentative {
            Some(Ok(id)) => Some(id),
            _ => None,
        }),
{
    match tentative {
        Some(Ok(id)) => Some(*id),
        _ => None,
    }
}

/// The ledger behind a quota, if one is installed.
pub open spec fn ledger_of(quota: Option<QuotaLedger>) -> Option<LedgerView> {
    match quota {
        Some(ledger) => Some(ledger@),
        None => None,
    }
}

/// The number of a token, if there is one.
pub open spec fn token_of(hold: Option<TentativeId>) -> Option<u64> {
    match hold {
        Some(id) => Some(id.value()),
        None => None,
    }
}

/// A quota after a hold was given up.
pub open spec fn released(quota: Option<LedgerView>, token: Option<u64>) -> Option<LedgerView> {
    match (quota, token) {
        (Some(ledger), Some(id)) => if ledger.holds(id) {
            Some(ledger.without_hold(id))
        } else {
            Some(ledger)
        },
        _ => quota,
    }
}

/// Gives up a hold, if there is one.
pub fn release_tentative(id: Option<TentativeId>, quota: &mut Option<QuotaLedger>)
    ensures
        ledger_of(*final(quota)) == released(ledger_of(*old(quota)), token_of(id)),
{
    if let Some(id) = id {
        if let Some(ledger) = quota {
            let _ = ledger.release_tentative(id);
        }
    }
}

/// Asks the ledger for a hold; `None`, with nothing held, if an amount on the
/// way is out of range.
fn reserve(ledger: &mut QuotaLedger, req: &LimitOrderRequest) -> (r: Option<
    Result<TentativeId, BridgeError>,
>)
    ensures
        match hold_for(old(ledger)@, *req) {
            HoldAnswer::Refused(reason) => r matches Some(Err(BridgeError::Order(text))) && text@
                == reason && final(ledger)@ == old(ledger)@,
            HoldAnswer::OutOfRange => r is None && final(ledger)@ == old(ledger)@,
            HoldAnswer::Held(hold) => r matches Some(Ok(id)) && id.value() == old(ledger)@.issued
                + 1 && final(ledger)@ == old(ledger)@.with_hold(hold),
        },
{
    let answer = match req.side {
        OrderSide::Buy => match notional_of(req.quantity.as_str(), req.price.as_str()) {
            Ok(Some(notional)) => ledger.checked_try_tentative_buy(
                req.strategy_id.as_str(),
                notional,
            ),
            Ok(None) => None,
            Err(error) => {
                return Some(Err(error));
            },
        },
        OrderSide::Sell => match Amount::parse(req.quantity.as_str()) {
            Ok(quantity) => ledger.checked_try_tentative_sell(
                req.strategy_id.as_str(),
                req.instrument_id.as_str(),
                quantity,
            ),
            Err(reason) => {
                return Some(Err(BridgeError::Order(reason)));
            },
        },
    };
    match answer {
        Some(Ok(id)) => Some(Ok(id)),
        Some(Err(error)) => Some(Err(BridgeError::Order(error.message()))),
        None => None,
    }
}

/// What is decided on a submission.
pub enum Opening {
    /// The readiness gate is closed.
    NotReady,
    /// The journal cannot be read; this is why.
    Unreadable(Seq<char>),
    /// The request is known.
    Known(RequestRecord),
    /// The quota ledger refuses; this is why.
    Refused(Seq<char>),
    /// An amount on the way is out of range.
    OutOfRange,
    /// The request is to be admitted, with this held for it.
    Admit(Option<HoldView>),
}

/// The idempotency key of a submission.
pub open spec fn submit_key(req: LimitOrderRequest) -> Seq<char> {
    request_key(req.submitter_id@, "SubmitOrder"@, req.request_id@)
}

/// What is decided on a submission: the readiness gate is asked first, then the
/// journal, then the quota ledger.
pub open spec fn opening(
    gate: Option<Readiness>,
    journal: JournalView,
    quota: Option<LedgerView>,
    req: LimitOrderRequest,
) -> Opening {
    if gate is Some && gate->0 != Readiness::Ready {
        Opening::NotReady
    } else {
        match journal.found(submit_key(req)) {
            Err(reason) => Opening::Unreadable(reason),
            Ok(Some(record)) => Opening::Known(record),
            Ok(None) => match quota {
                None => Opening::Admit(None),
                Some(ledger) => match hold_for(ledger, req) {
                    HoldAnswer::Refused(reason) => Opening::Refused(reason),
                    HoldAnswer::OutOfRange => Opening::OutOfRange,
                    HoldAnswer::Held(hold) => Opening::Admit(Some(hold)),
                },
            },
        }
    }
}

/// A record holds what a submission asks for; the journal assigns its epoch and
/// sequence.
pub open spec fn is_submission(record: AdmissionRecord, req: LimitOrderRequest, ts: u64) -> bool {
    &&& record.submitter_id@ == req.submitter_id@
    &&& record.request_id@ == req.request_id@
    &&& record.request_kind@ == "SubmitOrder"@
    &&& record.request_fingerprint@ == fingerprint_text(req)
    &&& record.strategy_id@ == req.strategy_id@
    &&& record.instrument_id@ == req.instrument_id@
    &&& record.order_side@ == req.side.name()
    &&& record.quantity@ == req.quantity@
    &&& record.price@ == req.price@
    &&& record.time_in_force@ == req.time_in_force.name()
    &&& record.post_only == req.post_only
    &&& record.reduce_only == req.reduce_only
    &&& record.submit_before_ns == req.submit_before_ns
    &&& record.ts_init_ns == ts
}

/// An admission to commit, and what is held for it meanwhile.
#[derive(Debug)]
pub struct Submission {
    pub record: AdmissionRecord,
    pub hold: Option<TentativeId>,
}

/// What to do about a submission.
#[derive(Debug)]
pub enum SubmitStep {
    /// Nothing more; this is the answer.
    Answered(Result<AdmissionReceipt, BridgeError>),
    /// Nothing more; an amount on the way is out of range, and there is no
    /// answer.
    OutOfRange,
    /// Commit the admission, and go on with [`admission_committed`].
    Commit(Submission),
}

/// The step that follows a decision, and what became of the quota.
pub open spec fn opened(
    decision: Opening,
    gate: Option<&ReadinessGate>,
    req: LimitOrderRequest,
    ts: u64,
    before: Option<LedgerView>,
    after: Option<LedgerView>,
    step: SubmitStep,
) -> bool {
    match (decision, step) {
        (Opening::NotReady, SubmitStep::Answered(Err(BridgeError::NotReady { state, reason }))) =>
            state@ == gate->0.state().name() && reason@ == gate->0.reason() && after == before,
        (Opening::Unreadable(reason), SubmitStep::Answered(Err(BridgeError::Journal(text)))) =>
            text@ == "journal encoding error: "@ + reason && after == before,
        (Opening::Known(record), SubmitStep::Answered(answer)) => retry_answered(
            record,
            req,
            fingerprint_text(req),
            answer,
        ) && after == before,
        (Opening::Refused(reason), SubmitStep::Answered(Err(BridgeError::Order(text)))) => text@
            == "order construction error: "@ + reason && after == before,
        (Opening::OutOfRange, SubmitStep::OutOfRange) => after == before,
        (Opening::Admit(None), SubmitStep::Commit(submission)) => is_submission(
            submission.record,
            req,
            ts,
        ) && submission.hold is None && after == before,
        (Opening::Admit(Some(hold)), SubmitStep::Commit(submission)) => is_submission(
            submission.record,
            req,
            ts,
        ) && before is Some && submission.hold is Some && submission.hold->0.value()
            == before->0.issued + 1 && after == Some(before->0.with_hold(hold)),
        _ => false,
    }
}

/// The state of a gate, if one is installed.
pub open spec fn gate_state(gate: Option<&ReadinessGate>) -> Option<Readiness> {
    match gate {
        Some(gate) => Some(gate.state()),
        None => None,
    }
}

fn submission_record(req: &LimitOrderRequest, fingerprint: String, ts_init_ns: u64) -> (r:
    AdmissionRecord)
    requires
        fingerprint@ == fingerprint_text(*req),
    ensures
        is_submission(r, *req, ts_init_ns),
{
    AdmissionRecord {
        journal_epoch: 0,
        seq: 0,
        submitter_id: req.submitter_id.clone(),
        request_id: req.request_id.clone(),
        request_kind: "SubmitOrder".to_owned(),
        request_fingerprint: fingerprint,
        strategy_id: req.strategy_id.clone(),
        instrument_id: req.instrument_id.clone(),
        order_side: req.side.as_str().to_owned(),
        quantity: req.quantity.clone(),
        price: req.price.clone(),
        time_in_force: req.time_in_force.as_str().to_owned(),
        post_only: req.post_only,
        reduce_only: req.reduce_only,
        submit_before_ns: req.submit_before_ns,
        ts_init_ns,
    }
}

/// Decides on a submission.
///
/// 1. Readiness: nothing is admitted unless the hub is READY, if a gate is installed.
/// 2. Idempotency check against the journal's request index.
/// 3. Quota: check and tentative hold. Buys reserve notional against strategy and
///    account budgets; sells reserve sellable quantity against holdings.
pub fn begin_submit(
    gate: Option<&ReadinessGate>,
    journal: &BusinessJournal,
    quota: &mut Option<QuotaLedger>,
    req: &LimitOrderRequest,
    ts_init_ns: u64,
) -> (r: SubmitStep)
    ensures
        opened(
            opening(gate_state(gate), journal@, ledger_of(*old(quota)), *req),
            gate,
            *req,
            ts_init_ns,
            ledger_of(*old(quota)),
            ledger_of(*final(quota)),
            r,
        ),
{
    if let Some(gate) = gate {
        if !gate.is_admissible() {
            let state = gate.get();
            return SubmitStep::Answered(
                Err(
                    BridgeError::NotReady {
                        state: state.as_str().to_owned(),
                        reason: gate.current_reason(),
                    },
                ),
            );
        }
    }
    let digest = fingerprint(req);
    match journal.find_request(
        req.submitter_id.as_str(),
        "SubmitOrder",
        req.request_id.as_str(),
    ) {
        Ok(Some(record)) => {
            return SubmitStep::Answered(receipt_for_existing(record, req, digest));
        },
        Ok(None) => {},
        Err(error) => {
            return SubmitStep::Answered(Err(journal_failed(&error)));
        },
    }
    let mut tentative: Option<Result<TentativeId, BridgeError>> = None;
    if let Some(ledger) = quota {
        match reserve(ledger, req) {
            Some(answer) => {
                tentative = Some(answer);
            },
            None => {
                return SubmitStep::OutOfRange;
            },
        }
    }
    if let Some(Err(error)) = &tentative {
        return SubmitStep::Answered(Err(BridgeError::Order(error.message())));
    }
    let record = submission_record(req, digest, ts_init_ns);
    SubmitStep::Commit(Submission { record, hold: tentative_ok(&tentative) })
}

/// A committed admission whose order is to be placed.
#[derive(Debug)]
pub struct Placement {
    pub admission: AdmissionRecord,
    pub client_order_id: String,
    pub hold: Option<TentativeId>,
}

/// Takes up the committed admission: its order is to be constructed (see
/// [`check_limit_order`]), registered and dispatched under the derived order ID.
/// Where the commit failed, what was held is given up.
pub fn admission_committed(
    quota: &mut Option<QuotaLedger>,
    hold: Option<TentativeId>,
    committed: Result<AdmissionRecord, JournalError>,
) -> (r: Result<Placement, BridgeError>)
    ensures
        match committed {
            Ok(admission) => r matches Ok(placement) && placement.admission == admission
                && placement.client_order_id@ == order_id(admission.journal_epoch, admission.seq)
                && placement.hold == hold && *final(quota) == *old(quota),
            Err(cause) => r matches Err(error) && is_journal_error(error, cause) && ledger_of(
                *final(quota),
            ) == released(ledger_of(*old(quota)), token_of(hold)),
        },
{
    match committed {
        Ok(admission) => {
            let client_order_id = derive_client_order_id(admission.journal_epoch, admission.seq);
            Ok(Placement { admission, client_order_id, hold })
        },
        Err(error) => {
            release_tentative(hold, quota);
            Err(journal_failed(&error))
        },
    }
}

/// Takes up the placed order: the outcome to commit for its admission. Where the
/// order could not be constructed or registered, what was held is given up.
pub fn order_placed(
    quota: &mut Option<QuotaLedger>,
    placement: &Placement,
    placed: Result<(), BridgeError>,
) -> (r: Result<JournalOutcome, BridgeError>)
    ensures
        match placed {
            Ok(()) => r matches Ok(JournalOutcome::Admitted { client_order_id }) && client_order_id
                == placement.client_order_id && *final(quota) == *old(quota),
            Err(error) => r == Err::<JournalOutcome, BridgeError>(error) && ledger_of(*final(quota))
                == released(ledger_of(*old(quota)), token_of(placement.hold)),
        },
{
    match placed {
        Ok(()) => Ok(
            JournalOutcome::Admitted { client_order_id: placement.client_order_id.clone() },
        ),
        Err(error) => {
            release_tentative(placement.hold, quota);
            Err(error)
        },
    }
}

/// A quota after a hold was confirmed; `None` if the confirmed amount is out of
/// range.
pub open spec fn confirmed(quota: Option<LedgerView>, token: Option<u64>) -> Option<
    Option<LedgerView>,
> {
    match (quota, token) {
        (Some(ledger), Some(id)) => if ledger.holds(id) {
            match ledger.with_commit(id) {
                Some(after) => Some(Some(after)),
                None => None,
            }
        } else {
            Some(Some(ledger))
        },
        _ => Some(quota),
    }
}

/// Takes up the committed outcome: what was held is confirmed, and the receipt is
/// due. Where the commit failed, what is held stays held. `None`, with the quota
/// unchanged, if the confirmed amount is out of range.
pub fn outcome_committed(
    quota: &mut Option<QuotaLedger>,
    placement: Placement,
    recorded: Result<u64, JournalError>,
) -> (r: Option<Result<AdmissionReceipt, BridgeError>>)
    ensures
        match (recorded, confirmed(ledger_of(*old(quota)), token_of(placement.hold))) {
            (Err(cause), _) => r matches Some(Err(error)) && is_journal_error(error, cause)
                && *final(quota) == *old(quota),
            (Ok(seq), Some(after)) => r matches Some(Ok(receipt)) && receipt@ == (ReceiptView {
                journal_epoch: placement.admission.journal_epoch,
                seq: placement.admission.seq,
                client_order_id: placement.client_order_id@,
                already_admitted: false,
            }) && ledger_of(*final(quota)) == after,
            (Ok(seq), None) => r is None && ledger_of(*final(quota)) == ledger_of(*old(quota)),
        },
{
    if let Err(error) = &recorded {
        return Some(Err(journal_failed(error)));
    }
    if let Some(id) = placement.hold {
        if let Some(ledger) = quota {
            if ledger.checked_commit(id).is_none() {
                return None;
            }
        }
    }
    Some(
        Ok(
            AdmissionReceipt {
                journal_epoch: placement.admission.journal_epoch,
                seq: placement.admission.seq,
                client_order_id: placement.client_order_id,
                already_admitted: false,
            },
        ),
    )
}

// ---------------------------------------------------------------------------
// Cancellation
// ---------------------------------------------------------------------------

/// The idempotency key of a cancel request.
pub open spec fn cancel_key(submitter_id: Seq<char>, request_id: Seq<char>) -> Seq<char> {
    request_key(submitter_id, "CancelOrder"@, request_id)
}

/// The text behind a leading `CANCEL:`, or all of it.
pub open spec fn without_cancel_mark(text: Seq<char>) -> Seq<char> {
    if "CANCEL:"@.is_prefix_of(text) {
        text.skip("CANCEL:"@.len() as int)
    } else {
        text
    }
}

/// A record holds what a cancel request asks for.
pub open spec fn is_cancellation(
    record: AdmissionRecord,
    submitter_id: Seq<char>,
    request_id: Seq<char>,
    client_order_id: Seq<char>,
    ts: u64,
) -> bool {
    &&& record.submitter_id@ == submitter_id
    &&& record.request_id@ == request_id
    &&& record.request_kind@ == "CancelOrder"@
    &&& record.request_fingerprint@ == cancel_fingerprint(client_order_id)
    &&& record.strategy_id@ == "-"@
    &&& record.instrument_id@ == "CANCEL:"@ + client_order_id
    &&& record.order_side@ == "CANCEL"@
    &&& record.quantity@ == "-"@
    &&& record.price@ == "-"@
    &&& record.time_in_force@ == "-"@
    &&& !record.post_only
    &&& !record.reduce_only
    &&& record.submit_before_ns is None
    &&& record.ts_init_ns == ts
}

/// What to do about a cancel request.
#[derive(Debug)]
pub enum CancelStep {
    /// Nothing more; this is the answer.
    Answered(Result<AdmissionReceipt, BridgeError>),
    /// Commit this admission, and go on with [`cancel_admitted`].
    Commit(AdmissionRecord),
}

/// The answer to a retry of a cancel request.
pub open spec fn cancel_retry_answered(
    record: RequestRecord,
    submitter_id: Seq<char>,
    request_id: Seq<char>,
    client_order_id: Seq<char>,
    answer: Result<AdmissionReceipt, BridgeError>,
) -> bool {
    match answer {
        Ok(receipt) => record.admission.request_fingerprint@ == cancel_fingerprint(client_order_id)
            && receipt@ == (ReceiptView {
            journal_epoch: record.admission.journal_epoch,
            seq: record.admission.seq,
            client_order_id: without_cancel_mark(record.admission.instrument_id@),
            already_admitted: true,
        }),
        Err(error) => record.admission.request_fingerprint@ != cancel_fingerprint(client_order_id)
            && is_conflict(
            error,
            submitter_id,
            request_id,
            record.admission.request_fingerprint@,
            cancel_fingerprint(client_order_id),
        ),
    }
}

/// Decides on a cancel request: a known one is answered, a new one is to be
/// admitted.
///
/// What is persisted is the cancellation *request* only: acceptance means the
/// intent is durable, not that the order is cancelled (fills may still arrive).
pub fn begin_cancel(
    journal: &BusinessJournal,
    submitter_id: &str,
    request_id: &str,
    client_order_id: &str,
    ts_init_ns: u64,
) -> (r: CancelStep)
    ensures
        match (journal@.found(cancel_key(submitter_id@, request_id@)), r) {
            (Err(reason), CancelStep::Answered(Err(BridgeError::Journal(text)))) => text@
                == "journal encoding error: "@ + reason,
            (Ok(Some(record)), CancelStep::Answered(answer)) => cancel_retry_answered(
                record,
                submitter_id@,
                request_id@,
                client_order_id@,
                answer,
            ),
            (Ok(None), CancelStep::Commit(record)) => is_cancellation(
                record,
                submitter_id@,
                request_id@,
                client_order_id@,
                ts_init_ns,
            ),
            _ => false,
        },
{
    let digest = join2("CANCEL|", client_order_id);
    match journal.find_request(submitter_id, "CancelOrder", request_id) {
        Ok(Some(record)) => {
            if !same(record.admission.request_fingerprint.as_str(), digest.as_str()) {
                return CancelStep::Answered(
                    Err(
                        BridgeError::IdempotencyConflict {
                            submitter_id: submitter_id.to_owned(),
                            request_id: request_id.to_owned(),
                            original_fingerprint: record.admission.request_fingerprint,
                            new_fingerprint: digest,
                        },
                    ),
                );
            }
            let receipt_id = match strip_prefix(record.admission.instrument_id.as_str(), "CANCEL:") {
                Some(rest) => {
                    assert(rest@ =~= record.admission.instrument_id@.skip(
                        "CANCEL:"@.len() as int,
                    ));
                    assert(record.admission.instrument_id@.take("CANCEL:"@.len() as int)
                        =~= "CANCEL:"@);
                    rest
                },
                None => record.admission.instrument_id.clone(),
            };
            CancelStep::Answered(
                Ok(
                    AdmissionReceipt {
                        journal_epoch: record.admission.journal_epoch,
                        seq: record.admission.seq,
                        client_order_id: receipt_id,
                        already_admitted: true,
                    },
                ),
            )
        },
        Ok(None) => CancelStep::Commit(
            AdmissionRecord {
                journal_epoch: 0,
                seq: 0,
                submitter_id: submitter_id.to_owned(),
                request_id: request_id.to_owned(),
                request_kind: "CancelOrder".to_owned(),
                request_fingerprint: digest,
                strategy_id: "-".to_owned(),
                instrument_id: join2("CANCEL:", client_order_id),
                order_side: "CANCEL".to_owned(),
                quantity: "-".to_owned(),
                price: "-".to_owned(),
                time_in_force: "-".to_owned(),
                post_only: false,
                reduce_only: false,
                submit_before_ns: None,
                ts_init_ns,
            },
        ),
        Err(error) => CancelStep::Answered(Err(journal_failed(&error))),
    }
}

/// Takes up the committed cancel admission: the outcome to commit for it.
pub fn cancel_admitted(
    committed: Result<AdmissionRecord, JournalError>,
    client_order_id: &str,
) -> (r: Result<(AdmissionRecord, JournalOutcome), BridgeError>)
    ensures
        match committed {
            Ok(admission) => r matches Ok(next) && next.0 == admission && (
            next.1 matches JournalOutcome::Admitted { client_order_id: id } && id@
                == client_order_id@),
            Err(cause) => r matches Err(error) && is_journal_error(error, cause),
        },
{
    match committed {
        Ok(admission) => Ok(
            (admission, JournalOutcome::Admitted { client_order_id: client_order_id.to_owned() }),
        ),
        Err(error) => Err(journal_failed(&error)),
    }
}

/// Takes up the committed cancel outcome: the receipt is due.
pub fn cancel_recorded(
    admission: &AdmissionRecord,
    recorded: Result<u64, JournalError>,
    client_order_id: &str,
) -> (r: Result<AdmissionReceipt, BridgeError>)
    ensures
        match recorded {
            Ok(seq) => r matches Ok(receipt) && receipt@ == (ReceiptView {
                journal_epoch: admission.journal_epoch,
                seq: admission.seq,
                client_order_id: client_order_id@,
                already_admitted: false,
            }),
            Err(cause) => r matches Err(error) && is_journal_error(error, cause),
        },
{
    match recorded {
        Ok(_) => Ok(
            AdmissionReceipt {
                journal_epoch: admission.journal_epoch,
                seq: admission.seq,
                client_order_id: client_order_id.to_owned(),
                already_admitted: false,
            },
        ),
        Err(error) => Err(journal_failed(&error)),
    }
}

/// An order that is live in the cache.
#[derive(Debug)]
pub struct LiveOrder {
    pub strategy_id: String,
    pub instrument_id: String,
    pub client_order_id: String,
}

/// A command to cancel an order.
#[derive(Debug)]
pub struct CancelCommand {
    pub trader_id: String,
    pub strategy_id: String,
    pub instrument_id: String,
    pub client_order_id: String,
    pub ts_init_ns: u64,
}

/// The command that follows the answer to a cancel request: one for the live order
/// if the request has just been admitted and the order is live, else none. A retry
/// is not dispatched again.
pub open spec fn cancel_dispatched(
    trader_id: Seq<char>,
    answer: Result<AdmissionReceipt, BridgeError>,
    live: Option<LiveOrder>,
    ts: u64,
    command: Option<CancelCommand>,
) -> bool {
    match (answer, live) {
        (Ok(receipt), Some(order)) => if receipt.already_admitted {
            command is None
        } else {
            command matches Some(cancel) && cancel.trader_id@ == trader_id && cancel.strategy_id
                == order.strategy_id && cancel.instrument_id == order.instrument_id
                && cancel.client_order_id == order.client_order_id && cancel.ts_init_ns == ts
        },
        _ => command is None,
    }
}

/// The command to dispatch after a cancel request was answered, if there is one;
/// `live` is the order in the cache, if it is there.
pub fn cancel_command(
    trader_id: &str,
    answer: &Result<AdmissionReceipt, BridgeError>,
    live: Option<LiveOrder>,
    ts_init_ns: u64,
) -> (r: Option<CancelCommand>)
    ensures
        cancel_dispatched(trader_id@, *answer, live, ts_init_ns, r),
{
    match (answer, live) {
        (Ok(receipt), Some(order)) => {
            if receipt.already_admitted {
                return None;
            }
            Some(
                CancelCommand {
                    trader_id: trader_id.to_owned(),
                    strategy_id: order.strategy_id,
                    instrument_id: order.instrument_id,
                    client_order_id: order.client_order_id,
                    ts_init_ns,
                },
            )
        },
        _ => None,
    }
}

// ---------------------------------------------------------------------------
// Instruments
// ---------------------------------------------------------------------------

/// The instruments of the admissions in a list of entries, without those of
/// cancel requests.
pub open spec fn admitted_instruments(entries: Seq<(u64, JournalEntry)>) -> Set<Seq<char>>
    decreases entries.len(),
{
    if entries.len() == 0 {
        Set::empty()
    } else {
        let before = admitted_instruments(entries.drop_last());
        match entries.last().1 {
            JournalEntry::Admission(record) => if "CANCEL:"@.is_prefix_of(record.instrument_id@) {
                before
            } else {
                before.insert(record.instrument_id@)
            },
            JournalEntry::Outcome { origin_seq, outcome } => before,
        }
    }
}

/// Unique instrument IDs referenced by journal admissions, in ascending order;
/// none if the journal cannot be read.
///
/// Instruments stay enumerable after their orders reach terminal states.
pub fn journal_instrument_ids(journal: &BusinessJournal) -> (r: Vec<String>)
    ensures
        ascending(views(r@)),
        views(r@).to_set() == (match scanned(journal@.rows, 0) {
            Ok(entries) => admitted_instruments(entries),
            Err(reason) => Set::empty(),
        }),
{
    let mut ids: Vec<String> = Vec::new();
    assert(views(ids@).to_set() =~= Set::<Seq<char>>::empty());
    let entries = match journal.scan_all() {
        Ok(entries) => entries,
        Err(_) => {
            return ids;
        },
    };
    let mut i: usize = 0;
    assert(entries@.take(0) =~= Seq::<(u64, JournalEntry)>::empty());
    while i < entries.len()
        invariant
            i <= entries@.len(),
            ascending(views(ids@)),
            views(ids@).to_set() == admitted_instruments(entries@.take(i as int)),
        decreases entries.len() - i,
    {
        assert(entries@.take(i + 1).drop_last() =~= entries@.take(i as int));
        if let JournalEntry::Admission(record) = &entries[i].1 {
            if !starts_with(record.instrument_id.as_str(), "CANCEL:") {
                insert_ascending(&mut ids, record.instrument_id.clone());
            }
        }
        i = i + 1;
    }
    assert(entries@.take(i as int) =~= entries@);
    ids
}

// ---------------------------------------------------------------------------
// Bridge
// ---------------------------------------------------------------------------

/// The sequence numbers of the journal are used up.
pub open spec fn is_overflow(error: BridgeError) -> bool {
    error matches BridgeError::Journal(text) && text@ == "journal encoding error: "@
        + "sequence overflow"@
}

/// An outcome says that a request was admitted under an order ID.
pub open spec fn is_admitted(outcome: JournalOutcome, id: Seq<char>) -> bool {
    outcome matches JournalOutcome::Admitted { client_order_id } && client_order_id@ == id
}

/// What became of an admission, once it was decided on: of the journal, of the
/// quota with what is held for it, and what is answered. `refusal` is why its
/// order is not constructed, if it is not; `placed` is what comes of registering
/// and dispatching it, if it is.
pub open spec fn admission_done(
    journal: JournalView,
    held: Option<LedgerView>,
    token: Option<u64>,
    record: AdmissionRecord,
    refusal: Option<Seq<char>>,
    placed: Result<(), BridgeError>,
    journal_after: JournalView,
    quota_after: Option<LedgerView>,
    answer: Option<Result<AdmissionReceipt, BridgeError>>,
) -> bool {
    let seq = (journal.last_seq + 1) as u64;
    let admitted = journal.with_entry(PendingEntry::Admission(Box::new(record)));
    let id = order_id(journal.epoch, seq);
    if journal.last_seq == u64::MAX {
        &&& answer matches Some(Err(error)) && is_overflow(error)
        &&& journal_after == journal
        &&& quota_after == released(held, token)
    } else if refusal is Some {
        &&& answer matches Some(Err(BridgeError::Order(text))) && text@ == refusal->0
        &&& journal_after == admitted
        &&& quota_after == released(held, token)
    } else {
        match placed {
            Err(error) => {
                &&& answer == Some(Err::<AdmissionReceipt, BridgeError>(error))
                &&& journal_after == admitted
                &&& quota_after == released(held, token)
            },
            Ok(()) => if seq == u64::MAX {
                &&& answer matches Some(Err(error)) && is_overflow(error)
                &&& journal_after == admitted
                &&& quota_after == held
            } else {
                &&& exists|outcome: JournalOutcome| #[trigger]
                    is_admitted(outcome, id) && journal_after == admitted.with_entry(
                        PendingEntry::Outcome { origin_seq: seq, outcome },
                    )
                &&& match confirmed(held, token) {
                    Some(after) => {
                        &&& quota_after == after
                        &&& answer matches Some(Ok(receipt)) && receipt@ == (ReceiptView {
                            journal_epoch: journal.epoch,
                            seq,
                            client_order_id: id,
                            already_admitted: false,
                        })
                    },
                    None => answer is None && quota_after == held,
                }
            },
        }
    }
}

/// What became of a submission: of the journal, of the quota, and what is
/// answered. Without an admission the journal and the quota are unchanged.
pub open spec fn submission_done(
    trader_id: Seq<char>,
    gate: Option<&ReadinessGate>,
    journal: JournalView,
    quota: Option<LedgerView>,
    req: LimitOrderRequest,
    ts: u64,
    placed: Result<(), BridgeError>,
    journal_after: JournalView,
    quota_after: Option<LedgerView>,
    answer: Option<Result<AdmissionReceipt, BridgeError>>,
) -> bool {
    match opening(gate_state(gate), journal, quota, req) {
        Opening::Admit(hold) => exists|record: AdmissionRecord| #[trigger]
            is_submission(record, req, ts) && admission_done(
                journal,
                match hold {
                    Some(hold) => Some(quota->0.with_hold(hold)),
                    None => quota,
                },
                match hold {
                    Some(hold) => Some((quota->0.issued + 1) as u64),
                    None => None,
                },
                record,
                order_refusal(
                    trader_id,
                    req,
                    order_id(journal.epoch, (journal.last_seq + 1) as u64),
                ),
                placed,
                journal_after,
                quota_after,
                answer,
            ),
        Opening::OutOfRange => answer is None && journal_after == journal && quota_after == quota,
        decision => answer is Some && opened(
            decision,
            gate,
            req,
            ts,
            quota,
            quota_after,
            SubmitStep::Answered(answer->0),
        ) && journal_after == journal,
    }
}

/// Every amount on the way of a submission is in range.
pub open spec fn submission_in_range(
    gate: Option<&ReadinessGate>,
    journal: JournalView,
    quota: Option<LedgerView>,
    req: LimitOrderRequest,
) -> bool {
    match opening(gate_state(gate), journal, quota, req) {
        Opening::OutOfRange => false,
        Opening::Admit(Some(hold)) => confirmed(
            Some(quota->0.with_hold(hold)),
            Some((quota->0.issued + 1) as u64),
        ) is Some,
        _ => true,
    }
}

/// The ID of an order is needed and is one: that of a new cancel request, or that
/// which a retry of a known one is answered with. A request that meets another one
/// under its key, or a journal that cannot be read, is refused whatever the ID is.
pub open spec fn cancellation_in_range(
    journal: JournalView,
    submitter_id: Seq<char>,
    request_id: Seq<char>,
    client_order_id: Seq<char>,
) -> bool {
    match journal.found(cancel_key(submitter_id, request_id)) {
        Err(reason) => true,
        Ok(Some(record)) => record.admission.request_fingerprint@ == cancel_fingerprint(
            client_order_id,
        ) ==> is_identifier(without_cancel_mark(record.admission.instrument_id@)),
        Ok(None) => is_identifier(client_order_id),
    }
}

/// What became of a cancel request.
pub open spec fn cancellation_done(
    journal: JournalView,
    submitter_id: Seq<char>,
    request_id: Seq<char>,
    client_order_id: Seq<char>,
    ts: u64,
    journal_after: JournalView,
    answer: Result<AdmissionReceipt, BridgeError>,
) -> bool {
    match journal.found(cancel_key(submitter_id, request_id)) {
        Err(reason) => {
            &&& answer matches Err(BridgeError::Journal(text)) && text@
                == "journal encoding error: "@ + reason
            &&& journal_after == journal
        },
        Ok(Some(record)) => cancel_retry_answered(
            record,
            submitter_id,
            request_id,
            client_order_id,
            answer,
        ) && journal_after == journal,
        Ok(None) => exists|record: AdmissionRecord| #[trigger]
            is_cancellation(record, submitter_id, request_id, client_order_id, ts) && {
                let seq = (journal.last_seq + 1) as u64;
                let admitted = journal.with_entry(PendingEntry::Admission(Box::new(record)));
                if journal.last_seq == u64::MAX {
                    &&& answer matches Err(error) && is_overflow(error)
                    &&& journal_after == journal
                } else if seq == u64::MAX {
                    &&& answer matches Err(error) && is_overflow(error)
                    &&& journal_after == admitted
                } else {
                    &&& exists|outcome: JournalOutcome| #[trigger]
                        is_admitted(outcome, client_order_id) && journal_after
                            == admitted.with_entry(
                            PendingEntry::Outcome { origin_seq: seq, outcome },
                        )
                    &&& answer matches Ok(receipt) && receipt@ == (ReceiptView {
                        journal_epoch: journal.epoch,
                        seq,
                        client_order_id,
                        already_admitted: false,
                    })
                }
            },
    }
}

/// Bridge over a journal, a quota ledger and a readiness gate.
pub struct OrderHubBridge {
    trader_id: String,
    worker: PersistenceWorker,
    quota: Option<QuotaLedger>,
    gate: Option<ReadinessGate>,
}

impl OrderHubBridge {
    /// The trader on whose behalf orders are placed.
    pub closed spec fn trader(&self) -> Seq<char> {
        self.trader_id@
    }

    /// The state of the journal.
    pub closed spec fn journal_view(&self) -> JournalView {
        self.worker.journal_view()
    }

    /// The quota ledger, if one is installed.
    pub closed spec fn ledger(&self) -> Option<LedgerView> {
        ledger_of(self.quota)
    }

    /// The readiness gate, if one is installed.
    pub closed spec fn installed_gate(&self) -> Option<ReadinessGate> {
        self.gate
    }

    /// The readiness gate by reference, if one is installed.
    pub open spec fn gate_ref(&self) -> Option<&ReadinessGate> {
        match self.installed_gate() {
            Some(gate) => Some(&gate),
            None => None,
        }
    }

    /// Creates a bridge over a journal, without quota ledger and readiness gate.
    pub fn new(trader_id: &str, journal: BusinessJournal) -> (r: Self)
        ensures
            r.trader() == trader_id@,
            r.journal_view() == journal@,
            r.ledger() is None,
            r.installed_gate() is None,
    {
        OrderHubBridge {
            trader_id: trader_id.to_owned(),
            worker: PersistenceWorker::start(journal),
            quota: None,
            gate: None,
        }
    }

    /// Installs the persistence worker for durable writes.
    pub fn with_worker(self, worker: PersistenceWorker) -> (r: Self)
        ensures
            r.trader() == self.trader(),
            r.journal_view() == worker.journal_view(),
            r.ledger() == self.ledger(),
            r.installed_gate() == self.installed_gate(),
    {
        OrderHubBridge { worker, ..self }
    }

    /// Installs the readiness gate; submissions are refused unless READY.
    pub fn with_gate(self, gate: ReadinessGate) -> (r: Self)
        ensures
            r.trader() == self.trader(),
            r.journal_view() == self.journal_view(),
            r.ledger() == self.ledger(),
            r.installed_gate() == Some(gate),
    {
        OrderHubBridge { gate: Some(gate), ..self }
    }

    /// Installs the per-strategy quota ledger for admission checks.
    pub fn with_quota(self, quota: QuotaLedger) -> (r: Self)
        ensures
            r.trader() == self.trader(),
            r.journal_view() == self.journal_view(),
            r.ledger() == Some(quota@),
            r.installed_gate() == self.installed_gate(),
    {
        OrderHubBridge { quota: Some(quota), ..self }
    }

    /// Read-only access to the journal.
    pub fn journal(&self) -> (r: &BusinessJournal)
        ensures
            r@ == self.journal_view(),
    {
        self.worker.journal()
    }

    /// The journal epoch of the underlying business journal.
    pub fn journal_epoch(&self) -> (r: u64)
        ensures
            r == self.journal_view().epoch,
    {
        self.worker.journal().epoch()
    }

    /// The last committed journal sequence.
    pub fn journal_last_seq(&self) -> (r: Result<u64, JournalError>)
        ensures
            r == Ok::<u64, JournalError>(self.journal_view().last_seq),
    {
        self.worker.journal().last_seq()
    }

    /// Unique instrument IDs referenced by journal admissions, in ascending
    /// order; none if the journal cannot be read.
    pub fn journal_instrument_ids(&self) -> (r: Vec<String>)
        ensures
            ascending(views(r@)),
            views(r@).to_set() == (match scanned(self.journal_view().rows, 0) {
                Ok(entries) => admitted_instruments(entries),
                Err(reason) => Set::empty(),
            }),
    {
        journal_instrument_ids(self.worker.journal())
    }

    /// Admits and submits a limit order; `placed` is what comes of registering
    /// and dispatching the order, if it comes to that. `None` if an amount on the
    /// way is out of range.
    pub fn checked_submit_limit_order(
        &mut self,
        req: &LimitOrderRequest,
        ts_init_ns: u64,
        placed: Result<(), BridgeError>,
    ) -> (r: Option<Result<AdmissionReceipt, BridgeError>>)
        ensures
            submission_done(
                old(self).trader(),
                old(self).gate_ref(),
                old(self).journal_view(),
                old(self).ledger(),
                *req,
                ts_init_ns,
                placed,
                final(self).journal_view(),
                final(self).ledger(),
                r,
            ),
            final(self).installed_gate() == old(self).installed_gate(),
            final(self).trader() == old(self).trader(),
    {
        let ghost gate = self.gate_ref();
        let ghost journal = self.journal_view();
        let ghost quota = self.ledger();
        let gate_now = match &self.gate {
            Some(gate) => Some(gate),
            None => None,
        };
        let step = begin_submit(
            gate_now,
            self.worker.journal(),
            &mut self.quota,
            req,
            ts_init_ns,
        );
        let submission = match step {
            SubmitStep::Answered(answer) => {
                return Some(answer);
            },
            SubmitStep::OutOfRange => {
                return None;
            },
            SubmitStep::Commit(submission) => submission,
        };
        let Submission { record, hold } = submission;
        let ghost given = record;
        assert(is_submission(given, *req, ts_init_ns));
        let committed = self.worker.submit_admission(record);
        let placement = match admission_committed(&mut self.quota, hold, committed) {
            Ok(placement) => placement,
            Err(error) => {
                return Some(Err(error));
            },
        };
        let constructed = check_limit_order(
            self.trader_id.as_str(),
            req,
            placement.client_order_id.as_str(),
            ts_init_ns,
        );
        let placed = match constructed {
            Ok(()) => placed,
            Err(error) => Err(error),
        };
        let outcome = match order_placed(&mut self.quota, &placement, placed) {
            Ok(outcome) => outcome,
            Err(error) => {
                return Some(Err(error));
            },
        };
        let ghost known = outcome;
        assert(is_admitted(known, order_id(journal.epoch, (journal.last_seq + 1) as u64)));
        let recorded = self.worker.submit_outcome(placement.admission.seq, outcome);
        outcome_committed(&mut self.quota, placement, recorded)
    }

    /// Admits and submits a limit order; `placed` is what comes of registering
    /// and dispatching the order, if it comes to that.
    ///
    /// 1. Idempotency check against the journal's request index.
    /// 2. Admission commit (allocates `seq`, derives `client_order_id`).
    /// 3. The order is constructed.
    /// 4. The order is registered and dispatched.
    /// 5. `Admitted` outcome commit.
    pub fn submit_limit_order(
        &mut self,
        req: &LimitOrderRequest,
        ts_init_ns: u64,
        placed: Result<(), BridgeError>,
    ) -> (r: Result<AdmissionReceipt, BridgeError>)
        requires
            submission_in_range(
                old(self).gate_ref(),
                old(self).journal_view(),
                old(self).ledger(),
                *req,
            ),
        ensures
            submission_done(
                old(self).trader(),
                old(self).gate_ref(),
                old(self).journal_view(),
                old(self).ledger(),
                *req,
                ts_init_ns,
                placed,
                final(self).journal_view(),
                final(self).ledger(),
                Some(r),
            ),
            final(self).installed_gate() == old(self).installed_gate(),
            final(self).trader() == old(self).trader(),
    {
        self.checked_submit_limit_order(req, ts_init_ns, placed).unwrap()
    }

    /// Durably records a cancel intent for `client_order_id`.
    ///
    /// This persists the cancellation *request* only: acceptance means the intent
    /// is durable, not that the order is cancelled (fills may still arrive).
    pub fn cancel_order(
        &mut self,
        submitter_id: &str,
        request_id: &str,
        client_order_id: &str,
        ts_init_ns: u64,
    ) -> (r: Result<AdmissionReceipt, BridgeError>)
        requires
            cancellation_in_range(
                old(self).journal_view(),
                submitter_id@,
                request_id@,
                client_order_id@,
            ),
        ensures
            cancellation_done(
                old(self).journal_view(),
                submitter_id@,
                request_id@,
                client_order_id@,
                ts_init_ns,
                final(self).journal_view(),
                r,
            ),
            final(self).ledger() == old(self).ledger(),
            final(self).installed_gate() == old(self).installed_gate(),
            final(self).trader() == old(self).trader(),
    {
        let ghost journal = self.journal_view();
        let record = match begin_cancel(
            self.worker.journal(),
            submitter_id,
            request_id,
            client_order_id,
            ts_init_ns,
        ) {
            CancelStep::Answered(answer) => {
                return answer;
            },
            CancelStep::Commit(record) => record,
        };
        let ghost given = record;
        assert(is_cancellation(
            given,
            submitter_id@,
            request_id@,
            client_order_id@,
            ts_init_ns,
        ));
        let committed = self.worker.submit_admission(record);
        let (admission, outcome) = match cancel_admitted(committed, client_order_id) {
            Ok(next) => next,
            Err(error) => {
                return Err(error);
            },
        };
        let ghost known = outcome;
        assert(is_admitted(known, client_order_id@));
        let recorded = self.worker.submit_outcome(admission.seq, outcome);
        cancel_recorded(&admission, recorded, client_order_id)
    }

    /// Durably records a cancel intent, and gives the command to dispatch toward the
    /// execution engine when the order is live: `live` is the order in the cache, if
    /// it is there.
    pub fn cancel_live_order(
        &mut self,
        submitter_id: &str,
        request_id: &str,
        client_order_id: &str,
        ts_init_ns: u64,
        live: Option<LiveOrder>,
    ) -> (r: (Result<AdmissionReceipt, BridgeError>, Option<CancelCommand>))
        requires
            cancellation_in_range(
                old(self).journal_view(),
                submitter_id@,
                request_id@,
                client_order_id@,
            ),
        ensures
            cancellation_done(
                old(self).journal_view(),
                submitter_id@,
                request_id@,
                client_order_id@,
                ts_init_ns,
                final(self).journal_view(),
                r.0,
            ),
            cancel_dispatched(old(self).trader(), r.0, live, ts_init_ns, r.1),
            final(self).ledger() == old(self).ledger(),
            final(self).installed_gate() == old(self).installed_gate(),
            final(self).trader() == old(self).trader(),
    {
        let answer = self.cancel_order(submitter_id, request_id, client_order_id, ts_init_ns);
        let command = cancel_command(self.trader_id.as_str(), &answer, live, ts_init_ns);
        (answer, command)
    }
}

// ---------------------------------------------------------------------------
// Laws
// ---------------------------------------------------------------------------

/// Order IDs are never reused: different epochs or sequences give different IDs.
pub proof fn law_order_ids_are_unique(epoch_a: u64, seq_a: u64, epoch_b: u64, seq_b: u64)
    requires
        order_id(epoch_a, seq_a) == order_id(epoch_b, seq_b),
    ensures
        epoch_a == epoch_b,
        seq_a == seq_b,
{
    reveal_strlit("O-");
    reveal_strlit("-");
    let a = order_id(epoch_a, seq_a);
    let b = order_id(epoch_b, seq_b);
    let x = numeral(epoch_a as nat);
    let y = numeral(epoch_b as nat);
    lemma_numeral(epoch_a as nat);
    lemma_numeral(epoch_b as nat);
    lemma_padded(seq_a as nat, 12);
    lemma_padded(seq_b as nat, 12);
    lemma_digits_without(x, '-');
    lemma_digits_without(y, '-');
    assert(a.skip(2) =~= x.push('-') + padded(seq_a as nat, 12));
    assert(b.skip(2) =~= y.push('-') + padded(seq_b as nat, 12));
    lemma_split_at(x, padded(seq_a as nat, 12), y, padded(seq_b as nat, 12), '-');
}

/// An outcome names no other order ID for its admission.
pub open spec fn agrees_on_order_id(outcome: JournalOutcome, id: Seq<char>) -> bool {
    match outcome {
        JournalOutcome::Admitted { client_order_id } => client_order_id@ == id,
        JournalOutcome::DispatchStarted { client_order_id } => client_order_id@ == id,
        _ => true,
    }
}

/// The outcomes that some writes record for an admission name no other order ID.
pub open spec fn keep_order_id(later: Seq<PendingEntry>, seq: u64, id: Seq<char>) -> bool {
    forall|i: int|
        0 <= i < later.len() ==> ((#[trigger] later[i]) matches PendingEntry::Outcome {
            origin_seq,
            outcome,
        } ==> (origin_seq == seq ==> agrees_on_order_id(outcome, id)))
}

/// A request stays known: whatever is written later, its key leads to the same
/// admission, and to the same order ID.
proof fn lemma_request_stays(
    journal: JournalView,
    later: Seq<PendingEntry>,
    key: Seq<char>,
    id: Seq<char>,
)
    requires
        journal.intact(),
        journal.has_room(later),
        journal.index.contains_key(key),
        journal.found(key) matches Ok(Some(known)) && known_order_id(known) == id && order_id(
            known.admission.journal_epoch,
            known.admission.seq,
        ) == id,
    ensures
        journal.with_batch(later).intact(),
        journal.with_batch(later).index.contains_key(key),
        journal.with_batch(later).index[key] == journal.index[key],
        journal.with_batch(later).last_seq == journal.last_seq + later.len(),
        journal.with_batch(later).found(key) matches Ok(Some(known)) && known.admission
            == journal.found(key)->Ok_0->Some_0.admission && (keep_order_id(
            later,
            journal.index[key],
            id,
        ) ==> known_order_id(known) == id),
    decreases later.len(),
{
    if later.len() > 0 {
        let rest = later.drop_last();
        let item = later.last();
        assert(item == later[later.len() - 1]);
        assert forall|i: int| 0 <= i < rest.len() implies #[trigger] rest[i] == later[i] by {}
        lemma_request_stays(journal, rest, key, id);
        let before = journal.with_batch(rest);
        law_append_only(before, item);
        match item {
            PendingEntry::Admission(record) => law_append_leaves_others(before, item, key),
            PendingEntry::Outcome { origin_seq, outcome } => {
                if origin_seq == journal.index[key] {
                    law_outcome_is_latest(before, key, outcome);
                } else {
                    law_append_leaves_others(before, item, key);
                }
            },
        }
    }
}

/// Retries are idempotent, at any time: once a new request was admitted, and
/// whatever was written since then, a retry under the same key with the same
/// business parameters is answered with the original admission and its order
/// ID, and one with other parameters with a conflict. Neither goes any further
/// than the journal: whatever the quota, nothing is held or admitted.
pub proof fn law_retry_returns_original_admission(
    journal: JournalView,
    record: AdmissionRecord,
    later: Seq<PendingEntry>,
    req: LimitOrderRequest,
    ts: u64,
    retry: LimitOrderRequest,
    quota: Option<LedgerView>,
    answer: Result<AdmissionReceipt, BridgeError>,
)
    requires
        journal.intact(),
        journal.last_seq + 1 + later.len() <= u64::MAX,
        is_submission(record, req, ts),
        !journal.index.contains_key(submit_key(req)),
        keep_order_id(
            later,
            (journal.last_seq + 1) as u64,
            order_id(journal.epoch, (journal.last_seq + 1) as u64),
        ),
        submit_key(retry) == submit_key(req),
    ensures
        ({
            let admitted = journal.with_entry(PendingEntry::Admission(Box::new(record)));
            let now = admitted.with_batch(later);
            let seq = (journal.last_seq + 1) as u64;
            &&& now.intact()
            &&& opening(None, now, quota, retry) is Known
            &&& opening(Some(Readiness::Ready), now, quota, retry) is Known
            &&& opening(None, now, quota, retry) == opening(
                Some(Readiness::Ready),
                now,
                quota,
                retry,
            )
            &&& retry_answered(
                opening(None, now, quota, retry)->Known_0,
                retry,
                fingerprint_text(retry),
                answer,
            ) ==> if fingerprint_text(retry) == fingerprint_text(req) {
                answer matches Ok(receipt) && receipt@ == (ReceiptView {
                    journal_epoch: journal.epoch,
                    seq,
                    client_order_id: order_id(journal.epoch, seq),
                    already_admitted: true,
                })
            } else {
                answer matches Err(error) && is_conflict(
                    error,
                    retry.submitter_id@,
                    retry.request_id@,
                    fingerprint_text(req),
                    fingerprint_text(retry),
                )
            }
        }),
{
    let item = PendingEntry::Admission(Box::new(record));
    law_append_only(journal, item);
    law_admission_is_found(journal, record);
    assert(record.key() == submit_key(req));
    lemma_request_stays(
        journal.with_entry(item),
        later,
        record.key(),
        order_id(journal.epoch, (journal.last_seq + 1) as u64),
    );
}

/// Cancel retries are idempotent, at any time: once a new cancel request was
/// admitted, and whatever was written since then, a retry for the same order is
/// answered with the original admission, and one for another order, whatever its ID
/// is, with a conflict. Neither writes to the journal or dispatches a command.
pub proof fn law_cancel_retry_returns_original_admission(
    journal: JournalView,
    record: AdmissionRecord,
    later: Seq<PendingEntry>,
    submitter_id: Seq<char>,
    request_id: Seq<char>,
    client_order_id: Seq<char>,
    ts: u64,
    retried_order_id: Seq<char>,
    retried_ts: u64,
    journal_after: JournalView,
    answer: Result<AdmissionReceipt, BridgeError>,
    trader_id: Seq<char>,
    live: Option<LiveOrder>,
    command: Option<CancelCommand>,
)
    requires
        journal.intact(),
        journal.last_seq + 1 + later.len() <= u64::MAX,
        is_cancellation(record, submitter_id, request_id, client_order_id, ts),
        !journal.index.contains_key(cancel_key(submitter_id, request_id)),
    ensures
        ({
            let admitted = journal.with_entry(PendingEntry::Admission(Box::new(record)));
            let now = admitted.with_batch(later);
            &&& now.intact()
            &&& is_identifier(client_order_id) || retried_order_id != client_order_id
                ==> cancellation_in_range(now, submitter_id, request_id, retried_order_id)
            &&& cancellation_done(
                now,
                submitter_id,
                request_id,
                retried_order_id,
                retried_ts,
                journal_after,
                answer,
            ) ==> {
                &&& journal_after == now
                &&& if retried_order_id == client_order_id {
                    answer matches Ok(receipt) && receipt@ == (ReceiptView {
                        journal_epoch: journal.epoch,
                        seq: (journal.last_seq + 1) as u64,
                        client_order_id,
                        already_admitted: true,
                    })
                } else {
                    answer matches Err(error) && is_conflict(
                        error,
                        submitter_id,
                        request_id,
                        cancel_fingerprint(client_order_id),
                        cancel_fingerprint(retried_order_id),
                    )
                }
                &&& cancel_dispatched(trader_id, answer, live, retried_ts, command)
                    ==> command is None
            }
        }),
{
    let item = PendingEntry::Admission(Box::new(record));
    law_append_only(journal, item);
    law_admission_is_found(journal, record);
    assert(record.key() == cancel_key(submitter_id, request_id));
    lemma_request_stays(
        journal.with_entry(item),
        later,
        record.key(),
        order_id(journal.epoch, (journal.last_seq + 1) as u64),
    );
    let head = "CANCEL:"@;
    let marked = head + client_order_id;
    assert(marked.take(head.len() as int) =~= head);
    assert(marked.skip(head.len() as int) =~= client_order_id);
    let mark = "CANCEL|"@;
    assert(cancel_fingerprint(client_order_id).skip(mark.len() as int) =~= client_order_id);
    assert(cancel_fingerprint(retried_order_id).skip(mark.len() as int) =~= retried_order_id);
}

/// Submissions and cancel requests do not meet: where the submitters hold no
/// `|`, no request of one kind has the key of a request of the other.
pub proof fn law_submit_and_cancel_keys_differ(
    req: LimitOrderRequest,
    submitter_id: Seq<char>,
    request_id: Seq<char>,
)
    requires
        !req.submitter_id@.contains('|'),
        !submitter_id.contains('|'),
    ensures
        submit_key(req) != cancel_key(submitter_id, request_id),
{
    reveal_strlit("SubmitOrder");
    reveal_strlit("CancelOrder");
    assert(!"SubmitOrder"@.contains('|'));
    assert(!"CancelOrder"@.contains('|'));
    assert("SubmitOrder"@[0] != "CancelOrder"@[0]);
    if submit_key(req) == cancel_key(submitter_id, request_id) {
        law_request_keys_are_unambiguous(
            req.submitter_id@,
            "SubmitOrder"@,
            req.request_id@,
            submitter_id,
            "CancelOrder"@,
            request_id,
        );
    }
}

/// Nothing is admitted unless the hub is READY: with a gate in any other state,
/// the journal and the quota stay as they are, and the answer names that state and
/// its reason.
pub proof fn law_nothing_is_admitted_unless_ready(
    trader_id: Seq<char>,
    gate: &ReadinessGate,
    journal: JournalView,
    quota: Option<LedgerView>,
    req: LimitOrderRequest,
    ts: u64,
    placed: Result<(), BridgeError>,
    journal_after: JournalView,
    quota_after: Option<LedgerView>,
    answer: Option<Result<AdmissionReceipt, BridgeError>>,
)
    requires
        gate.state() != Readiness::Ready,
        submission_done(
            trader_id,
            Some(gate),
            journal,
            quota,
            req,
            ts,
            placed,
            journal_after,
            quota_after,
            answer,
        ),
    ensures
        journal_after == journal,
        quota_after == quota,
        answer matches Some(Err(BridgeError::NotReady { state, reason })) && state@
            == gate.state().name() && reason@ == gate.reason(),
{
}

/// A failed step gives back what was held: where the admission could not be
/// committed or its order could not be placed, the quota is as it was, apart
/// from the token that was used up.
pub proof fn law_failure_gives_hold_back(ledger: LedgerView, hold: HoldView)
    requires
        ledger.valid(),
        ledger.issued < u64::MAX,
    ensures
        released(Some(ledger.with_hold(hold)), Some((ledger.issued + 1) as u64)) == Some(
            LedgerView { issued: (ledger.issued + 1) as u64, ..ledger },
        ),
{
    law_release_undoes_hold(ledger, hold);
}

/// The routing of a request is not written as the sign for none.
pub open spec fn routing_is_clear(req: LimitOrderRequest) -> bool {
    req.client_id matches Some(id) ==> id@ != "-"@
}

/// None of the texts of a request holds the mark between the parts of a
/// fingerprint.
pub open spec fn is_bar_free(req: LimitOrderRequest) -> bool {
    &&& !req.strategy_id@.contains('|')
    &&& req.client_id matches Some(id) ==> !id@.contains('|')
    &&& !req.instrument_id@.contains('|')
    &&& !req.quantity@.contains('|')
    &&& !req.price@.contains('|')
}

/// The fingerprint covers every business field: requests without `|` in their
/// texts have the same fingerprint only if they agree in all of these fields.
pub proof fn law_fingerprint_covers_all_fields(a: LimitOrderRequest, b: LimitOrderRequest)
    requires
        is_bar_free(a),
        is_bar_free(b),
        routing_is_clear(a),
        routing_is_clear(b),
        fingerprint_text(a) == fingerprint_text(b),
    ensures
        a.strategy_id@ == b.strategy_id@,
        a.client_id is Some <==> b.client_id is Some,
        a.client_id is Some ==> a.client_id->0@ == b.client_id->0@,
        a.instrument_id@ == b.instrument_id@,
        a.side == b.side,
        a.quantity@ == b.quantity@,
        a.price@ == b.price@,
        a.time_in_force == b.time_in_force,
        a.post_only == b.post_only,
        a.reduce_only == b.reduce_only,
        a.submit_before_ns == b.submit_before_ns,
{
    reveal_strlit("-");
    reveal_strlit("BUY");
    reveal_strlit("SELL");
    reveal_strlit("true");
    reveal_strlit("false");
    let x = fingerprint_parts(a);
    let y = fingerprint_parts(b);
    lemma_parts_bar_free(a);
    lemma_parts_bar_free(b);
    lemma_joined_injective(x, y, '|');
    assert(x[1] == y[1] && x[2] == y[2] && x[3] == y[3] && x[4] == y[4] && x[5] == y[5]);
    assert(x[6] == y[6] && x[7] == y[7] && x[8] == y[8] && x[9] == y[9] && x[10] == y[10]);
    lemma_time_in_force_names(a.time_in_force, b.time_in_force);
    assert("BUY"@.len() != "SELL"@.len());
    assert("true"@.len() != "false"@.len());
    if let Some(ns) = a.submit_before_ns {
        lemma_numeral(ns as nat);
        assert(is_digit(numeral(ns as nat)[0]));
    }
    if let Some(ns) = b.submit_before_ns {
        lemma_numeral(ns as nat);
        assert(is_digit(numeral(ns as nat)[0]));
    }
}

/// The names of the times in force are different.
proof fn lemma_time_in_force_names(a: TimeInForce, b: TimeInForce)
    requires
        a.name() == b.name(),
    ensures
        a == b,
{
    reveal_strlit("GTC");
    reveal_strlit("IOC");
    reveal_strlit("FOK");
    reveal_strlit("GTD");
    reveal_strlit("DAY");
    reveal_strlit("AT_THE_OPEN");
    reveal_strlit("AT_THE_CLOSE");
    assert("GTC"@[0] == 'G' && "GTC"@[2] == 'C' && "GTC"@.len() == 3);
    assert("GTD"@[0] == 'G' && "GTD"@[2] == 'D' && "GTD"@.len() == 3);
    assert("IOC"@[0] == 'I' && "IOC"@.len() == 3);
    assert("FOK"@[0] == 'F' && "FOK"@.len() == 3);
    assert("DAY"@[0] == 'D' && "DAY"@.len() == 3);
    assert("AT_THE_OPEN"@.len() == 11 && "AT_THE_CLOSE"@.len() == 12);
}

/// No part of the fingerprint of a request without `|` holds one.
proof fn lemma_parts_bar_free(req: LimitOrderRequest)
    requires
        is_bar_free(req),
    ensures
        forall|i: int|
            0 <= i < fingerprint_parts(req).len() - 1 ==> !(#[trigger] fingerprint_parts(
                req,
            )[i]).contains('|'),
{
    reveal_strlit("LIMIT");
    reveal_strlit("-");
    reveal_strlit("BUY");
    reveal_strlit("SELL");
    reveal_strlit("GTC");
    reveal_strlit("IOC");
    reveal_strlit("FOK");
    reveal_strlit("GTD");
    reveal_strlit("DAY");
    reveal_strlit("AT_THE_OPEN");
    reveal_strlit("AT_THE_CLOSE");
    reveal_strlit("true");
    reveal_strlit("false");
    assert(!"LIMIT"@.contains('|'));
    assert(!"-"@.contains('|'));
    assert(!req.side.name().contains('|'));
    assert(!req.time_in_force.name().contains('|'));
    assert(!bool_name(req.post_only).contains('|'));
    assert(!bool_name(req.reduce_only).contains('|'));
}

} // verus!
