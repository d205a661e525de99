//! Laws of admission: what the journal holds of a request, what is held for it, and
//! how a request and its retry are answered.

use vstd::prelude::*;

use crate::amount::{
    amount_text, exact_at, lemma_pow10, lemma_zero, parsed_amount, pow10, Amount, MAX_MANTISSA,
    MAX_SCALE,
};
use crate::bridge::{
    admission_committed, begin_cancel, begin_submit, cancel_command, cancel_key,
    derive_client_order_id, fingerprint_parts, fingerprint_text, gate_state, is_admitted,
    is_bar_free, is_cancellation, is_submission, law_fingerprint_covers_all_fields,
    law_order_ids_are_unique, ledger_of, opening, order_id, order_placed, outcome_committed,
    receipt_for_existing, routing_is_clear, submit_key, AdmissionReceipt, BridgeError,
    CancelCommand, CancelStep, LimitOrderRequest, LiveOrder, Opening, OrderHubBridge, OrderSide,
    Placement, Submission, SubmitStep, TimeInForce,
};
use crate::exec_wiring::{law_derived_id_leads_back, outcome_for_event, seq_in_order_id, OrderEvent};
use crate::identifiers::{
    canonical_price, canonical_quantity, is_identifier, is_instrument_id, is_strategy_id,
    is_trader_id,
};
use crate::journal::{
    law_admission_is_found, law_append_only, law_lookup_succeeds, law_outcome_is_latest,
    request_key, AdmissionRecord, BusinessJournal, JournalError, JournalOutcome, PendingEntry,
    RequestRecord,
};
use crate::orders::{check_limit_order, is_above_zero};
use crate::quota::{
    counted, holding_key, law_commit_keeps_availability, law_hold_takes_what_it_reserves,
    law_release_undoes_hold, strategy_key, Count, HoldView, LedgerView, QuotaLedger, TentativeId,
};
use crate::readiness::{Readiness, ReadinessGate};
use crate::table::amount_at;
use crate::text::{joined, numeral};

verus! {

// ---------------------------------------------------------------------------
// Records
// ---------------------------------------------------------------------------

/// The fields of a record are those of its request, and its fingerprint is made of
/// its own fields.
proof fn lemma_record_tells_the_request(record: AdmissionRecord, req: LimitOrderRequest, ts: u64)
    requires
        is_submission(record, req, ts),
    ensures
        record.submitter_id@ == req.submitter_id@,
        record.request_id@ == req.request_id@,
        record.request_kind@ == "SubmitOrder"@,
        record.strategy_id@ == req.strategy_id@,
        record.instrument_id@ == req.instrument_id@,
        record.order_side@ == (if req.side == OrderSide::Buy {
            "BUY"@
        } else {
            "SELL"@
        }),
        record.quantity@ == req.quantity@,
        record.price@ == req.price@,
        record.time_in_force@ == (match req.time_in_force {
            TimeInForce::Gtc => "GTC"@,
            TimeInForce::Ioc => "IOC"@,
            TimeInForce::Fok => "FOK"@,
            TimeInForce::Gtd => "GTD"@,
            TimeInForce::Day => "DAY"@,
            TimeInForce::AtTheOpen => "AT_THE_OPEN"@,
            TimeInForce::AtTheClose => "AT_THE_CLOSE"@,
        }),
        record.post_only == req.post_only,
        record.reduce_only == req.reduce_only,
        record.submit_before_ns == req.submit_before_ns,
        record.ts_init_ns == ts,
        record.request_fingerprint@ == joined(
            seq![
                "LIMIT"@,
                record.strategy_id@,
                match req.client_id {
                    Some(id) => id@,
                    None => "-"@,
                },
                record.instrument_id@,
                record.order_side@,
                record.quantity@,
                record.price@,
                record.time_in_force@,
                if record.post_only {
                    "true"@
                } else {
                    "false"@
                },
                if record.reduce_only {
                    "true"@
                } else {
                    "false"@
                },
                match record.submit_before_ns {
                    Some(ns) => numeral(ns as nat),
                    None => "-"@,
                },
            ],
            '|',
        ),
{
}

/// What the journal holds of an admitted request is the request: a lookup by its
/// submitter and its ID gives a record whose fields are those that were asked for,
/// quantity as quantity and price as price, and whose fingerprint is made of these
/// very fields. An admission whose order was placed has the order's ID as its
/// outcome; one whose order was not has none.
pub proof fn law_admission_records_the_request(
    bridge: &mut OrderHubBridge,
    req: &LimitOrderRequest,
    ts_init_ns: u64,
    placed: Result<(), BridgeError>,
    answer: Option<Result<AdmissionReceipt, BridgeError>>,
    journal: BusinessJournal,
    submitter_id: &str,
    request_id: &str,
    found: Result<Option<RequestRecord>, JournalError>,
)
    requires
        call_ensures(
            OrderHubBridge::checked_submit_limit_order,
            (bridge, req, ts_init_ns, placed),
            answer,
        ) || (answer is Some && call_ensures(
            OrderHubBridge::submit_limit_order,
            (bridge, req, ts_init_ns, placed),
            answer->0,
        )),
        old(bridge).journal_view().intact(),
        old(bridge).journal_view().last_seq < u64::MAX - 1,
        final(bridge).journal_view() != old(bridge).journal_view(),
        journal@ == final(bridge).journal_view(),
        submitter_id@ == req.submitter_id@,
        request_id@ == req.request_id@,
        call_ensures(
            BusinessJournal::find_request,
            (&journal, submitter_id, "SubmitOrder", request_id),
            found,
        ),
    ensures
        found matches Ok(Some(known)) && {
            let record = known.admission;
            &&& record.submitter_id@ == req.submitter_id@
            &&& record.request_id@ == req.request_id@
            &&& record.request_kind@ == "SubmitOrder"@
            &&& record.strategy_id@ == req.strategy_id@
            &&& record.instrument_id@ == req.instrument_id@
            &&& record.order_side@ == (if req.side == OrderSide::Buy {
                "BUY"@
            } else {
                "SELL"@
            })
            &&& record.quantity@ == req.quantity@
            &&& record.price@ == req.price@
            &&& record.time_in_force@ == (match req.time_in_force {
                TimeInForce::Gtc => "GTC"@,
                TimeInForce::Ioc => "IOC"@,
                TimeInForce::Fok => "FOK"@,
                TimeInForce::Gtd => "GTD"@,
                TimeInForce::Day => "DAY"@,
                TimeInForce::AtTheOpen => "AT_THE_OPEN"@,
                TimeInForce::AtTheClose => "AT_THE_CLOSE"@,
            })
            &&& record.post_only == req.post_only
            &&& record.reduce_only == req.reduce_only
            &&& record.submit_before_ns == req.submit_before_ns
            &&& record.ts_init_ns == ts_init_ns
            &&& record.journal_epoch == old(bridge).journal_view().epoch
            &&& record.seq == old(bridge).journal_view().last_seq + 1
            &&& record.request_fingerprint@ == joined(
                seq![
                    "LIMIT"@,
                    record.strategy_id@,
                    match req.client_id {
                        Some(id) => id@,
                        None => "-"@,
                    },
                    record.instrument_id@,
                    record.order_side@,
                    record.quantity@,
                    record.price@,
                    record.time_in_force@,
                    if record.post_only {
                        "true"@
                    } else {
                        "false"@
                    },
                    if record.reduce_only {
                        "true"@
                    } else {
                        "false"@
                    },
                    match record.submit_before_ns {
                        Some(ns) => numeral(ns as nat),
                        None => "-"@,
                    },
                ],
                '|',
            )
            &&& answer matches Some(Ok(receipt)) ==> {
                &&& !receipt.already_admitted
                &&& receipt.seq == record.seq
                &&& receipt.journal_epoch == record.journal_epoch
                &&& known.outcome matches Some(JournalOutcome::Admitted { client_order_id })
                    && client_order_id@ == receipt.client_order_id@
                &&& receipt.client_order_id@ == order_id(receipt.journal_epoch, receipt.seq)
            }
            &&& answer matches Some(Err(_)) ==> known.outcome is None
            &&& placed is Err ==> known.outcome is None && answer matches Some(Err(_))
        },
        final(bridge).journal_view().intact(),
{
    let before = old(bridge).journal_view();
    let after = final(bridge).journal_view();
    let key = submit_key(*req);
    let record = choose|record: AdmissionRecord| #[trigger]
        is_submission(record, *req, ts_init_ns) && {
            ||| after == before.with_entry(PendingEntry::Admission(Box::new(record)))
            ||| exists|outcome: JournalOutcome| #[trigger]
                is_admitted(outcome, order_id(before.epoch, (before.last_seq + 1) as u64)) && after
                    == before.with_entry(PendingEntry::Admission(Box::new(record))).with_entry(
                    PendingEntry::Outcome { origin_seq: (before.last_seq + 1) as u64, outcome },
                )
        };
    lemma_record_tells_the_request(record, *req, ts_init_ns);
    let item = PendingEntry::Admission(Box::new(record));
    let admitted = before.with_entry(item);
    assert(record.key() == key);
    law_lookup_succeeds(before, key);
    law_append_only(before, item);
    law_admission_is_found(before, record);
    law_lookup_succeeds(admitted, key);
    if after != admitted {
        let outcome = choose|outcome: JournalOutcome| #[trigger]
            is_admitted(outcome, order_id(before.epoch, (before.last_seq + 1) as u64)) && after
                == admitted.with_entry(
                PendingEntry::Outcome { origin_seq: (before.last_seq + 1) as u64, outcome },
            );
        law_outcome_is_latest(admitted, key, outcome);
        law_append_only(
            admitted,
            PendingEntry::Outcome { origin_seq: (before.last_seq + 1) as u64, outcome },
        );
    }
}

// ---------------------------------------------------------------------------
// Reservations
// ---------------------------------------------------------------------------

/// What holding some notional takes, put as a product.
proof fn lemma_taken_product(before: int, after: int, notional: int, product: int, unit: int)
    requires
        before - after == notional,
        notional * unit == product,
    ensures
        unit * (before - after) == product,
{
    assert(unit * notional == notional * unit) by (nonlinear_arith);
}

/// A value is within what is left exactly if its product is.
proof fn lemma_within_product(left: int, notional: int, product: int, unit: int)
    requires
        notional * unit == product,
        0 < unit,
    ensures
        notional <= left <==> product <= unit * left,
        notional <= 0 <==> product <= 0,
{
    assert(notional <= left ==> notional * unit <= unit * left) by (nonlinear_arith)
        requires
            0 < unit,
    ;
    assert(left < notional ==> unit * left < notional * unit) by (nonlinear_arith)
        requires
            0 < unit,
    ;
    assert(notional <= 0 ==> notional * unit <= 0) by (nonlinear_arith)
        requires
            0 < unit,
    ;
    assert(0 < notional ==> 0 < notional * unit) by (nonlinear_arith)
        requires
            0 < unit,
    ;
}

/// A buy reserves its quantity times its price, whatever its time in force and its
/// instructions are: where that product is exact, the budgets of the strategy and of
/// the account each have less left by exactly as much, and nobody else does. It is
/// admitted only if both have that much left, and refused only if one of them has
/// not; the refusal names the product and what is left. Without an admission nothing
/// is held.
pub proof fn law_buy_reserves_quantity_times_price(
    gate: Option<&ReadinessGate>,
    journal: &BusinessJournal,
    quota: &mut Option<QuotaLedger>,
    req: &LimitOrderRequest,
    ts_init_ns: u64,
    step: SubmitStep,
    ledger: QuotaLedger,
    quantity: Amount,
    price: Amount,
    notional: Option<Amount>,
    strategy_id: &str,
    available: Option<Amount>,
    account_available: Option<Amount>,
    scale: nat,
)
    requires
        call_ensures(begin_submit, (gate, journal, quota, req, ts_init_ns), step),
        *old(quota) == Some(ledger),
        req.side == OrderSide::Buy,
        parsed_amount(req.quantity@) == Ok::<Amount, Seq<char>>(quantity),
        parsed_amount(req.price@) == Ok::<Amount, Seq<char>>(price),
        call_ensures(Amount::checked_mul, (quantity, price), notional),
        -MAX_MANTISSA <= quantity.mantissa() * price.mantissa() <= MAX_MANTISSA,
        quantity.scale() + price.scale() <= MAX_SCALE,
        strategy_id@ == req.strategy_id@,
        call_ensures(QuotaLedger::checked_available, (&ledger, strategy_id), available),
        call_ensures(QuotaLedger::checked_account_available, (&ledger,), account_available),
        ledger@.exact_strategy(strategy_id@, scale),
        ledger@.exact_account(scale),
        ledger@.issued < u64::MAX,
    ensures
        step matches SubmitStep::Commit(submission) ==> {
            let after = (*final(quota))->0@;
            let product = quantity.units() * price.units();
            &&& *final(quota) is Some
            &&& submission.hold matches Some(id) && id.value() == ledger@.issued + 1
            &&& pow10(MAX_SCALE as nat) * (ledger@.headroom(strategy_id@) - after.headroom(
                strategy_id@,
            )) == product
            &&& pow10(MAX_SCALE as nat) * (ledger@.account_headroom() - after.account_headroom())
                == product
            &&& forall|s: Seq<char>|
                s != strategy_id@ ==> (#[trigger] after.headroom(s)) == ledger@.headroom(s)
            &&& forall|s: Seq<char>, i: Seq<char>|
                (#[trigger] after.holding_headroom(s, i)) == ledger@.holding_headroom(s, i)
            &&& product <= 0 || product <= pow10(MAX_SCALE as nat) * ledger@.headroom(strategy_id@)
            &&& product <= 0 || product <= pow10(MAX_SCALE as nat) * ledger@.account_headroom()
        },
        !(step is Commit) ==> ledger_of(*final(quota)) == Some(ledger@),
        !(step is OutOfRange),
        journal@.found(
            request_key(req.submitter_id@, "SubmitOrder"@, req.request_id@),
        ) == Ok::<Option<RequestRecord>, Seq<char>>(None) && (gate matches Some(gate)
            ==> gate.state() == Readiness::Ready) ==> {
            let product = quantity.units() * price.units();
            let unit = pow10(MAX_SCALE as nat);
            &&& step is Commit <==> {
                &&& product <= 0 || product <= unit * ledger@.headroom(strategy_id@)
                &&& product <= 0 || product <= unit * ledger@.account_headroom()
            }
            &&& product > 0 && product > unit * ledger@.headroom(strategy_id@) ==> (
            step matches SubmitStep::Answered(Err(BridgeError::Order(text))) && text@
                == "order construction error: "@ + ("strategy budget for "@ + req.strategy_id@ + (
            ": requested "@ + amount_text(notional->0) + ", available "@ + amount_text(
                available->0,
            ))))
            &&& product > 0 && product <= unit * ledger@.headroom(strategy_id@) && product > unit
                * ledger@.account_headroom() ==> (step matches SubmitStep::Answered(
                Err(BridgeError::Order(text)),
            ) && text@ == "order construction error: "@ + ("account budget"@ + (": requested "@
                + amount_text(notional->0) + ", available "@ + amount_text(
                account_available->0,
            ))))
        },
{
    let unit = pow10(MAX_SCALE as nat) as int;
    let product = quantity.units() * price.units();
    let n = notional->0;
    lemma_pow10(0, MAX_SCALE as nat);
    lemma_within_product(ledger@.headroom(strategy_id@), n.units(), product, unit);
    lemma_within_product(ledger@.account_headroom(), n.units(), product, unit);
    let hold = HoldView::BuyNotional { strategy_id: req.strategy_id@, notional: n };
    lemma_zero();
    law_hold_takes_what_it_reserves(ledger@, hold);
    let held = ledger@.with_hold(hold);
    assert(held.headroom(strategy_id@) == ledger@.headroom(strategy_id@) - counted(
        hold,
        Count::Strategy(strategy_id@),
    ).units());
    assert forall|s: Seq<char>| s != strategy_id@ implies (#[trigger] held.headroom(s))
        == ledger@.headroom(s) by {
        assert(held.headroom(s) == ledger@.headroom(s) - counted(
            hold,
            Count::Strategy(s),
        ).units());
    }
    lemma_taken_product(
        ledger@.headroom(strategy_id@),
        held.headroom(strategy_id@),
        n.units(),
        product,
        unit,
    );
    lemma_taken_product(
        ledger@.account_headroom(),
        held.account_headroom(),
        n.units(),
        product,
        unit,
    );
}

/// A buy asks for what its quantity and its price multiply to, rounded or not: that
/// much is taken off both budgets, and it is granted exactly if neither the strategy
/// nor the account has less available. Where there is no such amount, nothing is
/// decided and nothing is held.
pub proof fn law_buy_asks_for_its_notional(
    gate: Option<&ReadinessGate>,
    journal: &BusinessJournal,
    quota: &mut Option<QuotaLedger>,
    req: &LimitOrderRequest,
    ts_init_ns: u64,
    step: SubmitStep,
    ledger: QuotaLedger,
    quantity: Amount,
    price: Amount,
    notional: Option<Amount>,
    strategy_id: &str,
    available: Option<Amount>,
    account_available: Option<Amount>,
)
    requires
        call_ensures(begin_submit, (gate, journal, quota, req, ts_init_ns), step),
        *old(quota) == Some(ledger),
        ledger@.issued < u64::MAX,
        req.side == OrderSide::Buy,
        parsed_amount(req.quantity@) == Ok::<Amount, Seq<char>>(quantity),
        parsed_amount(req.price@) == Ok::<Amount, Seq<char>>(price),
        call_ensures(Amount::checked_mul, (quantity, price), notional),
        strategy_id@ == req.strategy_id@,
        call_ensures(QuotaLedger::checked_available, (&ledger, strategy_id), available),
        call_ensures(QuotaLedger::checked_account_available, (&ledger,), account_available),
        available is Some,
        account_available is Some,
        gate matches Some(gate) ==> gate.state() == Readiness::Ready,
        journal@.found(request_key(req.submitter_id@, "SubmitOrder"@, req.request_id@)) == Ok::<
            Option<RequestRecord>,
            Seq<char>,
        >(None),
    ensures
        step is OutOfRange <==> notional is None,
        notional matches Some(n) ==> {
            &&& step is Commit <==> n.units() <= available->0.units() && n.units()
                <= account_available->0.units()
            &&& step is Commit ==> {
                let after = (*final(quota))->0@;
                &&& *final(quota) is Some
                &&& after.headroom(strategy_id@) == ledger@.headroom(strategy_id@) - n.units()
                &&& after.account_headroom() == ledger@.account_headroom() - n.units()
                &&& forall|s: Seq<char>|
                    s != strategy_id@ ==> (#[trigger] after.headroom(s)) == ledger@.headroom(s)
                &&& forall|s: Seq<char>, i: Seq<char>|
                    (#[trigger] after.holding_headroom(s, i)) == ledger@.holding_headroom(s, i)
            }
        },
        !(step is Commit) ==> ledger_of(*final(quota)) == Some(ledger@),
{
    if let Some(n) = notional {
        let hold = HoldView::BuyNotional { strategy_id: req.strategy_id@, notional: n };
        lemma_zero();
        law_hold_takes_what_it_reserves(ledger@, hold);
        let held = ledger@.with_hold(hold);
        assert(held.headroom(strategy_id@) == ledger@.headroom(strategy_id@) - counted(
            hold,
            Count::Strategy(strategy_id@),
        ).units());
        assert forall|s: Seq<char>| s != strategy_id@ implies (#[trigger] held.headroom(s))
            == ledger@.headroom(s) by {
            assert(held.headroom(s) == ledger@.headroom(s) - counted(
                hold,
                Count::Strategy(s),
            ).units());
        }
    }
}

/// A sell asks for its quantity: that much is taken off the strategy's holdings of the
/// instrument, and it is granted exactly if no less is available there.
pub proof fn law_sell_asks_for_its_quantity(
    gate: Option<&ReadinessGate>,
    journal: &BusinessJournal,
    quota: &mut Option<QuotaLedger>,
    req: &LimitOrderRequest,
    ts_init_ns: u64,
    step: SubmitStep,
    ledger: QuotaLedger,
    quantity: Amount,
    strategy_id: &str,
    instrument_id: &str,
    available: Option<Amount>,
)
    requires
        call_ensures(begin_submit, (gate, journal, quota, req, ts_init_ns), step),
        *old(quota) == Some(ledger),
        ledger@.issued < u64::MAX,
        req.side == OrderSide::Sell,
        parsed_amount(req.quantity@) == Ok::<Amount, Seq<char>>(quantity),
        strategy_id@ == req.strategy_id@,
        instrument_id@ == req.instrument_id@,
        call_ensures(
            QuotaLedger::checked_sellable,
            (&ledger, strategy_id, instrument_id),
            available,
        ),
        available is Some,
        gate matches Some(gate) ==> gate.state() == Readiness::Ready,
        journal@.found(request_key(req.submitter_id@, "SubmitOrder"@, req.request_id@)) == Ok::<
            Option<RequestRecord>,
            Seq<char>,
        >(None),
    ensures
        !(step is OutOfRange),
        step is Commit <==> quantity.units() <= available->0.units(),
        step is Commit ==> {
            let after = (*final(quota))->0@;
            &&& *final(quota) is Some
            &&& after.holding_headroom(strategy_id@, instrument_id@) == ledger@.holding_headroom(
                strategy_id@,
                instrument_id@,
            ) - quantity.units()
            &&& forall|s: Seq<char>, i: Seq<char>|
                s != strategy_id@ || i != instrument_id@ ==> (#[trigger] after.holding_headroom(
                    s,
                    i,
                )) == ledger@.holding_headroom(s, i)
            &&& forall|s: Seq<char>| (#[trigger] after.headroom(s)) == ledger@.headroom(s)
            &&& after.account_headroom() == ledger@.account_headroom()
        },
        !(step is Commit) ==> ledger_of(*final(quota)) == Some(ledger@),
{
    let hold = HoldView::SellQuantity {
        strategy_id: req.strategy_id@,
        instrument_id: req.instrument_id@,
        quantity,
    };
    lemma_zero();
    law_hold_takes_what_it_reserves(ledger@, hold);
    let held = ledger@.with_hold(hold);
    assert(held.holding_headroom(strategy_id@, instrument_id@) == ledger@.holding_headroom(
        strategy_id@,
        instrument_id@,
    ) - counted(hold, Count::Holding(strategy_id@, instrument_id@)).units());
    assert forall|s: Seq<char>, i: Seq<char>|
        s != strategy_id@ || i != instrument_id@ implies (#[trigger] held.holding_headroom(s, i))
        == ledger@.holding_headroom(s, i) by {
        assert(held.holding_headroom(s, i) == ledger@.holding_headroom(s, i) - counted(
            hold,
            Count::Holding(s, i),
        ).units());
    }
}

/// Without a quota every new request is to be committed while the hub is ready, and
/// nothing is held for it.
pub proof fn law_without_quota_nothing_is_held(
    gate: Option<&ReadinessGate>,
    journal: &BusinessJournal,
    quota: &mut Option<QuotaLedger>,
    req: &LimitOrderRequest,
    ts_init_ns: u64,
    step: SubmitStep,
)
    requires
        call_ensures(begin_submit, (gate, journal, quota, req, ts_init_ns), step),
        *old(quota) is None,
        gate matches Some(gate) ==> gate.state() == Readiness::Ready,
        journal@.found(request_key(req.submitter_id@, "SubmitOrder"@, req.request_id@)) == Ok::<
            Option<RequestRecord>,
            Seq<char>,
        >(None),
    ensures
        step matches SubmitStep::Commit(submission) && submission.hold is None,
        *final(quota) is None,
{
}

/// A quantity that is no decimal is refused, and so is the price of a buy: with the
/// reason, and with nothing held.
pub proof fn law_unreadable_amounts_are_refused(
    gate: Option<&ReadinessGate>,
    journal: &BusinessJournal,
    quota: &mut Option<QuotaLedger>,
    req: &LimitOrderRequest,
    ts_init_ns: u64,
    step: SubmitStep,
    reason: Seq<char>,
)
    requires
        call_ensures(begin_submit, (gate, journal, quota, req, ts_init_ns), step),
        *old(quota) is Some,
        gate matches Some(gate) ==> gate.state() == Readiness::Ready,
        journal@.found(request_key(req.submitter_id@, "SubmitOrder"@, req.request_id@)) == Ok::<
            Option<RequestRecord>,
            Seq<char>,
        >(None),
        parsed_amount(req.quantity@) == Err::<Amount, Seq<char>>(reason) || (req.side
            == OrderSide::Buy && parsed_amount(req.quantity@) is Ok && parsed_amount(req.price@)
            == Err::<Amount, Seq<char>>(reason)),
    ensures
        step matches SubmitStep::Answered(Err(BridgeError::Order(text))) && text@
            == "order construction error: "@ + reason,
        ledger_of(*final(quota)) == ledger_of(*old(quota)),
{
}

/// A sell reserves its quantity out of the strategy's holdings of the instrument,
/// whatever its price, its time in force and its instructions are, and no cash. It
/// is admitted only if that much is left, and refused only if it is not; the refusal
/// names the quantity and what is left. Without an admission nothing is held.
pub proof fn law_sell_reserves_its_quantity(
    gate: Option<&ReadinessGate>,
    journal: &BusinessJournal,
    quota: &mut Option<QuotaLedger>,
    req: &LimitOrderRequest,
    ts_init_ns: u64,
    step: SubmitStep,
    ledger: QuotaLedger,
    quantity: Amount,
    strategy_id: &str,
    instrument_id: &str,
    available: Option<Amount>,
    scale: nat,
)
    requires
        call_ensures(begin_submit, (gate, journal, quota, req, ts_init_ns), step),
        *old(quota) == Some(ledger),
        req.side == OrderSide::Sell,
        parsed_amount(req.quantity@) == Ok::<Amount, Seq<char>>(quantity),
        strategy_id@ == req.strategy_id@,
        instrument_id@ == req.instrument_id@,
        call_ensures(
            QuotaLedger::checked_sellable,
            (&ledger, strategy_id, instrument_id),
            available,
        ),
        ledger@.exact_holding(strategy_id@, instrument_id@, scale),
        ledger@.issued < u64::MAX,
    ensures
        step matches SubmitStep::Commit(submission) ==> {
            let after = (*final(quota))->0@;
            &&& *final(quota) is Some
            &&& submission.hold matches Some(id) && id.value() == ledger@.issued + 1
            &&& after.holding_headroom(strategy_id@, instrument_id@) == ledger@.holding_headroom(
                strategy_id@,
                instrument_id@,
            ) - quantity.units()
            &&& forall|s: Seq<char>, i: Seq<char>|
                s != strategy_id@ || i != instrument_id@ ==> (#[trigger] after.holding_headroom(
                    s,
                    i,
                )) == ledger@.holding_headroom(s, i)
            &&& forall|s: Seq<char>| (#[trigger] after.headroom(s)) == ledger@.headroom(s)
            &&& after.account_headroom() == ledger@.account_headroom()
            &&& quantity.units() <= 0 || quantity.units() <= ledger@.holding_headroom(
                strategy_id@,
                instrument_id@,
            )
        },
        !(step is Commit) ==> ledger_of(*final(quota)) == Some(ledger@),
        !(step is OutOfRange),
        journal@.found(
            request_key(req.submitter_id@, "SubmitOrder"@, req.request_id@),
        ) == Ok::<Option<RequestRecord>, Seq<char>>(None) && (gate matches Some(gate)
            ==> gate.state() == Readiness::Ready) ==> if quantity.units() <= 0 || quantity.units()
            <= ledger@.holding_headroom(strategy_id@, instrument_id@) {
            step is Commit
        } else {
            step matches SubmitStep::Answered(Err(BridgeError::Order(text))) && text@
                == "order construction error: "@ + ("sellable quantity for "@ + req.strategy_id@
                + " on "@ + req.instrument_id@ + (": requested "@ + amount_text(quantity)
                + ", available "@ + amount_text(available->0)))
        },
{
    let hold = HoldView::SellQuantity {
        strategy_id: req.strategy_id@,
        instrument_id: req.instrument_id@,
        quantity,
    };
    lemma_zero();
    law_hold_takes_what_it_reserves(ledger@, hold);
    let held = ledger@.with_hold(hold);
    assert(held.holding_headroom(strategy_id@, instrument_id@) == ledger@.holding_headroom(
        strategy_id@,
        instrument_id@,
    ) - counted(hold, Count::Holding(strategy_id@, instrument_id@)).units());
    assert forall|s: Seq<char>, i: Seq<char>|
        s != strategy_id@ || i != instrument_id@ implies (#[trigger] held.holding_headroom(s, i))
        == ledger@.holding_headroom(s, i) by {
        assert(held.holding_headroom(s, i) == ledger@.holding_headroom(s, i) - counted(
            hold,
            Count::Holding(s, i),
        ).units());
    }
}

/// An admitted buy has cost its quantity times its price: after the submission the
/// strategy and the account each have less left by exactly that product, and nobody
/// else does.
pub proof fn law_admitted_buy_costs_quantity_times_price(
    bridge: &mut OrderHubBridge,
    req: &LimitOrderRequest,
    ts_init_ns: u64,
    placed: Result<(), BridgeError>,
    receipt: AdmissionReceipt,
    ledger: LedgerView,
    quantity: Amount,
    price: Amount,
    notional: Option<Amount>,
    committed: Amount,
    total: Option<Amount>,
)
    requires
        call_ensures(
            OrderHubBridge::checked_submit_limit_order,
            (bridge, req, ts_init_ns, placed),
            Some(Ok::<AdmissionReceipt, BridgeError>(receipt)),
        ) || call_ensures(
            OrderHubBridge::submit_limit_order,
            (bridge, req, ts_init_ns, placed),
            Ok::<AdmissionReceipt, BridgeError>(receipt),
        ),
        !receipt.already_admitted,
        old(bridge).ledger() == Some(ledger),
        ledger.valid(),
        req.side == OrderSide::Buy,
        parsed_amount(req.quantity@) == Ok::<Amount, Seq<char>>(quantity),
        parsed_amount(req.price@) == Ok::<Amount, Seq<char>>(price),
        call_ensures(Amount::checked_mul, (quantity, price), notional),
        -MAX_MANTISSA <= quantity.mantissa() * price.mantissa() <= MAX_MANTISSA,
        quantity.scale() + price.scale() <= MAX_SCALE,
        committed == amount_at(ledger.committed_buy, strategy_key(req.strategy_id@)),
        call_ensures(Amount::checked_add, (committed, notional->0), total),
        exact_at(committed.units() + notional->0.units(), committed, notional->0),
    ensures
        final(bridge).ledger() matches Some(after) && {
            let product = quantity.units() * price.units();
            &&& pow10(MAX_SCALE as nat) * (ledger.headroom(req.strategy_id@) - after.headroom(
                req.strategy_id@,
            )) == product
            &&& pow10(MAX_SCALE as nat) * (ledger.account_headroom() - after.account_headroom())
                == product
            &&& forall|s: Seq<char>|
                s != req.strategy_id@ ==> (#[trigger] after.headroom(s)) == ledger.headroom(s)
            &&& forall|s: Seq<char>, i: Seq<char>|
                (#[trigger] after.holding_headroom(s, i)) == ledger.holding_headroom(s, i)
        },
{
    let n = notional->0;
    let s = req.strategy_id@;
    let hold = HoldView::BuyNotional { strategy_id: s, notional: n };
    let held = ledger.with_hold(hold);
    let id = (ledger.issued + 1) as u64;
    lemma_zero();
    law_hold_takes_what_it_reserves(ledger, hold);
    law_release_undoes_hold(ledger, hold);
    law_commit_keeps_availability(held, id);
    let after = held.with_commit(id)->0;
    assert(final(bridge).ledger() == Some(after));
    assert(held.headroom(s) == ledger.headroom(s) - counted(hold, Count::Strategy(s)).units());
    assert(after.headroom(s) == held.headroom(s));
    assert forall|other: Seq<char>| other != s implies (#[trigger] after.headroom(other))
        == ledger.headroom(other) by {
        assert(after.headroom(other) == held.headroom(other));
        assert(held.headroom(other) == ledger.headroom(other) - counted(
            hold,
            Count::Strategy(other),
        ).units());
    }
    assert forall|other: Seq<char>, i: Seq<char>|
        (#[trigger] after.holding_headroom(other, i)) == ledger.holding_headroom(other, i) by {
        assert(after.holding_headroom(other, i) == held.holding_headroom(other, i));
    }
    let unit = pow10(MAX_SCALE as nat) as int;
    let product = quantity.units() * price.units();
    lemma_taken_product(ledger.headroom(s), after.headroom(s), n.units(), product, unit);
    lemma_taken_product(
        ledger.account_headroom(),
        after.account_headroom(),
        n.units(),
        product,
        unit,
    );
}

/// An admitted sell has cost its quantity: after the submission the strategy can
/// sell that much less of the instrument, and neither cash nor other holdings have
/// changed.
pub proof fn law_admitted_sell_costs_its_quantity(
    bridge: &mut OrderHubBridge,
    req: &LimitOrderRequest,
    ts_init_ns: u64,
    placed: Result<(), BridgeError>,
    receipt: AdmissionReceipt,
    ledger: LedgerView,
    quantity: Amount,
    committed: Amount,
    total: Option<Amount>,
)
    requires
        call_ensures(
            OrderHubBridge::checked_submit_limit_order,
            (bridge, req, ts_init_ns, placed),
            Some(Ok::<AdmissionReceipt, BridgeError>(receipt)),
        ) || call_ensures(
            OrderHubBridge::submit_limit_order,
            (bridge, req, ts_init_ns, placed),
            Ok::<AdmissionReceipt, BridgeError>(receipt),
        ),
        !receipt.already_admitted,
        old(bridge).ledger() == Some(ledger),
        ledger.valid(),
        req.side == OrderSide::Sell,
        parsed_amount(req.quantity@) == Ok::<Amount, Seq<char>>(quantity),
        committed == amount_at(
            ledger.committed_sell,
            holding_key(req.strategy_id@, req.instrument_id@),
        ),
        call_ensures(Amount::checked_add, (committed, quantity), total),
        exact_at(committed.units() + quantity.units(), committed, quantity),
    ensures
        final(bridge).ledger() matches Some(after) && {
            &&& after.holding_headroom(req.strategy_id@, req.instrument_id@)
                == ledger.holding_headroom(req.strategy_id@, req.instrument_id@)
                - quantity.units()
            &&& forall|s: Seq<char>, i: Seq<char>|
                s != req.strategy_id@ || i != req.instrument_id@ ==> (
                #[trigger] after.holding_headroom(s, i)) == ledger.holding_headroom(s, i)
            &&& forall|s: Seq<char>| (#[trigger] after.headroom(s)) == ledger.headroom(s)
            &&& after.account_headroom() == ledger.account_headroom()
        },
{
    let s = req.strategy_id@;
    let i = req.instrument_id@;
    let hold = HoldView::SellQuantity { strategy_id: s, instrument_id: i, quantity };
    let held = ledger.with_hold(hold);
    let id = (ledger.issued + 1) as u64;
    lemma_zero();
    law_hold_takes_what_it_reserves(ledger, hold);
    law_release_undoes_hold(ledger, hold);
    law_commit_keeps_availability(held, id);
    let after = held.with_commit(id)->0;
    assert(final(bridge).ledger() == Some(after));
    assert forall|a: Seq<char>, b: Seq<char>|
        (#[trigger] after.holding_headroom(a, b)) == ledger.holding_headroom(a, b) - counted(
            hold,
            Count::Holding(a, b),
        ).units() by {
        assert(after.holding_headroom(a, b) == held.holding_headroom(a, b));
    }
    assert(after.holding_headroom(s, i) == ledger.holding_headroom(s, i) - counted(
        hold,
        Count::Holding(s, i),
    ).units());
    assert forall|a: Seq<char>| (#[trigger] after.headroom(a)) == ledger.headroom(a) by {
        assert(after.headroom(a) == held.headroom(a));
    }
}

/// A submission that fails costs nothing: nobody has more or less left than before,
/// whether it was refused, could not be constructed or could not be placed. Where
/// nothing was journaled, the request was not admitted.
pub proof fn law_failed_submission_costs_nothing(
    bridge: &mut OrderHubBridge,
    req: &LimitOrderRequest,
    ts_init_ns: u64,
    placed: Result<(), BridgeError>,
    error: BridgeError,
    ledger: LedgerView,
)
    requires
        call_ensures(
            OrderHubBridge::checked_submit_limit_order,
            (bridge, req, ts_init_ns, placed),
            Some(Err::<AdmissionReceipt, BridgeError>(error)),
        ) || call_ensures(
            OrderHubBridge::submit_limit_order,
            (bridge, req, ts_init_ns, placed),
            Err::<AdmissionReceipt, BridgeError>(error),
        ),
        old(bridge).ledger() == Some(ledger),
        ledger.valid(),
        old(bridge).journal_view().last_seq < u64::MAX - 1,
    ensures
        final(bridge).ledger() matches Some(after) && {
            &&& forall|s: Seq<char>| (#[trigger] after.headroom(s)) == ledger.headroom(s)
            &&& after.account_headroom() == ledger.account_headroom()
            &&& forall|s: Seq<char>, i: Seq<char>|
                (#[trigger] after.holding_headroom(s, i)) == ledger.holding_headroom(s, i)
        },
{
    match opening(
        gate_state(old(bridge).gate_ref()),
        old(bridge).journal_view(),
        old(bridge).ledger(),
        *req,
    ) {
        Opening::Admit(Some(hold)) => {
            law_release_undoes_hold(ledger, hold);
            assert(final(bridge).ledger() == Some(
                LedgerView { issued: (ledger.issued + 1) as u64, ..ledger },
            ));
        },
        _ => {
            assert(final(bridge).ledger() == Some(ledger));
        },
    }
}

/// When the sequence numbers are used up nothing is admitted: the submission fails, the
/// journal stays as it was, and nothing is held for it. With one number left the
/// admission is recorded, its outcome is not, and what was held stays held.
pub proof fn law_used_up_numbers_admit_nothing(
    bridge: &mut OrderHubBridge,
    req: &LimitOrderRequest,
    ts_init_ns: u64,
    placed: Result<(), BridgeError>,
    answer: Result<AdmissionReceipt, BridgeError>,
    ledger: LedgerView,
    trader_id: &str,
    client_order_id: &str,
    checked: Result<(), BridgeError>,
)
    requires
        call_ensures(
            OrderHubBridge::checked_submit_limit_order,
            (bridge, req, ts_init_ns, placed),
            Some(answer),
        ) || call_ensures(
            OrderHubBridge::submit_limit_order,
            (bridge, req, ts_init_ns, placed),
            answer,
        ),
        old(bridge).ledger() == Some(ledger),
        ledger.valid(),
        old(bridge).journal_view().found(
            request_key(req.submitter_id@, "SubmitOrder"@, req.request_id@),
        ) == Ok::<Option<RequestRecord>, Seq<char>>(None),
        old(bridge).journal_view().last_seq >= u64::MAX - 1,
        trader_id@ == old(bridge).trader(),
        client_order_id@ == order_id(
            old(bridge).journal_view().epoch,
            (old(bridge).journal_view().last_seq + 1) as u64,
        ),
        call_ensures(check_limit_order, (trader_id, req, client_order_id, ts_init_ns), checked),
    ensures
        answer is Err,
        old(bridge).journal_view().last_seq == u64::MAX ==> final(bridge).journal_view()
            == old(bridge).journal_view() && (final(bridge).ledger() matches Some(after) && {
            &&& forall|s: Seq<char>| (#[trigger] after.headroom(s)) == ledger.headroom(s)
            &&& after.account_headroom() == ledger.account_headroom()
            &&& forall|s: Seq<char>, i: Seq<char>|
                (#[trigger] after.holding_headroom(s, i)) == ledger.holding_headroom(s, i)
        }),
        old(bridge).journal_view().last_seq == u64::MAX - 1 && checked is Ok && placed is Ok
            && final(bridge).journal_view() != old(bridge).journal_view() ==> {
            &&& final(bridge).journal_view().last_seq == u64::MAX
            &&& final(bridge).ledger() matches Some(after)
            &&& after.tentative.len() == ledger.tentative.len() + 1
            &&& after.tentative.drop_last() == ledger.tentative
        },
{
    match opening(
        gate_state(old(bridge).gate_ref()),
        old(bridge).journal_view(),
        old(bridge).ledger(),
        *req,
    ) {
        Opening::Admit(Some(hold)) => {
            law_release_undoes_hold(ledger, hold);
            let held = ledger.with_hold(hold);
            assert(held.tentative.drop_last() =~= ledger.tentative);
            if old(bridge).journal_view().last_seq == u64::MAX {
                assert(final(bridge).ledger() == Some(
                    LedgerView { issued: (ledger.issued + 1) as u64, ..ledger },
                ));
            }
        },
        _ => {
            assert(final(bridge).ledger() == Some(ledger));
        },
    }
}

/// A cancel request needs two sequence numbers: without any the journal stays as it
/// was, with one the admission is recorded, and in both cases the request fails.
pub proof fn law_used_up_numbers_cancel_nothing(
    bridge: &mut OrderHubBridge,
    submitter_id: &str,
    request_id: &str,
    client_order_id: &str,
    ts_init_ns: u64,
    answer: Result<AdmissionReceipt, BridgeError>,
)
    requires
        call_ensures(
            OrderHubBridge::cancel_order,
            (bridge, submitter_id, request_id, client_order_id, ts_init_ns),
            answer,
        ),
        old(bridge).journal_view().found(
            request_key(submitter_id@, "CancelOrder"@, request_id@),
        ) == Ok::<Option<RequestRecord>, Seq<char>>(None),
    ensures
        answer is Err <==> old(bridge).journal_view().last_seq >= u64::MAX - 1,
        old(bridge).journal_view().last_seq == u64::MAX ==> final(bridge).journal_view()
            == old(bridge).journal_view(),
        old(bridge).journal_view().last_seq == u64::MAX - 1 ==> final(bridge).journal_view().last_seq
            == u64::MAX,
        old(bridge).journal_view().last_seq < u64::MAX - 1 ==> final(bridge).journal_view().last_seq
            == old(bridge).journal_view().last_seq + 2,
{
}

/// A retry is answered with the order ID that the latest outcome names, if it is that
/// of the admission or of its dispatch, and else with the one that its own epoch and
/// number make; with another fingerprint it is refused.
pub proof fn law_retry_names_the_recorded_order(
    record: RequestRecord,
    req: &LimitOrderRequest,
    fingerprint: String,
    derived: String,
    r: Result<AdmissionReceipt, BridgeError>,
)
    requires
        call_ensures(receipt_for_existing, (record, req, fingerprint), r),
        call_ensures(
            derive_client_order_id,
            (record.admission.journal_epoch, record.admission.seq),
            derived,
        ),
    ensures
        r is Ok <==> record.admission.request_fingerprint@ == fingerprint@,
        r matches Ok(receipt) ==> {
            &&& receipt.already_admitted
            &&& receipt.seq == record.admission.seq
            &&& receipt.journal_epoch == record.admission.journal_epoch
            &&& record.outcome matches Some(JournalOutcome::Admitted { client_order_id })
                ==> receipt.client_order_id@ == client_order_id@
            &&& record.outcome matches Some(JournalOutcome::DispatchStarted { client_order_id })
                ==> receipt.client_order_id@ == client_order_id@
            &&& record.outcome is None ==> receipt.client_order_id@ == derived@
            &&& record.outcome matches Some(outcome) ==> (!(outcome is Admitted)
                && !(outcome is DispatchStarted) ==> receipt.client_order_id@ == derived@)
        },
        r matches Err(error) ==> (error matches BridgeError::IdempotencyConflict {
            submitter_id,
            request_id,
            original_fingerprint,
            new_fingerprint,
        } && submitter_id@ == req.submitter_id@ && request_id@ == req.request_id@
            && original_fingerprint@ == record.admission.request_fingerprint@ && new_fingerprint@
            == fingerprint@),
{
}

// ---------------------------------------------------------------------------
// Steps
// ---------------------------------------------------------------------------

/// What is to be committed for a submission is the request as it was asked for, with
/// a fingerprint that is made of the record's own fields.
pub proof fn law_submission_commits_the_request(
    gate: Option<&ReadinessGate>,
    journal: &BusinessJournal,
    quota: &mut Option<QuotaLedger>,
    req: &LimitOrderRequest,
    ts_init_ns: u64,
    submission: Submission,
)
    requires
        call_ensures(
            begin_submit,
            (gate, journal, quota, req, ts_init_ns),
            SubmitStep::Commit(submission),
        ),
    ensures
        ({
            let record = submission.record;
            &&& record.submitter_id@ == req.submitter_id@
            &&& record.request_id@ == req.request_id@
            &&& record.request_kind@ == "SubmitOrder"@
            &&& record.strategy_id@ == req.strategy_id@
            &&& record.instrument_id@ == req.instrument_id@
            &&& record.order_side@ == (if req.side == OrderSide::Buy {
                "BUY"@
            } else {
                "SELL"@
            })
            &&& record.quantity@ == req.quantity@
            &&& record.price@ == req.price@
            &&& record.time_in_force@ == (match req.time_in_force {
                TimeInForce::Gtc => "GTC"@,
                TimeInForce::Ioc => "IOC"@,
                TimeInForce::Fok => "FOK"@,
                TimeInForce::Gtd => "GTD"@,
                TimeInForce::Day => "DAY"@,
                TimeInForce::AtTheOpen => "AT_THE_OPEN"@,
                TimeInForce::AtTheClose => "AT_THE_CLOSE"@,
            })
            &&& record.post_only == req.post_only
            &&& record.reduce_only == req.reduce_only
            &&& record.submit_before_ns == req.submit_before_ns
            &&& record.ts_init_ns == ts_init_ns
            &&& record.request_fingerprint@ == joined(
                seq![
                    "LIMIT"@,
                    record.strategy_id@,
                    match req.client_id {
                        Some(id) => id@,
                        None => "-"@,
                    },
                    record.instrument_id@,
                    record.order_side@,
                    record.quantity@,
                    record.price@,
                    record.time_in_force@,
                    if record.post_only {
                        "true"@
                    } else {
                        "false"@
                    },
                    if record.reduce_only {
                        "true"@
                    } else {
                        "false"@
                    },
                    match record.submit_before_ns {
                        Some(ns) => numeral(ns as nat),
                        None => "-"@,
                    },
                ],
                '|',
            )
        }),
        gate matches Some(gate) ==> gate.state() == Readiness::Ready,
        journal@.found(request_key(req.submitter_id@, "SubmitOrder"@, req.request_id@)) == Ok::<
            Option<RequestRecord>,
            Seq<char>,
        >(None),
        submission.hold is Some <==> *old(quota) is Some,
{
    lemma_record_tells_the_request(submission.record, *req, ts_init_ns);
}

/// A hub that is not ready admits nothing: the journal and the quota stay as they
/// are, and the refusal names the state and its reason.
pub proof fn law_closed_hub_admits_nothing(
    bridge: &mut OrderHubBridge,
    req: &LimitOrderRequest,
    ts_init_ns: u64,
    placed: Result<(), BridgeError>,
    answer: Option<Result<AdmissionReceipt, BridgeError>>,
    gate: ReadinessGate,
)
    requires
        call_ensures(
            OrderHubBridge::checked_submit_limit_order,
            (bridge, req, ts_init_ns, placed),
            answer,
        ) || (answer is Some && call_ensures(
            OrderHubBridge::submit_limit_order,
            (bridge, req, ts_init_ns, placed),
            answer->0,
        )),
        old(bridge).installed_gate() == Some(gate),
        gate.state() != Readiness::Ready,
    ensures
        final(bridge).journal_view() == old(bridge).journal_view(),
        final(bridge).ledger() == old(bridge).ledger(),
        answer matches Some(Err(BridgeError::NotReady { state, reason })) && reason@
            == gate.reason() && state@ == (match gate.state() {
            Readiness::Booting => "booting"@,
            Readiness::Restoring => "restoring"@,
            Readiness::Ready => "ready"@,
            Readiness::Halted => "halted"@,
        }),
{
}

/// What is admitted can be placed: a new admission is answered with a receipt only if
/// its order was constructed and placed, and with a receipt it is, unless an amount is
/// out of range. An order that is not constructed is refused with the reason, and its
/// admission stays in the journal.
pub proof fn law_admitted_orders_were_constructed_and_placed(
    bridge: &mut OrderHubBridge,
    req: &LimitOrderRequest,
    ts_init_ns: u64,
    placed: Result<(), BridgeError>,
    answer: Option<Result<AdmissionReceipt, BridgeError>>,
    trader_id: &str,
    client_order_id: &str,
    checked: Result<(), BridgeError>,
)
    requires
        call_ensures(
            OrderHubBridge::checked_submit_limit_order,
            (bridge, req, ts_init_ns, placed),
            answer,
        ) || (answer is Some && call_ensures(
            OrderHubBridge::submit_limit_order,
            (bridge, req, ts_init_ns, placed),
            answer->0,
        )),
        trader_id@ == old(bridge).trader(),
        old(bridge).journal_view().intact(),
        old(bridge).journal_view().last_seq < u64::MAX - 1,
        client_order_id@ == order_id(
            old(bridge).journal_view().epoch,
            (old(bridge).journal_view().last_seq + 1) as u64,
        ),
        call_ensures(check_limit_order, (trader_id, req, client_order_id, ts_init_ns), checked),
        final(bridge).journal_view() != old(bridge).journal_view(),
    ensures
        answer matches Some(Ok(receipt)) ==> checked is Ok && placed is Ok
            && receipt.client_order_id@ == client_order_id@ && final(bridge).journal_view().last_seq
            == old(bridge).journal_view().last_seq + 2,
        checked matches Err(BridgeError::Order(reason)) ==> (answer matches Some(
            Err(BridgeError::Order(text)),
        ) && text@ == reason@ && final(bridge).journal_view().last_seq
            == old(bridge).journal_view().last_seq + 1),
        checked is Ok && placed is Err ==> answer == Some(
            Err::<AdmissionReceipt, BridgeError>(placed->Err_0),
        ),
        checked is Ok && placed is Ok ==> answer is None || answer->0 is Ok,
        checked is Ok && placed is Ok && old(bridge).ledger() is None ==> answer matches Some(Ok(_)),
{
}

// ---------------------------------------------------------------------------
// Retries
// ---------------------------------------------------------------------------

/// A request that was admitted is admitted once: sent again, it is answered with
/// the admission that it has, and sent again with other terms under the same ID, it
/// is refused as a conflict. Neither time is anything journaled or held.
pub proof fn law_request_is_admitted_once(
    bridge: &mut OrderHubBridge,
    req: &LimitOrderRequest,
    ts_init_ns: u64,
    placed: Result<(), BridgeError>,
    receipt: AdmissionReceipt,
    later: &mut OrderHubBridge,
    retry: &LimitOrderRequest,
    retry_ts_init_ns: u64,
    retry_placed: Result<(), BridgeError>,
    answer: Option<Result<AdmissionReceipt, BridgeError>>,
)
    requires
        call_ensures(
            OrderHubBridge::checked_submit_limit_order,
            (bridge, req, ts_init_ns, placed),
            Some(Ok::<AdmissionReceipt, BridgeError>(receipt)),
        ),
        !receipt.already_admitted,
        old(bridge).journal_view().intact(),
        old(bridge).journal_view().last_seq < u64::MAX - 1,
        old(later).journal_view() == final(bridge).journal_view(),
        old(later).installed_gate() matches Some(gate) ==> gate.state() == Readiness::Ready,
        call_ensures(
            OrderHubBridge::checked_submit_limit_order,
            (later, retry, retry_ts_init_ns, retry_placed),
            answer,
        ) || (answer is Some && call_ensures(
            OrderHubBridge::submit_limit_order,
            (later, retry, retry_ts_init_ns, retry_placed),
            answer->0,
        )),
        retry.submitter_id@ == req.submitter_id@,
        retry.request_id@ == req.request_id@,
    ensures
        final(later).journal_view() == old(later).journal_view(),
        final(later).ledger() == old(later).ledger(),
        retry.strategy_id@ == req.strategy_id@ && retry.instrument_id@ == req.instrument_id@
            && retry.side == req.side && retry.quantity@ == req.quantity@ && retry.price@
            == req.price@ && retry.time_in_force == req.time_in_force && retry.post_only
            == req.post_only && retry.reduce_only == req.reduce_only && retry.submit_before_ns
            == req.submit_before_ns && (match (retry.client_id, req.client_id) {
            (Some(a), Some(b)) => a@ == b@,
            (None, None) => true,
            _ => false,
        }) ==> (answer matches Some(Ok(again)) && again.already_admitted && again.seq
            == receipt.seq && again.journal_epoch == receipt.journal_epoch
            && again.client_order_id@ == receipt.client_order_id@),
        is_bar_free(*req) && is_bar_free(*retry) && routing_is_clear(*req) && routing_is_clear(
            *retry,
        ) && (retry.strategy_id@ != req.strategy_id@ || retry.instrument_id@
            != req.instrument_id@ || retry.side != req.side || retry.quantity@ != req.quantity@
            || retry.price@ != req.price@ || retry.time_in_force != req.time_in_force
            || retry.post_only != req.post_only || retry.reduce_only != req.reduce_only
            || retry.submit_before_ns != req.submit_before_ns || (retry.client_id is Some)
            != (req.client_id is Some)) ==> (answer matches Some(
            Err(
                BridgeError::IdempotencyConflict {
                    submitter_id,
                    request_id,
                    original_fingerprint,
                    new_fingerprint,
                },
            ),
        ) && submitter_id@ == req.submitter_id@ && request_id@ == req.request_id@
            && original_fingerprint@ != new_fingerprint@),
{
    let before = old(bridge).journal_view();
    let after = final(bridge).journal_view();
    let key = submit_key(*req);
    let seq = (before.last_seq + 1) as u64;
    let record = choose|record: AdmissionRecord| #[trigger]
        is_submission(record, *req, ts_init_ns) && exists|outcome: JournalOutcome| #[trigger]
            is_admitted(outcome, order_id(before.epoch, seq)) && after == before.with_entry(
                PendingEntry::Admission(Box::new(record)),
            ).with_entry(PendingEntry::Outcome { origin_seq: seq, outcome });
    let item = PendingEntry::Admission(Box::new(record));
    let admitted = before.with_entry(item);
    let outcome = choose|outcome: JournalOutcome| #[trigger]
        is_admitted(outcome, order_id(before.epoch, seq)) && after == admitted.with_entry(
            PendingEntry::Outcome { origin_seq: seq, outcome },
        );
    assert(record.key() == key);
    law_lookup_succeeds(before, key);
    law_append_only(before, item);
    law_admission_is_found(before, record);
    law_lookup_succeeds(admitted, key);
    law_outcome_is_latest(admitted, key, outcome);
    assert(submit_key(*retry) == key);
    assert(after.found(key) matches Ok(Some(known)));
    if fingerprint_text(*retry) == fingerprint_text(*req) {
        if is_bar_free(*req) && is_bar_free(*retry) && routing_is_clear(*req) && routing_is_clear(
            *retry,
        ) {
            law_fingerprint_covers_all_fields(*req, *retry);
        }
    } else {
        assert(fingerprint_parts(*retry) =~= fingerprint_parts(*req) ==> fingerprint_text(*retry)
            == fingerprint_text(*req));
    }
}

// ---------------------------------------------------------------------------
// Cancel requests
// ---------------------------------------------------------------------------

/// What the journal holds of an admitted cancel request names the order that is to
/// be cancelled, in its target and in its fingerprint, and so does its outcome and
/// the receipt. Sent again, the request is answered with the admission that it has;
/// for another order it is refused as a conflict, and nothing is journaled.
pub proof fn law_cancel_records_the_order(
    bridge: &mut OrderHubBridge,
    submitter_id: &str,
    request_id: &str,
    client_order_id: &str,
    ts_init_ns: u64,
    receipt: AdmissionReceipt,
    journal: BusinessJournal,
    found: Result<Option<RequestRecord>, JournalError>,
    later: &mut OrderHubBridge,
    other_order_id: &str,
    later_ts_init_ns: u64,
    answer: Result<AdmissionReceipt, BridgeError>,
)
    requires
        call_ensures(
            OrderHubBridge::cancel_order,
            (bridge, submitter_id, request_id, client_order_id, ts_init_ns),
            Ok::<AdmissionReceipt, BridgeError>(receipt),
        ),
        !receipt.already_admitted,
        old(bridge).journal_view().intact(),
        old(bridge).journal_view().last_seq < u64::MAX - 1,
        journal@ == final(bridge).journal_view(),
        call_ensures(
            BusinessJournal::find_request,
            (&journal, submitter_id, "CancelOrder", request_id),
            found,
        ),
        old(later).journal_view() == final(bridge).journal_view(),
        call_ensures(
            OrderHubBridge::cancel_order,
            (later, submitter_id, request_id, other_order_id, later_ts_init_ns),
            answer,
        ),
    ensures
        final(bridge).ledger() == old(bridge).ledger(),
        found matches Ok(Some(known)) && {
            let record = known.admission;
            &&& record.submitter_id@ == submitter_id@
            &&& record.request_id@ == request_id@
            &&& record.request_kind@ == "CancelOrder"@
            &&& record.request_fingerprint@ == "CANCEL|"@ + client_order_id@
            &&& record.instrument_id@ == "CANCEL:"@ + client_order_id@
            &&& record.order_side@ == "CANCEL"@
            &&& record.strategy_id@ == "-"@
            &&& record.quantity@ == "-"@
            &&& record.price@ == "-"@
            &&& record.time_in_force@ == "-"@
            &&& record.ts_init_ns == ts_init_ns
            &&& record.seq == old(bridge).journal_view().last_seq + 1
            &&& record.journal_epoch == old(bridge).journal_view().epoch
            &&& known.outcome matches Some(JournalOutcome::Admitted { client_order_id: id }) && id@
                == client_order_id@
            &&& receipt.seq == record.seq
            &&& receipt.journal_epoch == record.journal_epoch
        },
        receipt.client_order_id@ == client_order_id@,
        final(later).journal_view() == old(later).journal_view(),
        final(later).ledger() == old(later).ledger(),
        other_order_id@ == client_order_id@ ==> (answer matches Ok(again) && again.already_admitted
            && again.seq == receipt.seq && again.journal_epoch == receipt.journal_epoch
            && again.client_order_id@ == client_order_id@),
        other_order_id@ != client_order_id@ ==> (answer matches Err(
            BridgeError::IdempotencyConflict {
                submitter_id: submitter,
                request_id: request,
                original_fingerprint,
                new_fingerprint,
            },
        ) && submitter@ == submitter_id@ && request@ == request_id@ && original_fingerprint@
            == "CANCEL|"@ + client_order_id@ && new_fingerprint@ == "CANCEL|"@ + other_order_id@),
{
    let before = old(bridge).journal_view();
    let after = final(bridge).journal_view();
    let key = cancel_key(submitter_id@, request_id@);
    let seq = (before.last_seq + 1) as u64;
    let record = choose|record: AdmissionRecord| #[trigger]
        is_cancellation(record, submitter_id@, request_id@, client_order_id@, ts_init_ns)
            && exists|outcome: JournalOutcome| #[trigger]
            is_admitted(outcome, client_order_id@) && after == before.with_entry(
                PendingEntry::Admission(Box::new(record)),
            ).with_entry(PendingEntry::Outcome { origin_seq: seq, outcome });
    let item = PendingEntry::Admission(Box::new(record));
    let admitted = before.with_entry(item);
    let outcome = choose|outcome: JournalOutcome| #[trigger]
        is_admitted(outcome, client_order_id@) && after == admitted.with_entry(
            PendingEntry::Outcome { origin_seq: seq, outcome },
        );
    assert(record.key() == key);
    law_lookup_succeeds(before, key);
    law_append_only(before, item);
    law_admission_is_found(before, record);
    law_lookup_succeeds(admitted, key);
    law_outcome_is_latest(admitted, key, outcome);
    let head = "CANCEL:"@;
    let marked = head + client_order_id@;
    assert(marked.take(head.len() as int) =~= head);
    assert(marked.skip(head.len() as int) =~= client_order_id@);
    let mark = "CANCEL|"@;
    assert((mark + client_order_id@).skip(mark.len() as int) =~= client_order_id@);
    assert((mark + other_order_id@).skip(mark.len() as int) =~= other_order_id@);
}

/// A cancel is dispatched for the live order and on behalf of the hub's trader,
/// exactly once: where the request has just been admitted and the order is live.
pub proof fn law_cancel_is_dispatched_for_the_live_order(
    trader_id: &str,
    answer: Result<AdmissionReceipt, BridgeError>,
    live: Option<LiveOrder>,
    ts_init_ns: u64,
    command: Option<CancelCommand>,
)
    requires
        call_ensures(cancel_command, (trader_id, &answer, live, ts_init_ns), command),
    ensures
        command is Some <==> live is Some && answer is Ok && !answer->Ok_0.already_admitted,
        command matches Some(cancel) ==> {
            &&& cancel.trader_id@ == trader_id@
            &&& cancel.strategy_id@ == live->0.strategy_id@
            &&& cancel.instrument_id@ == live->0.instrument_id@
            &&& cancel.client_order_id@ == live->0.client_order_id@
            &&& cancel.ts_init_ns == ts_init_ns
        },
{
}

/// A cancel that goes through the bridge is dispatched on behalf of its trader and
/// for the live order, exactly where its request has just been admitted.
pub proof fn law_live_cancel_is_dispatched_once(
    bridge: &mut OrderHubBridge,
    submitter_id: &str,
    request_id: &str,
    client_order_id: &str,
    ts_init_ns: u64,
    live: Option<LiveOrder>,
    answer: Result<AdmissionReceipt, BridgeError>,
    command: Option<CancelCommand>,
)
    requires
        call_ensures(
            OrderHubBridge::cancel_live_order,
            (bridge, submitter_id, request_id, client_order_id, ts_init_ns, live),
            (answer, command),
        ),
    ensures
        command is Some <==> live is Some && answer is Ok && !answer->Ok_0.already_admitted,
        command matches Some(cancel) ==> {
            &&& cancel.trader_id@ == old(bridge).trader()
            &&& cancel.strategy_id@ == live->0.strategy_id@
            &&& cancel.instrument_id@ == live->0.instrument_id@
            &&& cancel.client_order_id@ == live->0.client_order_id@
            &&& cancel.ts_init_ns == ts_init_ns
        },
        command is Some ==> final(bridge).journal_view() != old(bridge).journal_view(),
        final(bridge).journal_view() == old(bridge).journal_view() ==> command is None,
        final(bridge).ledger() == old(bridge).ledger(),
{
    let before = old(bridge).journal_view();
    let after = final(bridge).journal_view();
    if answer is Ok && !answer->Ok_0.already_admitted {
        assert(after.last_seq != before.last_seq);
    }
}

/// What is to be committed for a cancel request names the order, in its target and
/// in its fingerprint.
pub proof fn law_cancel_commits_the_order(
    journal: &BusinessJournal,
    submitter_id: &str,
    request_id: &str,
    client_order_id: &str,
    ts_init_ns: u64,
    record: AdmissionRecord,
)
    requires
        call_ensures(
            begin_cancel,
            (journal, submitter_id, request_id, client_order_id, ts_init_ns),
            CancelStep::Commit(record),
        ),
    ensures
        record.submitter_id@ == submitter_id@,
        record.request_id@ == request_id@,
        record.request_kind@ == "CancelOrder"@,
        record.request_fingerprint@ == "CANCEL|"@ + client_order_id@,
        record.instrument_id@ == "CANCEL:"@ + client_order_id@,
        record.order_side@ == "CANCEL"@,
        record.strategy_id@ == "-"@,
        record.quantity@ == "-"@,
        record.price@ == "-"@,
        record.time_in_force@ == "-"@,
        !record.post_only,
        !record.reduce_only,
        record.submit_before_ns is None,
        record.ts_init_ns == ts_init_ns,
        journal@.found(request_key(submitter_id@, "CancelOrder"@, request_id@)) == Ok::<
            Option<RequestRecord>,
            Seq<char>,
        >(None),
{
}

/// The order of a committed admission is placed under an ID that leads back to the
/// admission, and the outcome and the receipt carry the same ID; the receipt names
/// the admission's own number and epoch.
pub proof fn law_placed_order_leads_back_to_its_admission(
    quota: &mut Option<QuotaLedger>,
    hold: Option<TentativeId>,
    admission: AdmissionRecord,
    placement: Placement,
    placed_quota: &mut Option<QuotaLedger>,
    outcome: JournalOutcome,
    outcome_quota: &mut Option<QuotaLedger>,
    recorded: u64,
    receipt: AdmissionReceipt,
)
    requires
        call_ensures(
            admission_committed,
            (quota, hold, Ok::<AdmissionRecord, JournalError>(admission)),
            Ok::<Placement, BridgeError>(placement),
        ),
        call_ensures(
            order_placed,
            (placed_quota, &placement, Ok::<(), BridgeError>(())),
            Ok::<JournalOutcome, BridgeError>(outcome),
        ),
        call_ensures(
            outcome_committed,
            (outcome_quota, placement, Ok::<u64, JournalError>(recorded)),
            Some(Ok::<AdmissionReceipt, BridgeError>(receipt)),
        ),
    ensures
        placement.admission == admission,
        placement.hold == hold,
        *final(quota) == *old(quota),
        *final(placed_quota) == *old(placed_quota),
        outcome matches JournalOutcome::Admitted { client_order_id } && client_order_id@
            == placement.client_order_id@,
        receipt.client_order_id@ == placement.client_order_id@,
        receipt.seq == admission.seq,
        receipt.journal_epoch == admission.journal_epoch,
        !receipt.already_admitted,
        seq_in_order_id(receipt.client_order_id@) == Some(admission.seq as nat),
{
    law_derived_id_leads_back(admission.journal_epoch, admission.seq);
}

/// The order ID of a receipt leads back to the admission, and no two admissions
/// share one.
pub proof fn law_receipts_name_their_own_orders(
    epoch: u64,
    seq: u64,
    id: String,
    other_epoch: u64,
    other_seq: u64,
    other_id: String,
)
    requires
        call_ensures(derive_client_order_id, (epoch, seq), id),
        call_ensures(derive_client_order_id, (other_epoch, other_seq), other_id),
    ensures
        seq_in_order_id(id@) == Some(seq as nat),
        id@ == other_id@ <==> epoch == other_epoch && seq == other_seq,
        id@.len() > 2 && id@[0] == 'O' && id@[1] == '-',
{
    law_derived_id_leads_back(epoch, seq);
    if id@ == other_id@ {
        law_order_ids_are_unique(epoch, seq, other_epoch, other_seq);
    }
}

/// What an order event records belongs to the admission of its order, and says what
/// the event says: the reason of a denial, the quantity of a fill, the order of a
/// cancellation. Any other event records nothing.
pub proof fn law_order_events_are_recorded(
    epoch: u64,
    seq: u64,
    event: OrderEvent,
    r: Option<(u64, JournalOutcome)>,
)
    requires
        call_ensures(outcome_for_event, (event,), r),
    ensures
        event is Other ==> r is None,
        event matches OrderEvent::Denied { client_order_id, reason } ==> (client_order_id@
            == order_id(epoch, seq) ==> (r matches Some((origin, JournalOutcome::Denied {
            reason: why,
        })) && origin == seq && why@ == reason@)),
        event matches OrderEvent::Filled { client_order_id, last_qty } ==> (client_order_id@
            == order_id(epoch, seq) ==> (r matches Some((origin, JournalOutcome::Filled {
            client_order_id: id,
            filled_qty,
        })) && origin == seq && id@ == client_order_id@ && filled_qty@ == last_qty@)),
        event matches OrderEvent::Canceled { client_order_id } ==> (client_order_id@ == order_id(
            epoch,
            seq,
        ) ==> (r matches Some((origin, JournalOutcome::Canceled { client_order_id: id })) && origin
            == seq && id@ == client_order_id@)),
{
    law_derived_id_leads_back(epoch, seq);
}

/// An order of terms that the execution chain takes is constructed exactly if its
/// quantity is above zero and it needs no expiry, whatever its side, its price and its
/// instructions are; terms that the chain does not take are malformed.
pub proof fn law_orders_are_constructed_from_good_terms(
    trader_id: &str,
    req: &LimitOrderRequest,
    client_order_id: &str,
    ts_init_ns: u64,
    r: Result<(), BridgeError>,
)
    requires
        call_ensures(check_limit_order, (trader_id, req, client_order_id, ts_init_ns), r),
    ensures
        r is Ok <==> is_trader_id(trader_id@) && is_strategy_id(req.strategy_id@)
            && is_instrument_id(req.instrument_id@) && is_identifier(client_order_id@) && (
        canonical_quantity(req.quantity@) matches Some(quantity) && exists|i: int|
            0 <= i < quantity.len() && '1' <= #[trigger] quantity[i] <= '9') && canonical_price(
            req.price@,
        ) is Some && req.time_in_force != TimeInForce::Gtd,
        r is Err ==> r->Err_0 is Order,
{
    if let Some(quantity) = canonical_quantity(req.quantity@) {
        assert forall|i: int| 0 <= i < quantity.len() implies ('1' <= #[trigger] quantity[i] <= '9'
            <==> 0x31 <= quantity[i] as u32 <= 0x39) by {
            lemma_nonzero_digit(quantity[i]);
        }
        if is_above_zero(quantity) {
            let i = choose|i: int|
                0 <= i < quantity.len() && 0x31 <= (#[trigger] quantity[i]) as u32 <= 0x39;
            assert('1' <= quantity[i] <= '9');
        }
        if exists|i: int| 0 <= i < quantity.len() && '1' <= #[trigger] quantity[i] <= '9' {
            let i = choose|i: int| 0 <= i < quantity.len() && '1' <= #[trigger] quantity[i] <= '9';
            assert(0x31 <= quantity[i] as u32 <= 0x39);
        }
    }
}

proof fn lemma_nonzero_digit(c: char)
    ensures
        '1' <= c <= '9' <==> 0x31 <= c as u32 <= 0x39,
{
}

} // verus!
