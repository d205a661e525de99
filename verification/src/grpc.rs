//! gRPC service decisions over the admission bridge.
//!
//! Four calls: submit an order, cancel an order, get the state, and watch the
//! events of the journal. The server reads requests and sends responses; what is
//! answered is decided here.

use vstd::prelude::*;

use crate::auth::{SubmitterCredentials, SubmitterRegistry};
use crate::bridge::{
    admitted_instruments, journal_instrument_ids, AdmissionReceipt, BridgeError,
    LimitOrderRequest, OrderSide, TimeInForce,
};
use crate::identifiers::{
    canonical_price, canonical_quantity, is_instrument_id, is_strategy_id, order_terms,
};
use crate::journal::{
    entries_after, law_scan_has_no_gaps, scanned, BusinessJournal, JournalEntry, JournalOutcome,
    JournalView,
};
use crate::readiness::{Readiness, ReadinessGate};
use crate::text::{
    ascending, insert_ascending, join2, numeral, parse_number, parsed, same, u64_text, views,
};

verus! {

// ---------------------------------------------------------------------------
// Status
// ---------------------------------------------------------------------------

/// The kind of a refusal.
#[derive(Debug, Clone, Copy, PartialEq, Eq, Structural)]
pub enum StatusCode {
    PermissionDenied,
    InvalidArgument,
    AlreadyExists,
    Internal,
}

/// A refusal.
#[derive(Debug)]
pub struct Status {
    pub code: StatusCode,
    pub message: String,
}

impl Status {
    /// The refusal has this code and this message.
    pub open spec fn says(&self, code: StatusCode, message: Seq<char>) -> bool {
        self.code == code && self.message@ == message
    }
}

fn refuse(code: StatusCode, message: &str) -> (r: Status)
    ensures
        r.says(code, message@),
{
    Status { code, message: message.to_owned() }
}

// ---------------------------------------------------------------------------
// Authorization
// ---------------------------------------------------------------------------

/// The credentials that an authorization header carries are those of a
/// submitter.
pub open spec fn header_identifies(
    registry: Seq<SubmitterCredentials>,
    header: Seq<char>,
    credentials: SubmitterCredentials,
) -> bool {
    registry.contains(credentials) && header == "Bearer "@ + credentials.token@
}

/// An authorization header is that of no submitter.
pub open spec fn header_is_unknown(
    registry: Seq<SubmitterCredentials>,
    header: Seq<char>,
) -> bool {
    forall|i: int| 0 <= i < registry.len() ==> header != "Bearer "@ + (#[trigger] registry[i]).token@
}

/// The text of a header; nothing if there is none.
pub open spec fn header_text(header: Option<&str>) -> Seq<char> {
    match header {
        Some(text) => text@,
        None => Seq::empty(),
    }
}

/// Authenticates the bearer token of an authorization header to a submitter
/// identity.
pub fn authenticate<'a>(registry: &'a SubmitterRegistry, header: Option<&str>) -> (r: Result<
    &'a SubmitterCredentials,
    Status,
>)
    requires
        registry.wf(),
    ensures
        match r {
            Ok(credentials) => header_identifies(registry@, header_text(header), *credentials),
            Err(status) => header_is_unknown(registry@, header_text(header)) && status.says(
                StatusCode::PermissionDenied,
                "invalid or missing token"@,
            ),
        },
{
    let text = match header {
        Some(text) => text,
        None => "",
    };
    proof {
        reveal_strlit("");
        assert(""@ =~= Seq::<char>::empty());
    }
    match registry.authenticate_header(text) {
        Some(credentials) => Ok(credentials),
        None => Err(refuse(StatusCode::PermissionDenied, "invalid or missing token")),
    }
}

/// Authenticates and verifies that the request's strategy is authorized.
///
/// It is not disclosed whether the strategy exists for others.
pub fn authorize_strategy<'a>(
    registry: &'a SubmitterRegistry,
    header: Option<&str>,
    strategy_id: &str,
) -> (r: Result<&'a SubmitterCredentials, Status>)
    requires
        registry.wf(),
    ensures
        match r {
            Ok(credentials) => header_identifies(registry@, header_text(header), *credentials)
                && credentials.covers(strategy_id@),
            Err(status) => {
                ||| header_is_unknown(registry@, header_text(header)) && status.says(
                    StatusCode::PermissionDenied,
                    "invalid or missing token"@,
                )
                ||| status.says(
                    StatusCode::PermissionDenied,
                    "strategy not authorized for this submitter"@,
                ) && exists|credentials: SubmitterCredentials| #[trigger]
                    header_identifies(registry@, header_text(header), credentials)
                        && !credentials.covers(strategy_id@)
            },
        },
{
    match authenticate(registry, header) {
        Ok(credentials) => {
            if SubmitterRegistry::is_authorized(credentials, strategy_id) {
                Ok(credentials)
            } else {
                assert(header_identifies(registry@, header_text(header), *credentials));
                Err(
                    refuse(
                        StatusCode::PermissionDenied,
                        "strategy not authorized for this submitter",
                    ),
                )
            }
        },
        Err(status) => Err(status),
    }
}

// ---------------------------------------------------------------------------
// Submissions
// ---------------------------------------------------------------------------

/// A submission as it arrives.
#[derive(Debug)]
pub struct SubmitOrderRequest {
    /// What the client calls itself; the credentials decide.
    pub submitter_id: String,
    pub request_id: String,
    pub strategy_id: String,
    pub instrument_id: String,
    pub side: String,
    pub quantity: String,
    pub price: String,
    pub time_in_force: String,
    pub post_only: bool,
    pub reduce_only: bool,
    pub submit_before_ns: Option<u64>,
}

/// The side of a name.
pub open spec fn side_named(name: Seq<char>) -> Option<OrderSide> {
    if name == "BUY"@ {
        Some(OrderSide::Buy)
    } else if name == "SELL"@ {
        Some(OrderSide::Sell)
    } else {
        None
    }
}

/// The time in force of a name, of those that can be asked for.
pub open spec fn time_in_force_named(name: Seq<char>) -> Option<TimeInForce> {
    if name == "GTC"@ {
        Some(TimeInForce::Gtc)
    } else if name == "IOC"@ {
        Some(TimeInForce::Ioc)
    } else if name == "FOK"@ {
        Some(TimeInForce::Fok)
    } else if name == "DAY"@ {
        Some(TimeInForce::Day)
    } else {
        None
    }
}

fn parse_side(name: &str) -> (r: Option<OrderSide>)
    ensures
        r == side_named(name@),
{
    if same(name, "BUY") {
        Some(OrderSide::Buy)
    } else if same(name, "SELL") {
        Some(OrderSide::Sell)
    } else {
        None
    }
}

fn parse_time_in_force(name: &str) -> (r: Option<TimeInForce>)
    ensures
        r == time_in_force_named(name@),
{
    if same(name, "GTC") {
        Some(TimeInForce::Gtc)
    } else if same(name, "IOC") {
        Some(TimeInForce::Ioc)
    } else if same(name, "FOK") {
        Some(TimeInForce::Fok)
    } else if same(name, "DAY") {
        Some(TimeInForce::Day)
    } else {
        None
    }
}

/// What is made of a submission.
#[derive(Debug)]
pub enum SubmitIntake {
    /// It is refused.
    Refused(Status),
    /// The execution chain does not take one of its identifiers, its quantity or
    /// its price.
    Malformed,
    /// It is to be admitted.
    Request(LimitOrderRequest),
}

/// The request holds what the submission asks for, on behalf of a submitter.
pub open spec fn request_made(
    req: SubmitOrderRequest,
    submitter_id: Seq<char>,
    made: LimitOrderRequest,
) -> bool {
    &&& made.submitter_id@ == submitter_id
    &&& made.request_id@ == req.request_id@
    &&& made.strategy_id@ == req.strategy_id@
    &&& made.instrument_id@ == req.instrument_id@
    &&& Some(made.side) == side_named(req.side@)
    &&& Some(made.quantity@) == canonical_quantity(req.quantity@)
    &&& Some(made.price@) == canonical_price(req.price@)
    &&& Some(made.time_in_force) == time_in_force_named(req.time_in_force@)
    &&& made.post_only == req.post_only
    &&& made.reduce_only == req.reduce_only
    &&& made.client_id is None
    &&& made.submit_before_ns == req.submit_before_ns
}

/// The execution chain takes the identifiers, the quantity and the price of a
/// submission.
pub open spec fn terms_accepted(req: SubmitOrderRequest) -> bool {
    &&& is_strategy_id(req.strategy_id@)
    &&& is_instrument_id(req.instrument_id@)
    &&& canonical_quantity(req.quantity@) is Some
    &&& canonical_price(req.price@) is Some
}

/// What is made of a submission, once its submitter is known: the side is read
/// first, then the time in force, then the rest.
pub open spec fn intake_decided(
    req: SubmitOrderRequest,
    submitter_id: Seq<char>,
    intake: SubmitIntake,
) -> bool {
    if side_named(req.side@) is None {
        intake matches SubmitIntake::Refused(status) && status.says(
            StatusCode::InvalidArgument,
            "invalid side "@ + req.side@,
        )
    } else if time_in_force_named(req.time_in_force@) is None {
        intake matches SubmitIntake::Refused(status) && status.says(
            StatusCode::InvalidArgument,
            "invalid time_in_force "@ + req.time_in_force@,
        )
    } else if !terms_accepted(req) {
        intake is Malformed
    } else {
        intake matches SubmitIntake::Request(made) && request_made(req, submitter_id, made)
    }
}

/// Reads a submission on behalf of a known submitter.
pub fn read_submission(submitter_id: &str, req: SubmitOrderRequest) -> (r: SubmitIntake)
    ensures
        intake_decided(req, submitter_id@, r),
{
    let side = match parse_side(req.side.as_str()) {
        Some(side) => side,
        None => {
            let message = join2("invalid side ", req.side.as_str());
            return SubmitIntake::Refused(
                refuse(StatusCode::InvalidArgument, message.as_str()),
            );
        },
    };
    let time_in_force = match parse_time_in_force(req.time_in_force.as_str()) {
        Some(time_in_force) => time_in_force,
        None => {
            let message = join2("invalid time_in_force ", req.time_in_force.as_str());
            return SubmitIntake::Refused(
                refuse(StatusCode::InvalidArgument, message.as_str()),
            );
        },
    };
    match order_terms(
        req.strategy_id.as_str(),
        req.instrument_id.as_str(),
        req.quantity.as_str(),
        req.price.as_str(),
    ) {
        Some(terms) => SubmitIntake::Request(
            LimitOrderRequest {
                submitter_id: submitter_id.to_owned(),
                request_id: req.request_id,
                strategy_id: terms.strategy_id,
                instrument_id: terms.instrument_id,
                side,
                quantity: terms.quantity,
                price: terms.price,
                time_in_force,
                post_only: req.post_only,
                reduce_only: req.reduce_only,
                client_id: None,
                submit_before_ns: req.submit_before_ns,
            },
        ),
        None => SubmitIntake::Malformed,
    }
}

/// An intake refuses for want of permission, and says why.
pub open spec fn is_denied(intake: SubmitIntake, message: Seq<char>) -> bool {
    intake matches SubmitIntake::Refused(status) && status.says(
        StatusCode::PermissionDenied,
        message,
    )
}

/// What is made of a submission: it is refused unless its header identifies a
/// submitter who is authorized for its strategy.
pub open spec fn submission_taken_in(
    registry: Seq<SubmitterCredentials>,
    header: Seq<char>,
    req: SubmitOrderRequest,
    intake: SubmitIntake,
) -> bool {
    ||| header_is_unknown(registry, header) && is_denied(intake, "invalid or missing token"@)
    ||| exists|credentials: SubmitterCredentials| #[trigger]
        header_identifies(registry, header, credentials) && (if credentials.covers(
            req.strategy_id@,
        ) {
            intake_decided(req, credentials.submitter_id@, intake)
        } else {
            is_denied(intake, "strategy not authorized for this submitter"@)
        })
}

/// Authorizes and reads a submission. The submitter is the one whom the header
/// identifies, whatever the submission says.
pub fn submit_intake(
    registry: &SubmitterRegistry,
    header: Option<&str>,
    req: SubmitOrderRequest,
) -> (r: SubmitIntake)
    requires
        registry.wf(),
    ensures
        submission_taken_in(registry@, header_text(header), req, r),
{
    match authorize_strategy(registry, header, req.strategy_id.as_str()) {
        Ok(credentials) => {
            assert(header_identifies(registry@, header_text(header), *credentials));
            read_submission(credentials.submitter_id.as_str(), req)
        },
        Err(status) => SubmitIntake::Refused(status),
    }
}

/// How a failed submission is answered.
pub fn submit_status(error: &BridgeError) -> (r: Status)
    ensures
        error is IdempotencyConflict ==> r.says(StatusCode::AlreadyExists, error.text()),
        error is Order ==> r.says(StatusCode::InvalidArgument, error->Order_0@),
        !(error is IdempotencyConflict || error is Order) ==> r.says(
            StatusCode::Internal,
            error.text(),
        ),
{
    let text = error.message();
    match error {
        BridgeError::IdempotencyConflict {
            submitter_id,
            request_id,
            original_fingerprint,
            new_fingerprint,
        } => refuse(StatusCode::AlreadyExists, text.as_str()),
        BridgeError::Order(message) => refuse(StatusCode::InvalidArgument, message.as_str()),
        _ => refuse(StatusCode::Internal, text.as_str()),
    }
}

/// How a failed cancel request is answered.
pub fn cancel_status(error: &BridgeError) -> (r: Status)
    ensures
        r.says(
            if error is IdempotencyConflict {
                StatusCode::AlreadyExists
            } else {
                StatusCode::Internal
            },
            error.text(),
        ),
{
    let text = error.message();
    match error {
        BridgeError::IdempotencyConflict {
            submitter_id,
            request_id,
            original_fingerprint,
            new_fingerprint,
        } => refuse(StatusCode::AlreadyExists, text.as_str()),
        _ => refuse(StatusCode::Internal, text.as_str()),
    }
}

/// The answer to an admitted request.
#[derive(Debug)]
pub struct AdmissionResponse {
    pub journal_epoch: String,
    pub seq: String,
    pub client_order_id: String,
    pub already_admitted: bool,
    pub result: String,
    pub reason: String,
}

/// The answer to an admitted submission.
pub fn submit_response(receipt: &AdmissionReceipt) -> (r: AdmissionResponse)
    ensures
        r.journal_epoch@ == numeral(receipt.journal_epoch as nat),
        r.seq@ == numeral(receipt.seq as nat),
        r.client_order_id@ == receipt.client_order_id@,
        r.already_admitted == receipt.already_admitted,
        r.result@ == "ADMITTED"@,
        r.reason@ == Seq::<char>::empty(),
{
    AdmissionResponse {
        journal_epoch: u64_text(receipt.journal_epoch),
        seq: u64_text(receipt.seq),
        client_order_id: receipt.client_order_id.clone(),
        already_admitted: receipt.already_admitted,
        result: "ADMITTED".to_owned(),
        reason: String::new(),
    }
}

/// The answer to an admitted cancel request, for the order that it names.
pub fn cancel_response(receipt: &AdmissionReceipt, client_order_id: &str) -> (r: AdmissionResponse)
    ensures
        r.journal_epoch@ == numeral(receipt.journal_epoch as nat),
        r.seq@ == numeral(receipt.seq as nat),
        r.client_order_id@ == client_order_id@,
        r.already_admitted == receipt.already_admitted,
        r.result@ == "CANCEL_INTENT_ACCEPTED"@,
        r.reason@ == Seq::<char>::empty(),
{
    AdmissionResponse {
        journal_epoch: u64_text(receipt.journal_epoch),
        seq: u64_text(receipt.seq),
        client_order_id: client_order_id.to_owned(),
        already_admitted: receipt.already_admitted,
        result: "CANCEL_INTENT_ACCEPTED".to_owned(),
        reason: String::new(),
    }
}

// ---------------------------------------------------------------------------
// State
// ---------------------------------------------------------------------------

/// An order as the cache holds it.
#[derive(Debug)]
pub struct CachedOrder {
    pub client_order_id: String,
    pub strategy_id: String,
    pub instrument_id: String,
    pub side: String,
    pub quantity: String,
    pub price: Option<String>,
    pub status: String,
    pub filled_quantity: String,
    /// Whether the order has reached a terminal state.
    pub closed: bool,
}

/// An order as the state shows it.
#[derive(Debug)]
pub struct OrderView {
    pub client_order_id: String,
    pub strategy_id: String,
    pub instrument_id: String,
    pub side: String,
    pub quantity: String,
    pub price: String,
    pub status: String,
    pub filled_quantity: String,
}

impl Clone for OrderView {
    fn clone(&self) -> (r: Self)
        ensures
            r == *self,
    {
        OrderView {
            client_order_id: self.client_order_id.clone(),
            strategy_id: self.strategy_id.clone(),
            instrument_id: self.instrument_id.clone(),
            side: self.side.clone(),
            quantity: self.quantity.clone(),
            price: self.price.clone(),
            status: self.status.clone(),
            filled_quantity: self.filled_quantity.clone(),
        }
    }
}

/// What the state shows of an order.
pub open spec fn shows(view: OrderView, order: CachedOrder) -> bool {
    &&& view.client_order_id@ == order.client_order_id@
    &&& view.strategy_id@ == order.strategy_id@
    &&& view.instrument_id@ == order.instrument_id@
    &&& view.side@ == order.side@
    &&& view.quantity@ == order.quantity@
    &&& view.price@ == (match order.price {
        Some(price) => price@,
        None => "-"@,
    })
    &&& view.status@ == order.status@
    &&& view.filled_quantity@ == order.filled_quantity@
}

/// The orders that have not reached a terminal state, in order.
pub open spec fn open_only(orders: Seq<CachedOrder>) -> Seq<CachedOrder>
    decreases orders.len(),
{
    if orders.len() == 0 {
        Seq::empty()
    } else if orders.last().closed {
        open_only(orders.drop_last())
    } else {
        open_only(orders.drop_last()).push(orders.last())
    }
}

/// The instruments of some orders.
pub open spec fn instruments_of(orders: Seq<CachedOrder>) -> Set<Seq<char>>
    decreases orders.len(),
{
    if orders.len() == 0 {
        Set::empty()
    } else {
        instruments_of(orders.drop_last()).insert(orders.last().instrument_id@)
    }
}

/// The state of the hub, without the details of its instruments.
#[derive(Debug)]
pub struct CoreSnapshot {
    pub epoch: u64,
    pub cursor: u64,
    pub orders: Vec<OrderView>,
    pub instrument_ids: Vec<String>,
}

/// Takes a snapshot: all orders that have not reached a terminal state, and the
/// instruments of these orders and of the journal's admissions, each once and in
/// ascending order.
pub fn take_snapshot(journal: &BusinessJournal, orders: &Vec<CachedOrder>) -> (r: CoreSnapshot)
    ensures
        r.epoch == journal@.epoch,
        r.cursor == journal@.last_seq,
        r.orders@.len() == open_only(orders@).len(),
        forall|i: int|
            0 <= i < r.orders@.len() ==> shows(#[trigger] r.orders@[i], open_only(orders@)[i]),
        ascending(views(r.instrument_ids@)),
        views(r.instrument_ids@).to_set() == instruments_of(open_only(orders@)).union(
            match scanned(journal@.rows, 0) {
                Ok(entries) => admitted_instruments(entries),
                Err(reason) => Set::empty(),
            },
        ),
{
    let mut shown: Vec<OrderView> = Vec::new();
    let mut ids = journal_instrument_ids(journal);
    let ghost known = views(ids@).to_set();
    let mut i: usize = 0;
    proof {
        assert(orders@.take(0) =~= Seq::<CachedOrder>::empty());
        assert(instruments_of(open_only(orders@.take(0))).union(known) =~= known);
    }
    while i < orders.len()
        invariant
            i <= orders@.len(),
            shown@.len() == open_only(orders@.take(i as int)).len(),
            forall|k: int|
                0 <= k < shown@.len() ==> shows(
                    #[trigger] shown@[k],
                    open_only(orders@.take(i as int))[k],
                ),
            ascending(views(ids@)),
            views(ids@).to_set() == instruments_of(open_only(orders@.take(i as int))).union(known),
        decreases orders.len() - i,
    {
        let ghost before = orders@.take(i as int);
        let ghost upto = orders@.take(i + 1);
        assert(upto.drop_last() =~= before);
        let order = &orders[i];
        if !order.closed {
            proof {
                assert(open_only(upto).drop_last() =~= open_only(before));
                assert(instruments_of(open_only(upto)).union(known) =~= instruments_of(
                    open_only(before),
                ).union(known).insert(order.instrument_id@));
            }
            insert_ascending(&mut ids, order.instrument_id.clone());
            shown.push(
                OrderView {
                    client_order_id: order.client_order_id.clone(),
                    strategy_id: order.strategy_id.clone(),
                    instrument_id: order.instrument_id.clone(),
                    side: order.side.clone(),
                    quantity: order.quantity.clone(),
                    price: match &order.price {
                        Some(price) => price.clone(),
                        None => "-".to_owned(),
                    },
                    status: order.status.clone(),
                    filled_quantity: order.filled_quantity.clone(),
                },
            );
        }
        i = i + 1;
    }
    assert(orders@.take(i as int) =~= orders@);
    let cursor = match journal.last_seq() {
        Ok(seq) => seq,
        Err(_) => 0,
    };
    CoreSnapshot { epoch: journal.epoch(), cursor, orders: shown, instrument_ids: ids }
}

/// What the cache knows of an instrument.
#[derive(Debug)]
pub struct InstrumentInfo {
    pub instrument_id: String,
    pub price_increment: String,
    pub size_increment: String,
    pub price_precision: u32,
}

impl Clone for InstrumentInfo {
    fn clone(&self) -> (r: Self)
        ensures
            r == *self,
    {
        InstrumentInfo {
            instrument_id: self.instrument_id.clone(),
            price_increment: self.price_increment.clone(),
            size_increment: self.size_increment.clone(),
            price_precision: self.price_precision,
        }
    }
}

/// The first of some definitions that is of an instrument, if there is any.
pub open spec fn definition_of(id: Seq<char>, found: Seq<InstrumentInfo>) -> Option<InstrumentInfo>
    decreases found.len(),
{
    if found.len() == 0 {
        None
    } else {
        match definition_of(id, found.drop_last()) {
            Some(info) => Some(info),
            None => if found.last().instrument_id@ == id {
                Some(found.last())
            } else {
                None
            },
        }
    }
}

/// What is shown of some instruments: the definitions that were found, in the order
/// of the instruments. An instrument without one is left out.
pub open spec fn shown_instruments(
    ids: Seq<Seq<char>>,
    found: Seq<InstrumentInfo>,
) -> Seq<InstrumentInfo>
    decreases ids.len(),
{
    if ids.len() == 0 {
        Seq::empty()
    } else {
        let before = shown_instruments(ids.drop_last(), found);
        match definition_of(ids.last(), found) {
            Some(info) => before.push(info),
            None => before,
        }
    }
}

fn find_definition(id: &str, found: &Vec<InstrumentInfo>) -> (r: Option<InstrumentInfo>)
    ensures
        r == definition_of(id@, found@),
{
    let mut i: usize = 0;
    assert(found@.take(0) =~= Seq::<InstrumentInfo>::empty());
    while i < found.len()
        invariant
            i <= found@.len(),
            definition_of(id@, found@.take(i as int)) is None,
        decreases found.len() - i,
    {
        assert(found@.take(i + 1).drop_last() =~= found@.take(i as int));
        if same(found[i].instrument_id.as_str(), id) {
            proof {
                lemma_definition_stays(id@, found@, i + 1);
            }
            return Some(found[i].clone());
        }
        i = i + 1;
    }
    assert(found@.take(i as int) =~= found@);
    None
}

/// A definition that was found stays the one, whatever comes behind it.
proof fn lemma_definition_stays(id: Seq<char>, found: Seq<InstrumentInfo>, upto: int)
    requires
        0 <= upto <= found.len(),
        definition_of(id, found.take(upto)) is Some,
    ensures
        definition_of(id, found) == definition_of(id, found.take(upto)),
    decreases found.len() - upto,
{
    if upto < found.len() {
        assert(found.take(upto + 1).drop_last() =~= found.take(upto));
        lemma_definition_stays(id, found, upto + 1);
    } else {
        assert(found.take(upto) =~= found);
    }
}

/// Picks what is shown of some instruments out of the definitions that were found.
pub fn show_instruments(ids: &Vec<String>, found: &Vec<InstrumentInfo>) -> (r: Vec<InstrumentInfo>)
    ensures
        r@ == shown_instruments(views(ids@), found@),
{
    let mut shown: Vec<InstrumentInfo> = Vec::new();
    let mut i: usize = 0;
    assert(views(ids@).take(0) =~= Seq::<Seq<char>>::empty());
    while i < ids.len()
        invariant
            i <= ids@.len(),
            shown@ == shown_instruments(views(ids@).take(i as int), found@),
        decreases ids.len() - i,
    {
        let ghost upto = views(ids@).take(i + 1);
        assert(upto.drop_last() =~= views(ids@).take(i as int));
        assert(upto.last() == ids@[i as int]@);
        if let Some(info) = find_definition(ids[i].as_str(), found) {
            shown.push(info);
        }
        i = i + 1;
    }
    assert(views(ids@).take(i as int) =~= views(ids@));
    shown
}

/// The answer to a request for the state.
#[derive(Debug)]
pub struct GetStateResponse {
    pub journal_epoch: String,
    pub state_cursor: String,
    pub writable: bool,
    pub readiness: String,
    pub active_orders: Vec<OrderView>,
    pub instruments: Vec<InstrumentInfo>,
}

/// The orders of the strategies that a submitter may act for, in order.
pub open spec fn visible_orders(
    orders: Seq<OrderView>,
    credentials: SubmitterCredentials,
) -> Seq<OrderView>
    decreases orders.len(),
{
    if orders.len() == 0 {
        Seq::empty()
    } else if credentials.covers(orders.last().strategy_id@) {
        visible_orders(orders.drop_last(), credentials).push(orders.last())
    } else {
        visible_orders(orders.drop_last(), credentials)
    }
}

/// The answer to a submitter's request for the state: of the orders those of the
/// submitter's strategies, of the instruments those whose definitions were found.
pub fn state_response(
    snapshot: CoreSnapshot,
    found: &Vec<InstrumentInfo>,
    gate: &ReadinessGate,
    credentials: &SubmitterCredentials,
) -> (r: GetStateResponse)
    ensures
        r.journal_epoch@ == numeral(snapshot.epoch as nat),
        r.state_cursor@ == numeral(snapshot.cursor as nat),
        r.writable == (gate.state() == Readiness::Ready),
        r.readiness@ == gate.state().name(),
        r.active_orders@ == visible_orders(snapshot.orders@, *credentials),
        r.instruments@ == shown_instruments(views(snapshot.instrument_ids@), found@),
{
    let instruments = show_instruments(&snapshot.instrument_ids, found);
    let mut visible: Vec<OrderView> = Vec::new();
    let mut i: usize = 0;
    assert(snapshot.orders@.take(0) =~= Seq::<OrderView>::empty());
    while i < snapshot.orders.len()
        invariant
            i <= snapshot.orders@.len(),
            visible@ == visible_orders(snapshot.orders@.take(i as int), *credentials),
        decreases snapshot.orders.len() - i,
    {
        let order = &snapshot.orders[i];
        assert(snapshot.orders@.take(i + 1).drop_last() =~= snapshot.orders@.take(i as int));
        if SubmitterRegistry::is_authorized(credentials, order.strategy_id.as_str()) {
            visible.push(order.clone());
        }
        i = i + 1;
    }
    assert(snapshot.orders@.take(i as int) =~= snapshot.orders@);
    GetStateResponse {
        journal_epoch: u64_text(snapshot.epoch),
        state_cursor: u64_text(snapshot.cursor),
        writable: gate.is_admissible(),
        readiness: gate.get().as_str().to_owned(),
        active_orders: visible,
        instruments,
    }
}

/// The state shows an instrument exactly if it is among those of the orders and
/// admissions and its definition was found, and shows it by that definition.
pub proof fn law_state_shows_defined_instruments(
    ids: Seq<Seq<char>>,
    found: Seq<InstrumentInfo>,
    info: InstrumentInfo,
)
    ensures
        shown_instruments(ids, found).contains(info) <==> ids.contains(info.instrument_id@)
            && definition_of(info.instrument_id@, found) == Some(info),
        definition_of(info.instrument_id@, found) == Some(info) ==> found.contains(info),
    decreases ids.len(),
{
    lemma_definition(info.instrument_id@, found);
    if ids.len() > 0 {
        let before = ids.drop_last();
        let shown = shown_instruments(before, found);
        law_state_shows_defined_instruments(before, found, info);
        lemma_definition(ids.last(), found);
        assert(ids =~= before.push(ids.last()));
        assert(ids.contains(info.instrument_id@) <==> before.contains(info.instrument_id@)
            || ids.last() == info.instrument_id@) by {
            broadcast use vstd::seq_lib::group_seq_properties;

        }
        if let Some(last) = definition_of(ids.last(), found) {
            assert(shown.push(last).contains(info) <==> shown.contains(info) || last == info) by {
                broadcast use vstd::seq_lib::group_seq_properties;

            }
        }
    }
}

/// A definition that was found is one of those that were given, and is of the
/// instrument.
proof fn lemma_definition(id: Seq<char>, found: Seq<InstrumentInfo>)
    ensures
        definition_of(id, found) matches Some(info) ==> info.instrument_id@ == id
            && found.contains(info),
    decreases found.len(),
{
    if found.len() > 0 {
        lemma_definition(id, found.drop_last());
        assert(found[found.len() - 1] == found.last());
        if let Some(info) = definition_of(id, found.drop_last()) {
            let at = choose|at: int|
                0 <= at < found.drop_last().len() && found.drop_last()[at] == info;
            assert(found[at] == info);
        }
    }
}

/// The state shows a submitter an order exactly if the submitter may act for the
/// order's strategy.
pub proof fn law_state_shows_own_orders(
    orders: Seq<OrderView>,
    credentials: SubmitterCredentials,
    order: OrderView,
)
    ensures
        visible_orders(orders, credentials).contains(order) <==> orders.contains(order)
            && credentials.covers(order.strategy_id@),
    decreases orders.len(),
{
    if orders.len() > 0 {
        let before = orders.drop_last();
        let shown = visible_orders(before, credentials);
        law_state_shows_own_orders(before, credentials, order);
        assert(orders =~= before.push(orders.last()));
        assert(orders.contains(order) <==> before.contains(order) || orders.last() == order) by {
            broadcast use vstd::seq_lib::group_seq_properties;

        }
        assert(shown.push(orders.last()).contains(order) <==> shown.contains(order)
            || orders.last() == order) by {
            broadcast use vstd::seq_lib::group_seq_properties;

        }
    }
}

// ---------------------------------------------------------------------------
// Events
// ---------------------------------------------------------------------------

/// What an event tells.
#[derive(Debug)]
pub enum EventKind {
    /// A request was admitted.
    Admission {
        submitter_id: String,
        request_id: String,
        strategy_id: String,
        instrument_id: String,
        request_kind: String,
    },
    /// An outcome of an admitted request was recorded.
    Outcome { origin_seq: String, client_order_id: String, outcome: String, reason: String },
    /// Nothing happened up to the cursor that the follower has not seen.
    Progress { state_cursor: String },
}

/// An event of the journal.
#[derive(Debug)]
pub struct JournalEvent {
    pub seq: String,
    pub journal_epoch: String,
    pub kind: EventKind,
}

/// The order that an outcome names.
pub open spec fn outcome_order(outcome: JournalOutcome) -> Seq<char> {
    match outcome {
        JournalOutcome::Admitted { client_order_id } => client_order_id@,
        JournalOutcome::DispatchStarted { client_order_id } => client_order_id@,
        JournalOutcome::Filled { client_order_id, filled_qty } => client_order_id@,
        JournalOutcome::Canceled { client_order_id } => client_order_id@,
        JournalOutcome::Denied { reason } => Seq::empty(),
    }
}

/// The name of an outcome.
pub open spec fn outcome_name(outcome: JournalOutcome) -> Seq<char> {
    match outcome {
        JournalOutcome::Admitted { client_order_id } => "ADMITTED"@,
        JournalOutcome::DispatchStarted { client_order_id } => "DISPATCH_STARTED"@,
        JournalOutcome::Denied { reason } => "DENIED"@,
        JournalOutcome::Filled { client_order_id, filled_qty } => "FILLED"@,
        JournalOutcome::Canceled { client_order_id } => "CANCELED"@,
    }
}

/// The reason that an outcome gives.
pub open spec fn outcome_cause(outcome: JournalOutcome) -> Seq<char> {
    match outcome {
        JournalOutcome::Denied { reason } => reason@,
        _ => Seq::empty(),
    }
}

/// The event of an entry.
pub open spec fn tells(event: JournalEvent, epoch: u64, seq: u64, entry: JournalEntry) -> bool {
    &&& event.seq@ == numeral(seq as nat)
    &&& event.journal_epoch@ == numeral(epoch as nat)
    &&& match entry {
        JournalEntry::Admission(record) => event.kind matches EventKind::Admission {
            submitter_id,
            request_id,
            strategy_id,
            instrument_id,
            request_kind,
        } && submitter_id@ == record.submitter_id@ && request_id@ == record.request_id@
            && strategy_id@ == record.strategy_id@ && instrument_id@ == record.instrument_id@
            && request_kind@ == "SubmitOrder"@,
        JournalEntry::Outcome { origin_seq, outcome } => event.kind matches EventKind::Outcome {
            origin_seq: origin,
            client_order_id,
            outcome: name,
            reason,
        } && origin@ == numeral(origin_seq as nat) && client_order_id@ == outcome_order(outcome)
            && name@ == outcome_name(outcome) && reason@ == outcome_cause(outcome),
    }
}

/// The event of progress up to a cursor.
pub open spec fn tells_progress(event: JournalEvent, epoch: u64, cursor: u64) -> bool {
    &&& event.seq@ == numeral(cursor as nat)
    &&& event.journal_epoch@ == numeral(epoch as nat)
    &&& event.kind matches EventKind::Progress { state_cursor } && state_cursor@ == numeral(
        cursor as nat,
    )
}

/// The event of an entry.
pub fn event_of(epoch: u64, seq: u64, entry: &JournalEntry) -> (r: JournalEvent)
    ensures
        tells(r, epoch, seq, *entry),
{
    let kind = match entry {
        JournalEntry::Admission(record) => EventKind::Admission {
            submitter_id: record.submitter_id.clone(),
            request_id: record.request_id.clone(),
            strategy_id: record.strategy_id.clone(),
            instrument_id: record.instrument_id.clone(),
            request_kind: "SubmitOrder".to_owned(),
        },
        JournalEntry::Outcome { origin_seq, outcome } => {
            let (client_order_id, name, reason) = match outcome {
                JournalOutcome::Admitted { client_order_id } => (
                    client_order_id.clone(),
                    "ADMITTED",
                    String::new(),
                ),
                JournalOutcome::DispatchStarted { client_order_id } => (
                    client_order_id.clone(),
                    "DISPATCH_STARTED",
                    String::new(),
                ),
                JournalOutcome::Denied { reason } => (String::new(), "DENIED", reason.clone()),
                JournalOutcome::Filled { client_order_id, filled_qty } => (
                    client_order_id.clone(),
                    "FILLED",
                    String::new(),
                ),
                JournalOutcome::Canceled { client_order_id } => (
                    client_order_id.clone(),
                    "CANCELED",
                    String::new(),
                ),
            };
            EventKind::Outcome {
                origin_seq: u64_text(*origin_seq),
                client_order_id,
                outcome: name.to_owned(),
                reason,
            }
        },
    };
    JournalEvent { seq: u64_text(seq), journal_epoch: u64_text(epoch), kind }
}

/// Reads the cursor from which a follower watches.
pub fn parse_cursor(after: &str) -> (r: Result<u64, Status>)
    ensures
        match parsed(after@, u64::MAX as nat) {
            Some(cursor) => r matches Ok(n) && n == cursor,
            None => r matches Err(status) && status.says(
                StatusCode::InvalidArgument,
                "after must be a u64 string"@,
            ),
        },
{
    match parse_number(after, u64::MAX) {
        Some(cursor) => Ok(cursor),
        None => Err(refuse(StatusCode::InvalidArgument, "after must be a u64 string")),
    }
}

/// What a follower is sent next.
#[derive(Debug)]
pub enum WatchStep {
    /// The journal cannot be read; the stream ends with this.
    Failed(Status),
    /// Nothing new: a progress event, which advances the follower's cursor
    /// without fabricating business events. Then wait.
    Progress { event: JournalEvent, cursor: u64 },
    /// New entries, and the cursor behind them.
    Events { events: Vec<JournalEvent>, cursor: u64 },
}

/// What a follower at a cursor is sent next.
pub open spec fn watched(journal: JournalView, after: u64, step: WatchStep) -> bool {
    match (scanned(journal.rows, after), step) {
        (Err(reason), WatchStep::Failed(status)) => status.says(
            StatusCode::Internal,
            "journal encoding error: "@ + reason,
        ),
        (Ok(entries), WatchStep::Progress { event, cursor }) => entries.len() == 0 && cursor == (
        if journal.last_seq > after {
            journal.last_seq
        } else {
            after
        }) && tells_progress(event, journal.epoch, cursor),
        (Ok(entries), WatchStep::Events { events, cursor }) => {
            &&& entries.len() > 0
            &&& cursor == entries.last().0
            &&& events@.len() == entries.len()
            &&& forall|i: int|
                0 <= i < entries.len() ==> tells(
                    #[trigger] events@[i],
                    journal.epoch,
                    entries[i].0,
                    entries[i].1,
                )
        },
        _ => false,
    }
}

/// Decides what a follower at a cursor is sent next.
pub fn watch_step(journal: &BusinessJournal, after: u64) -> (r: WatchStep)
    ensures
        watched(journal@, after, r),
{
    let entries = match journal.scan_after(after) {
        Ok(entries) => entries,
        Err(error) => {
            let text = error.message();
            return WatchStep::Failed(refuse(StatusCode::Internal, text.as_str()));
        },
    };
    if entries.len() == 0 {
        let high_water = match journal.last_seq() {
            Ok(seq) => seq,
            Err(_) => after,
        };
        let cursor = if high_water > after {
            high_water
        } else {
            after
        };
        let event = JournalEvent {
            seq: u64_text(cursor),
            journal_epoch: u64_text(journal.epoch()),
            kind: EventKind::Progress { state_cursor: u64_text(cursor) },
        };
        return WatchStep::Progress { event, cursor };
    }
    let mut events: Vec<JournalEvent> = Vec::new();
    let mut i: usize = 0;
    while i < entries.len()
        invariant
            i <= entries@.len(),
            events@.len() == i,
            forall|k: int|
                0 <= k < i ==> tells(
                    #[trigger] events@[k],
                    journal@.epoch,
                    entries@[k].0,
                    entries@[k].1,
                ),
        decreases entries.len() - i,
    {
        events.push(event_of(journal.epoch(), entries[i].0, &entries[i].1));
        i = i + 1;
    }
    let cursor = entries[entries.len() - 1].0;
    WatchStep::Events { events, cursor }
}

/// A follower misses nothing and sees nothing twice: on an intact journal it is
/// sent one event for each entry behind its cursor, under contiguous sequence
/// numbers, and its cursor moves to the last one. Where there is none, it is sent
/// progress, and its cursor stays.
pub proof fn law_follower_sees_every_entry_once(journal: JournalView, after: u64, step: WatchStep)
    requires
        journal.intact(),
        watched(journal, after, step),
    ensures
        after < journal.last_seq ==> {
            &&& step matches WatchStep::Events { events, cursor }
            &&& cursor == journal.last_seq
            &&& events@.len() == journal.last_seq - after
            &&& forall|i: int|
                0 <= i < events@.len() ==> tells(
                    #[trigger] events@[i],
                    journal.epoch,
                    (after + 1 + i) as u64,
                    journal.rows[after + i].stored->Entry_0,
                )
        },
        after >= journal.last_seq ==> (step matches WatchStep::Progress { event, cursor } && cursor
            == after),
{
    law_scan_has_no_gaps(journal, after);
    if after < journal.last_seq {
        let entries = entries_after(journal.rows, after);
        assert(entries.last() == entries[journal.last_seq - after - 1]);
        assert forall|i: int| 0 <= i < step->events@.len() implies tells(
            #[trigger] step->events@[i],
            journal.epoch,
            (after + 1 + i) as u64,
            journal.rows[after + i].stored->Entry_0,
        ) by {
            assert(entries[i] == (
                (after + 1 + i) as u64,
                journal.rows[after + i].stored->Entry_0,
            ));
        }
    }
}

} // verus!
