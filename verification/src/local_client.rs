//! Execution client decisions for the local simulated exchange (FIX 4.2).
//!
//! What the channel cannot carry is refused, never dropped: orders that ask for
//! it are rejected with a stable reason code. What the exchange reports becomes
//! an order event.

use vstd::prelude::*;

use crate::amount::{amount_text, parsed_amount, zero_amount, Amount};
use crate::bridge::{OrderSide, TimeInForce};
use crate::local_exchange::{order_payload, ExecEvent, FixWriter, Side, WriterView};
use crate::text::{join2, join3, lemma_numeral, numeral, u64_text};
use crate::utc::{clock_nanos, is_clock_nanos, is_clock_time};

verus! {

// ---------------------------------------------------------------------------
// Channel capabilities
// ---------------------------------------------------------------------------

/// Why the channel cannot carry an order, if it cannot: it knows good-for-day
/// orders only, and has no fields for the post-only and reduce-only instructions.
pub open spec fn channel_refusal(
    time_in_force: TimeInForce,
    post_only: bool,
    reduce_only: bool,
) -> Option<Seq<char>> {
    if time_in_force != TimeInForce::Day {
        Some("UNSUPPORTED_TIME_IN_FORCE"@)
    } else if post_only {
        Some("UNSUPPORTED_POST_ONLY"@)
    } else if reduce_only {
        Some("UNSUPPORTED_REDUCE_ONLY"@)
    } else {
        None
    }
}

/// Checks that the channel can carry an order; the reason code if it cannot.
pub fn check_channel(time_in_force: TimeInForce, post_only: bool, reduce_only: bool) -> (r: Result<
    (),
    String,
>)
    ensures
        match channel_refusal(time_in_force, post_only, reduce_only) {
            Some(code) => r matches Err(reason) && reason@ == code,
            None => r is Ok,
        },
{
    if time_in_force != TimeInForce::Day {
        Err("UNSUPPORTED_TIME_IN_FORCE".to_owned())
    } else if post_only {
        Err("UNSUPPORTED_POST_ONLY".to_owned())
    } else if reduce_only {
        Err("UNSUPPORTED_REDUCE_ONLY".to_owned())
    } else {
        Ok(())
    }
}

/// The side of an order on the wire.
pub open spec fn side_on_wire(side: OrderSide) -> Side {
    match side {
        OrderSide::Buy => Side::Buy,
        OrderSide::Sell => Side::Sell,
    }
}

/// The side of an order on the wire.
pub fn wire_side(side: OrderSide) -> (r: Side)
    ensures
        r == side_on_wire(side),
{
    match side {
        OrderSide::Buy => Side::Buy,
        OrderSide::Sell => Side::Sell,
    }
}

/// The price of an order on the wire: zero where the text is no decimal.
pub open spec fn price_on_wire(price: Option<Seq<char>>) -> Option<Amount> {
    match price {
        Some(text) => Some(
            match parsed_amount(text) {
                Ok(amount) => amount,
                Err(reason) => zero_amount(),
            },
        ),
        None => None,
    }
}

fn wire_price(price: Option<&str>) -> (r: Option<Amount>)
    ensures
        r == price_on_wire(
            match price {
                Some(text) => Some(text@),
                None => None,
            },
        ),
{
    match price {
        Some(text) => match Amount::parse(text) {
            Ok(amount) => Some(amount),
            Err(_) => Some(Amount::zero()),
        },
        None => None,
    }
}

/// A message is the next one of a session, and carries an order with the times of
/// the clock.
pub open spec fn carries_order(
    session: WriterView,
    message: Seq<char>,
    client_order_id: Seq<char>,
    symbol: Seq<char>,
    side: OrderSide,
    quantity: Amount,
    price: Option<Seq<char>>,
) -> bool {
    exists|transacted: Seq<char>, now: Seq<char>|
        #![trigger is_clock_time(transacted), is_clock_time(now)]
        is_clock_time(transacted) && is_clock_time(now) && message == session.framed(
            "D"@,
            now,
            order_payload(
                client_order_id,
                symbol,
                side_on_wire(side),
                quantity,
                price_on_wire(price),
                transacted,
            ),
        )
}

/// The text of a price, if there is one.
pub open spec fn price_text(price: Option<&str>) -> Option<Seq<char>> {
    match price {
        Some(text) => Some(text@),
        None => None,
    }
}

/// Encodes an order for the exchange; the reason if its quantity is no decimal.
pub fn order_message(
    writer: &mut FixWriter,
    client_order_id: &str,
    symbol: &str,
    side: OrderSide,
    quantity: &str,
    price: Option<&str>,
) -> (r: Result<String, String>)
    requires
        old(writer)@.next_seq < u64::MAX,
    ensures
        match parsed_amount(quantity@) {
            Ok(amount) => {
                &&& r matches Ok(message) && carries_order(
                    old(writer)@,
                    message@,
                    client_order_id@,
                    symbol@,
                    side,
                    amount,
                    price_text(price),
                )
                &&& final(writer)@ == old(writer)@.advanced()
            },
            Err(reason) => {
                &&& r matches Err(text) && text@ == reason
                &&& final(writer)@ == old(writer)@
            },
        },
{
    match Amount::parse(quantity) {
        Ok(amount) => Ok(
            writer.submit_order(
                client_order_id,
                symbol,
                wire_side(side),
                amount,
                wire_price(price),
            ),
        ),
        Err(reason) => Err(reason),
    }
}

/// Why an order is not sent.
#[derive(Debug)]
pub enum SubmitRefusal {
    /// The channel cannot carry it; this is the reason code.
    Unsupported(String),
    /// Its quantity is no decimal; this is why.
    Quantity(String),
}

/// Checks that the channel can carry an order, and encodes it for the exchange.
/// A refused order takes no sequence number of the session.
pub fn submit_message(
    writer: &mut FixWriter,
    client_order_id: &str,
    symbol: &str,
    side: OrderSide,
    quantity: &str,
    price: Option<&str>,
    time_in_force: TimeInForce,
    post_only: bool,
    reduce_only: bool,
) -> (r: Result<String, SubmitRefusal>)
    requires
        old(writer)@.next_seq < u64::MAX,
    ensures
        match (
            channel_refusal(time_in_force, post_only, reduce_only),
            parsed_amount(quantity@),
        ) {
            (Some(code), _) => {
                &&& r matches Err(SubmitRefusal::Unsupported(reason)) && reason@ == code
                &&& final(writer)@ == old(writer)@
            },
            (None, Err(reason)) => {
                &&& r matches Err(SubmitRefusal::Quantity(text)) && text@ == reason
                &&& final(writer)@ == old(writer)@
            },
            (None, Ok(amount)) => {
                &&& r matches Ok(message) && carries_order(
                    old(writer)@,
                    message@,
                    client_order_id@,
                    symbol@,
                    side,
                    amount,
                    price_text(price),
                )
                &&& final(writer)@ == old(writer)@.advanced()
            },
        },
{
    if let Err(code) = check_channel(time_in_force, post_only, reduce_only) {
        return Err(SubmitRefusal::Unsupported(code));
    }
    match order_message(writer, client_order_id, symbol, side, quantity, price) {
        Ok(message) => Ok(message),
        Err(reason) => Err(SubmitRefusal::Quantity(reason)),
    }
}

// ---------------------------------------------------------------------------
// Cancel IDs
// ---------------------------------------------------------------------------

/// A cancel ID: that of the client and a number.
pub open spec fn cancel_id_text(client_id: Seq<char>, number: nat) -> Seq<char> {
    "C-"@ + client_id + "-"@ + numeral(number)
}

/// The cancel ID of a client and a number.
pub fn cancel_id(client_id: &str, number: u64) -> (r: String)
    ensures
        r@ == cancel_id_text(client_id@, number as nat),
{
    let head = join3("C-", client_id, "-");
    join2(head.as_str(), u64_text(number).as_str())
}

/// The number of the next cancel ID: the nanoseconds that the clock shows, or the
/// one behind the last number where the clock shows no later one.
pub open spec fn next_number(last: Option<u64>, nanos: u32) -> nat {
    match last {
        Some(number) => if nanos > number {
            nanos as nat
        } else {
            number as nat + 1
        },
        None => nanos as nat,
    }
}

/// The state of the cancel IDs of a client.
#[verifier::ext_equal]
pub struct CancelIdsView {
    pub client_id: Seq<char>,
    /// The number of the last ID, if any was given out.
    pub last: Option<u64>,
}

impl CancelIdsView {
    /// The text is an ID that may have been given out: its number is not behind
    /// the last one.
    pub open spec fn may_have_issued(self, text: Seq<char>) -> bool {
        exists|number: u64|
            self.last is Some && number <= self.last->0 && text == #[trigger] cancel_id_text(
                self.client_id,
                number as nat,
            )
    }
}

/// The cancel IDs of a client, each of which is given out once.
#[derive(Debug)]
pub struct CancelIds {
    client_id: String,
    last: Option<u64>,
}

impl View for CancelIds {
    type V = CancelIdsView;

    closed spec fn view(&self) -> CancelIdsView {
        CancelIdsView { client_id: self.client_id@, last: self.last }
    }
}

impl CancelIds {
    /// The cancel IDs of a client, none of which has been given out.
    pub fn new(client_id: &str) -> (r: Self)
        ensures
            r@ == (CancelIdsView { client_id: client_id@, last: None }),
    {
        CancelIds { client_id: client_id.to_owned(), last: None }
    }

    /// Whether there is another number for an ID.
    pub fn has_next(&self) -> (r: bool)
        ensures
            r == (self@.last != Some(u64::MAX)),
    {
        match self.last {
            Some(number) => number < u64::MAX,
            None => true,
        }
    }

    /// A cancel ID that is unique per call: its number is taken from the clock,
    /// and is behind all earlier ones.
    pub fn fresh_cancel_id(&mut self) -> (r: String)
        requires
            old(self)@.last != Some(u64::MAX),
        ensures
            exists|nanos: u32| #[trigger]
                is_clock_nanos(nanos) && nanos < 1_000_000_000 && r@ == cancel_id_text(
                    old(self)@.client_id,
                    next_number(old(self)@.last, nanos),
                ) && final(self)@.last == Some(next_number(old(self)@.last, nanos) as u64),
            final(self)@.client_id == old(self)@.client_id,
            !old(self)@.may_have_issued(r@),
            final(self)@.may_have_issued(r@),
            forall|text: Seq<char>|
                old(self)@.may_have_issued(text) ==> #[trigger] final(self)@.may_have_issued(text),
    {
        let ghost before = self@;
        let nanos = clock_nanos();
        let number: u64 = match self.last {
            Some(last) => if nanos as u64 > last {
                nanos as u64
            } else {
                last + 1
            },
            None => nanos as u64,
        };
        self.last = Some(number);
        let r = cancel_id(self.client_id.as_str(), number);
        proof {
            assert(number == next_number(before.last, nanos));
            law_cancel_ids_never_repeat(before, nanos);
            assert(r@ == cancel_id_text(self@.client_id, number as nat));
            assert forall|text: Seq<char>|
                before.may_have_issued(text) implies #[trigger] self@.may_have_issued(text) by {
                let earlier = choose|earlier: u64|
                    before.last is Some && earlier <= before.last->0 && text
                        == #[trigger] cancel_id_text(before.client_id, earlier as nat);
                assert(text == cancel_id_text(self@.client_id, earlier as nat));
            }
        }
        r
    }
}

/// The numbers of two cancel IDs of a client are the same if the IDs are.
proof fn lemma_cancel_number(client_id: Seq<char>, a: nat, b: nat)
    requires
        cancel_id_text(client_id, a) == cancel_id_text(client_id, b),
    ensures
        a == b,
{
    let head = "C-"@ + client_id + "-"@;
    lemma_numeral(a);
    lemma_numeral(b);
    assert((head + numeral(a)).skip(head.len() as int) =~= numeral(a));
    assert((head + numeral(b)).skip(head.len() as int) =~= numeral(b));
}

/// Cancel IDs never repeat: whatever the clock shows, the next ID of a client is
/// none of those that it may have given out.
pub proof fn law_cancel_ids_never_repeat(ids: CancelIdsView, nanos: u32)
    ensures
        !ids.may_have_issued(cancel_id_text(ids.client_id, next_number(ids.last, nanos))),
{
    let text = cancel_id_text(ids.client_id, next_number(ids.last, nanos));
    if ids.may_have_issued(text) {
        let earlier = choose|earlier: u64|
            ids.last is Some && earlier <= ids.last->0 && text == #[trigger] cancel_id_text(
                ids.client_id,
                earlier as nat,
            );
        lemma_cancel_number(ids.client_id, earlier as nat, next_number(ids.last, nanos));
    }
}

// ---------------------------------------------------------------------------
// Reports
// ---------------------------------------------------------------------------

/// What a report of the exchange means for an order.
#[derive(Debug)]
pub enum ReportKind {
    /// The venue took the order.
    Accepted,
    /// The order is filled. The exchange does not report liquidity flags; all
    /// fills are treated as taker-side.
    Filled { trade_id: String, last_qty: String, last_px: String },
    /// The order is filled in part: it stays open as it is.
    Updated,
    /// The order was cancelled.
    Canceled,
    /// The venue rejected the order.
    Rejected { reason: String },
}

/// A report of the exchange on one order.
#[derive(Debug)]
pub struct VenueReport {
    pub client_order_id: String,
    pub venue_order_id: String,
    pub kind: ReportKind,
}

/// An event was translated into a report; events of the session mean none.
pub open spec fn translated(event: ExecEvent, r: Option<VenueReport>) -> bool {
    match event {
        ExecEvent::New { cl_ord_id, order_id } => r matches Some(report)
            && report.client_order_id@ == cl_ord_id@ && report.venue_order_id@ == order_id@
            && report.kind is Accepted,
        ExecEvent::Fill { cl_ord_id, order_id, complete, last_qty, last_px, cum_qty } =>
            r matches Some(report) && report.client_order_id@ == cl_ord_id@
            && report.venue_order_id@ == order_id@ && if complete {
            report.kind matches ReportKind::Filled { trade_id, last_qty: qty, last_px: px }
                && trade_id@ == "T-"@ + cl_ord_id@ && qty@ == amount_text(last_qty) && px@
                == amount_text(last_px)
        } else {
            report.kind is Updated
        },
        ExecEvent::Canceled { cl_ord_id, order_id } => r matches Some(report)
            && report.client_order_id@ == cl_ord_id@ && report.venue_order_id@ == order_id@
            && report.kind is Canceled,
        ExecEvent::Rejected { cl_ord_id, reason } => r matches Some(report)
            && report.client_order_id@ == cl_ord_id@ && report.venue_order_id@ == "0"@ && (
        report.kind matches ReportKind::Rejected { reason: text } && text@ == reason@),
        ExecEvent::Session(_) => r is None,
    }
}

/// Translates an event of the exchange into a report on an order.
pub fn translate(event: &ExecEvent) -> (r: Option<VenueReport>)
    ensures
        translated(*event, r),
{
    match event {
        ExecEvent::New { cl_ord_id, order_id } => Some(
            VenueReport {
                client_order_id: cl_ord_id.clone(),
                venue_order_id: order_id.clone(),
                kind: ReportKind::Accepted,
            },
        ),
        ExecEvent::Fill { cl_ord_id, order_id, complete, last_qty, last_px, cum_qty } => {
            let kind = if *complete {
                ReportKind::Filled {
                    trade_id: join2("T-", cl_ord_id.as_str()),
                    last_qty: last_qty.to_text(),
                    last_px: last_px.to_text(),
                }
            } else {
                ReportKind::Updated
            };
            Some(
                VenueReport {
                    client_order_id: cl_ord_id.clone(),
                    venue_order_id: order_id.clone(),
                    kind,
                },
            )
        },
        ExecEvent::Canceled { cl_ord_id, order_id } => Some(
            VenueReport {
                client_order_id: cl_ord_id.clone(),
                venue_order_id: order_id.clone(),
                kind: ReportKind::Canceled,
            },
        ),
        ExecEvent::Rejected { cl_ord_id, reason } => Some(
            VenueReport {
                client_order_id: cl_ord_id.clone(),
                venue_order_id: "0".to_owned(),
                kind: ReportKind::Rejected { reason: reason.clone() },
            },
        ),
        ExecEvent::Session(_) => None,
    }
}

/// The order that an event of the exchange is about; an event of the session is
/// about none.
pub open spec fn order_of(event: ExecEvent) -> Option<Seq<char>> {
    match event {
        ExecEvent::New { cl_ord_id, order_id } => Some(cl_ord_id@),
        ExecEvent::Fill { cl_ord_id, order_id, complete, last_qty, last_px, cum_qty } => Some(
            cl_ord_id@,
        ),
        ExecEvent::Canceled { cl_ord_id, order_id } => Some(cl_ord_id@),
        ExecEvent::Rejected { cl_ord_id, reason } => Some(cl_ord_id@),
        ExecEvent::Session(_) => None,
    }
}

/// The order that an event of the exchange is about, if it is about one.
pub fn reported_order(event: &ExecEvent) -> (r: Option<String>)
    ensures
        match r {
            Some(id) => order_of(*event) == Some(id@),
            None => order_of(*event) is None,
        },
{
    match event {
        ExecEvent::New { cl_ord_id, order_id } => Some(cl_ord_id.clone()),
        ExecEvent::Fill { cl_ord_id, order_id, complete, last_qty, last_px, cum_qty } => Some(
            cl_ord_id.clone(),
        ),
        ExecEvent::Canceled { cl_ord_id, order_id } => Some(cl_ord_id.clone()),
        ExecEvent::Rejected { cl_ord_id, reason } => Some(cl_ord_id.clone()),
        ExecEvent::Session(_) => None,
    }
}

/// What the cache knows of an order.
#[derive(Debug)]
pub struct KnownOrder {
    pub quantity: String,
    pub price: Option<String>,
}

/// The side of a fill that took liquidity or made it.
#[derive(Debug, Clone, Copy, PartialEq, Eq, Structural)]
pub enum LiquiditySide {
    Maker,
    Taker,
}

/// What happens to a known order.
#[derive(Debug)]
pub enum OrderChange {
    Accepted,
    Filled { trade_id: String, last_qty: String, last_px: String, liquidity_side: LiquiditySide },
    /// The order goes on with this quantity and this price.
    Updated { quantity: String, price: Option<String> },
    Canceled,
    Rejected { reason: String },
}

/// A report of the exchange on a known order.
#[derive(Debug)]
pub struct OrderReport {
    pub client_order_id: String,
    pub venue_order_id: String,
    pub change: OrderChange,
}

/// The change of an order that an event means, by what the cache knows of the
/// order: a fill counts as taker-side, and an order that is filled in part keeps its
/// quantity and price.
pub open spec fn changes(event: ExecEvent, order: KnownOrder, change: OrderChange) -> bool {
    match event {
        ExecEvent::New { cl_ord_id, order_id } => change is Accepted,
        ExecEvent::Fill { cl_ord_id, order_id, complete, last_qty, last_px, cum_qty } =>
            if complete {
            change matches OrderChange::Filled {
                trade_id,
                last_qty: qty,
                last_px: px,
                liquidity_side,
            } && trade_id@ == "T-"@ + cl_ord_id@ && qty@ == amount_text(last_qty) && px@
                == amount_text(last_px) && liquidity_side == LiquiditySide::Taker
        } else {
            change == (OrderChange::Updated { quantity: order.quantity, price: order.price })
        },
        ExecEvent::Canceled { cl_ord_id, order_id } => change is Canceled,
        ExecEvent::Rejected { cl_ord_id, reason } =>
            change matches OrderChange::Rejected { reason: text } && text@ == reason@,
        ExecEvent::Session(_) => false,
    }
}

/// The ID by which the venue knows the order of an event.
pub open spec fn venue_order_of(event: ExecEvent) -> Seq<char> {
    match event {
        ExecEvent::New { cl_ord_id, order_id } => order_id@,
        ExecEvent::Fill { cl_ord_id, order_id, complete, last_qty, last_px, cum_qty } => order_id@,
        ExecEvent::Canceled { cl_ord_id, order_id } => order_id@,
        _ => "0"@,
    }
}

/// Translates an event of the exchange, with what the cache knows of the order that
/// it is about, into a change of that order. An event of the session means none, and
/// so does one on an order that the cache does not know.
pub fn translate_for(event: &ExecEvent, known: Option<KnownOrder>) -> (r: Option<OrderReport>)
    ensures
        match (order_of(*event), known) {
            (Some(id), Some(order)) => r matches Some(report) && report.client_order_id@ == id
                && report.venue_order_id@ == venue_order_of(*event) && changes(
                *event,
                order,
                report.change,
            ),
            _ => r is None,
        },
{
    let order = match known {
        Some(order) => order,
        None => {
            return None;
        },
    };
    let report = match translate(event) {
        Some(report) => report,
        None => {
            return None;
        },
    };
    let change = match report.kind {
        ReportKind::Accepted => OrderChange::Accepted,
        ReportKind::Filled { trade_id, last_qty, last_px } => OrderChange::Filled {
            trade_id,
            last_qty,
            last_px,
            liquidity_side: LiquiditySide::Taker,
        },
        ReportKind::Updated => OrderChange::Updated {
            quantity: order.quantity,
            price: order.price,
        },
        ReportKind::Canceled => OrderChange::Canceled,
        ReportKind::Rejected { reason } => OrderChange::Rejected { reason },
    };
    Some(
        OrderReport {
            client_order_id: report.client_order_id,
            venue_order_id: report.venue_order_id,
            change,
        },
    )
}

} // verus!
