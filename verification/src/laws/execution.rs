//! Laws of what the exchange reports: how a report on the wire becomes a change of
//! an order, and how an order of the hub becomes a message for the exchange.

use vstd::prelude::*;

use crate::amount::{amount_text, lemma_zero, parsed_amount, zero_amount, Amount};
use crate::bridge::{OrderSide, TimeInForce};
use crate::laws::session::{lemma_clock_time_is_clean, lemma_order_reads_back, session_is_clean};
use crate::local_client::{
    check_channel, price_on_wire, price_text, side_on_wire, submit_message, translate,
    translate_for, KnownOrder, LiquiditySide, OrderChange, OrderReport, SubmitRefusal, VenueReport,
};
use crate::local_exchange::{
    decode_message, field_of, order_payload, parsed_fields, ExecEvent, FieldView, FixError,
    FixWriter, SOH,
};
use crate::text::numeral;
use crate::utc::is_clock_time;

verus! {

// ---------------------------------------------------------------------------
// Reports
// ---------------------------------------------------------------------------

/// A fill on the wire comes back: the quantity and the price of the last fill are
/// read from their own tags, and so is the quantity of all fills; tag 150 says
/// whether the order is complete.
pub proof fn law_fill_report_comes_back(
    message: &str,
    fields: Seq<FieldView>,
    last_qty: Amount,
    last_px: Amount,
    cum_qty: Amount,
    r: Result<ExecEvent, FixError>,
)
    requires
        call_ensures(decode_message, (message,), r),
        parsed_fields(message@) == Ok::<Seq<FieldView>, Seq<char>>(fields),
        field_of(fields, 35) == Some("8"@),
        field_of(fields, 150) == Some("1"@) || field_of(fields, 150) == Some("2"@),
        field_of(fields, 32) matches Some(text) && parsed_amount(text) == Ok::<Amount, Seq<char>>(
            last_qty,
        ),
        field_of(fields, 31) matches Some(text) && parsed_amount(text) == Ok::<Amount, Seq<char>>(
            last_px,
        ),
        field_of(fields, 14) matches Some(text) && parsed_amount(text) == Ok::<Amount, Seq<char>>(
            cum_qty,
        ),
    ensures
        r matches Ok(
            ExecEvent::Fill {
                cl_ord_id,
                order_id,
                complete,
                last_qty: qty,
                last_px: px,
                cum_qty: cum,
            },
        ) && qty == last_qty && px == last_px && cum == cum_qty && complete == (field_of(
            fields,
            150,
        ) == Some("2"@)) && (field_of(fields, 11) matches Some(id) ==> cl_ord_id@ == id) && (
        field_of(fields, 37) matches Some(id) ==> order_id@ == id),
{
    reveal_strlit("0");
    reveal_strlit("1");
    reveal_strlit("2");
    assert("0"@[0] != "1"@[0] && "0"@[0] != "2"@[0] && "1"@[0] != "2"@[0]);
}

/// Two messages agree in a tag.
pub open spec fn agree_in(a: Seq<FieldView>, b: Seq<FieldView>, tag: u32) -> bool {
    field_of(a, tag) == field_of(b, tag)
}

/// The decimals of a fill do not depend on one another: where two reports that can
/// be read agree in one of the tags, what is read from it is the same, however the
/// other tags differ.
pub proof fn law_fill_decimals_are_independent(
    message: &str,
    other_message: &str,
    fields: Seq<FieldView>,
    other_fields: Seq<FieldView>,
    event: ExecEvent,
    other_event: ExecEvent,
)
    requires
        call_ensures(decode_message, (message,), Ok::<ExecEvent, FixError>(event)),
        call_ensures(decode_message, (other_message,), Ok::<ExecEvent, FixError>(other_event)),
        parsed_fields(message@) == Ok::<Seq<FieldView>, Seq<char>>(fields),
        parsed_fields(other_message@) == Ok::<Seq<FieldView>, Seq<char>>(other_fields),
        event is Fill,
        other_event is Fill,
    ensures
        agree_in(fields, other_fields, 32) ==> event->last_qty == other_event->last_qty,
        agree_in(fields, other_fields, 31) ==> event->last_px == other_event->last_px,
        agree_in(fields, other_fields, 14) ==> event->cum_qty == other_event->cum_qty,
        agree_in(fields, other_fields, 150) ==> event->complete == other_event->complete,
        agree_in(fields, other_fields, 11) ==> event->Fill_cl_ord_id@
            == other_event->Fill_cl_ord_id@,
        agree_in(fields, other_fields, 37) ==> event->Fill_order_id@
            == other_event->Fill_order_id@,
{
}

/// What the exchange says of an order without a fill comes back too: that it took
/// the order, that it cancelled it, or that it rejected it and why. A reject of the
/// session is one of the order as well, and any other message has no order
/// semantics.
pub proof fn law_other_reports_come_back(
    message: &str,
    fields: Seq<FieldView>,
    id: Seq<char>,
    venue_id: Seq<char>,
    text: Seq<char>,
    r: Result<ExecEvent, FixError>,
)
    requires
        call_ensures(decode_message, (message,), r),
        parsed_fields(message@) == Ok::<Seq<FieldView>, Seq<char>>(fields),
        field_of(fields, 11) == Some(id),
        field_of(fields, 37) == Some(venue_id),
        field_of(fields, 58) == Some(text),
    ensures
        field_of(fields, 35) == Some("8"@) && field_of(fields, 150) == Some("0"@) ==> (r matches Ok(
            ExecEvent::New { cl_ord_id, order_id },
        ) && cl_ord_id@ == id && order_id@ == venue_id),
        field_of(fields, 35) == Some("8"@) && field_of(fields, 150) == Some("4"@) ==> (r matches Ok(
            ExecEvent::Canceled { cl_ord_id, order_id },
        ) && cl_ord_id@ == id && order_id@ == venue_id),
        field_of(fields, 35) == Some("8"@) && field_of(fields, 150) == Some("8"@) ==> (r matches Ok(
            ExecEvent::Rejected { cl_ord_id, reason },
        ) && cl_ord_id@ == id && reason@ == text),
        field_of(fields, 35) == Some("3"@) ==> (r matches Ok(
            ExecEvent::Rejected { cl_ord_id, reason },
        ) && cl_ord_id@ == id && reason@ == text),
        field_of(fields, 35) matches Some(kind) ==> (kind != "8"@ && kind != "3"@ ==> (r matches Ok(
            ExecEvent::Session(said),
        ) && said@ == kind)),
        field_of(fields, 35) is None ==> r is Err,
{
    reveal_strlit("0");
    reveal_strlit("1");
    reveal_strlit("2");
    reveal_strlit("3");
    reveal_strlit("4");
    reveal_strlit("8");
    assert("0"@[0] == '0' && "1"@[0] == '1' && "2"@[0] == '2' && "3"@[0] == '3');
    assert("4"@[0] == '4' && "8"@[0] == '8');
}

/// What an execution report leaves out is read as nothing: no kind of report says that
/// the order was taken, no ID is the empty one, no reason is an unspecified one, and
/// no decimal is zero. A decimal that is none makes the report unreadable, and a report
/// of another kind has no order semantics.
pub proof fn law_incomplete_reports_are_read(
    message: &str,
    fields: Seq<FieldView>,
    zero: Result<Amount, Seq<char>>,
    r: Result<ExecEvent, FixError>,
)
    requires
        call_ensures(decode_message, (message,), r),
        parsed_fields(message@) == Ok::<Seq<FieldView>, Seq<char>>(fields),
        field_of(fields, 35) == Some("8"@),
        zero == parsed_amount("0"@),
    ensures
        field_of(fields, 150) is None ==> r matches Ok(ExecEvent::New { .. }),
        r matches Ok(ExecEvent::New { cl_ord_id, order_id }) ==> {
            &&& field_of(fields, 11) is None ==> cl_ord_id@.len() == 0
            &&& field_of(fields, 37) is None ==> order_id@.len() == 0
        },
        r matches Ok(ExecEvent::Canceled { cl_ord_id, order_id }) ==> {
            &&& field_of(fields, 11) is None ==> cl_ord_id@.len() == 0
            &&& field_of(fields, 37) is None ==> order_id@.len() == 0
        },
        r matches Ok(ExecEvent::Rejected { cl_ord_id, reason }) ==> {
            &&& field_of(fields, 11) is None ==> cl_ord_id@.len() == 0
            &&& field_of(fields, 58) is None ==> reason@ == "unspecified"@
        },
        r matches Ok(
            ExecEvent::Fill { cl_ord_id, order_id, complete, last_qty, last_px, cum_qty },
        ) ==> {
            &&& field_of(fields, 11) is None ==> cl_ord_id@.len() == 0
            &&& field_of(fields, 37) is None ==> order_id@.len() == 0
            &&& field_of(fields, 32) is None ==> zero == Ok::<Amount, Seq<char>>(last_qty)
            &&& field_of(fields, 31) is None ==> zero == Ok::<Amount, Seq<char>>(last_px)
            &&& field_of(fields, 14) is None ==> zero == Ok::<Amount, Seq<char>>(cum_qty)
            &&& field_of(fields, 32) matches Some(text) ==> parsed_amount(text) is Ok
            &&& field_of(fields, 31) matches Some(text) ==> parsed_amount(text) is Ok
            &&& field_of(fields, 14) matches Some(text) ==> parsed_amount(text) is Ok
        },
        r is Err ==> (field_of(fields, 150) == Some("1"@) || field_of(fields, 150) == Some("2"@)) && {
            ||| zero is Err
            ||| (field_of(fields, 32) matches Some(text) && parsed_amount(text) is Err)
            ||| (field_of(fields, 31) matches Some(text) && parsed_amount(text) is Err)
            ||| (field_of(fields, 14) matches Some(text) && parsed_amount(text) is Err)
        },
        field_of(fields, 150) matches Some(kind) ==> (kind != "0"@ && kind != "1"@ && kind != "2"@
            && kind != "4"@ && kind != "8"@ ==> (r matches Ok(ExecEvent::Session(said)) && said@
            == "ExecType "@ + kind)),
{
    reveal_strlit("0");
    reveal_strlit("1");
    reveal_strlit("2");
    reveal_strlit("4");
    reveal_strlit("8");
    assert("0"@[0] == '0' && "1"@[0] == '1' && "2"@[0] == '2' && "4"@[0] == '4' && "8"@[0] == '8');
}

/// A fill on the wire reaches its order: the message that completes an order of the
/// cache becomes a fill of that order, by the quantity and at the price that the
/// message gives for the last fill; a message of a partial fill leaves the order its
/// own quantity and price.
pub proof fn law_fill_reaches_its_order(
    message: &str,
    fields: Seq<FieldView>,
    id: Seq<char>,
    venue_id: Seq<char>,
    last_qty: Amount,
    last_px: Amount,
    cum_qty: Amount,
    event: ExecEvent,
    known: Option<KnownOrder>,
    r: Option<OrderReport>,
)
    requires
        call_ensures(decode_message, (message,), Ok::<ExecEvent, FixError>(event)),
        call_ensures(translate_for, (&event, known), r),
        parsed_fields(message@) == Ok::<Seq<FieldView>, Seq<char>>(fields),
        field_of(fields, 35) == Some("8"@),
        field_of(fields, 150) == Some("1"@) || field_of(fields, 150) == Some("2"@),
        field_of(fields, 11) == Some(id),
        field_of(fields, 37) == Some(venue_id),
        field_of(fields, 32) matches Some(text) && parsed_amount(text) == Ok::<Amount, Seq<char>>(
            last_qty,
        ),
        field_of(fields, 31) matches Some(text) && parsed_amount(text) == Ok::<Amount, Seq<char>>(
            last_px,
        ),
        field_of(fields, 14) matches Some(text) && parsed_amount(text) == Ok::<Amount, Seq<char>>(
            cum_qty,
        ),
    ensures
        r is Some <==> known is Some,
        r matches Some(report) ==> {
            &&& report.client_order_id@ == id
            &&& report.venue_order_id@ == venue_id
            &&& field_of(fields, 150) == Some("2"@) ==> (report.change matches OrderChange::Filled {
                trade_id,
                last_qty: qty,
                last_px: px,
                liquidity_side,
            } && trade_id@ == "T-"@ + id && qty@ == amount_text(last_qty) && px@ == amount_text(
                last_px,
            ) && liquidity_side == LiquiditySide::Taker)
            &&& field_of(fields, 150) == Some("1"@) ==> (report.change matches OrderChange::Updated {
                quantity,
                price,
            } && quantity == known->0.quantity && price == known->0.price)
        },
{
    law_fill_report_comes_back(
        message,
        fields,
        last_qty,
        last_px,
        cum_qty,
        Ok::<ExecEvent, FixError>(event),
    );
    reveal_strlit("1");
    reveal_strlit("2");
    assert("1"@[0] != "2"@[0]);
}

/// Each event of the exchange on an order keeps the kind and the order that it is
/// about: two events lead to the same kind of report only if they are of the same
/// kind, and an event of the session leads to none.
pub proof fn law_reports_keep_their_kind(event: ExecEvent, r: Option<VenueReport>)
    requires
        call_ensures(translate, (&event,), r),
    ensures
        r is None <==> event is Session,
        r matches Some(report) ==> {
            &&& report.kind is Accepted <==> event is New
            &&& report.kind is Filled <==> (event is Fill && event->complete)
            &&& report.kind is Updated <==> (event is Fill && !event->complete)
            &&& report.kind is Canceled <==> event is Canceled
            &&& report.kind is Rejected <==> event is Rejected
            &&& event matches ExecEvent::New { cl_ord_id, order_id } ==> report.client_order_id@
                == cl_ord_id@ && report.venue_order_id@ == order_id@
            &&& event matches ExecEvent::Canceled { cl_ord_id, order_id }
                ==> report.client_order_id@ == cl_ord_id@ && report.venue_order_id@ == order_id@
            &&& event matches ExecEvent::Rejected { cl_ord_id, reason } ==> report.client_order_id@
                == cl_ord_id@ && report.kind->reason@ == reason@ && report.venue_order_id@ == "0"@
            &&& event is Fill ==> report.client_order_id@ == event->Fill_cl_ord_id@
                && report.venue_order_id@ == event->Fill_order_id@
            &&& event is Fill && event->complete ==> report.kind->last_qty@ == amount_text(
                event->last_qty,
            ) && report.kind->last_px@ == amount_text(event->last_px) && report.kind->trade_id@
                == "T-"@ + event->Fill_cl_ord_id@
        },
{
}

/// What the cache knows decides whether a report counts, and the event decides what
/// it is: a report on a known order is of the event's kind and on the event's order.
pub proof fn law_known_orders_change_by_their_events(
    event: ExecEvent,
    known: Option<KnownOrder>,
    r: Option<OrderReport>,
)
    requires
        call_ensures(translate_for, (&event, known), r),
    ensures
        r is Some <==> known is Some && !(event is Session),
        r matches Some(report) ==> {
            &&& report.change is Accepted <==> event is New
            &&& report.change is Filled <==> (event is Fill && event->complete)
            &&& report.change is Updated <==> (event is Fill && !event->complete)
            &&& report.change is Canceled <==> event is Canceled
            &&& report.change is Rejected <==> event is Rejected
            &&& event matches ExecEvent::New { cl_ord_id, order_id } ==> report.client_order_id@
                == cl_ord_id@ && report.venue_order_id@ == order_id@
            &&& event matches ExecEvent::Canceled { cl_ord_id, order_id }
                ==> report.client_order_id@ == cl_ord_id@ && report.venue_order_id@ == order_id@
            &&& event matches ExecEvent::Rejected { cl_ord_id, reason } ==> report.client_order_id@
                == cl_ord_id@ && report.change->reason@ == reason@ && report.venue_order_id@ == "0"@
            &&& event is Fill ==> report.client_order_id@ == event->Fill_cl_ord_id@
                && report.venue_order_id@ == event->Fill_order_id@
            &&& event is Fill && event->complete ==> report.change->last_qty@ == amount_text(
                event->last_qty,
            ) && report.change->last_px@ == amount_text(event->last_px)
            &&& event is Fill && !event->complete ==> report.change->quantity
                == known->0.quantity && report.change->price == known->0.price
        },
{
}

// ---------------------------------------------------------------------------
// Orders
// ---------------------------------------------------------------------------

/// The channel carries exactly the good-for-day orders without further
/// instructions, and each kind of order that it refuses has its own code.
pub proof fn law_channel_carries_plain_day_orders(
    time_in_force: TimeInForce,
    post_only: bool,
    reduce_only: bool,
    r: Result<(), String>,
)
    requires
        call_ensures(check_channel, (time_in_force, post_only, reduce_only), r),
    ensures
        r is Ok <==> time_in_force == TimeInForce::Day && !post_only && !reduce_only,
        r matches Err(code) ==> {
            &&& code@ == "UNSUPPORTED_TIME_IN_FORCE"@ <==> time_in_force != TimeInForce::Day
            &&& code@ == "UNSUPPORTED_POST_ONLY"@ <==> time_in_force == TimeInForce::Day
                && post_only
            &&& code@ == "UNSUPPORTED_REDUCE_ONLY"@ <==> time_in_force == TimeInForce::Day
                && !post_only
        },
{
    reveal_strlit("UNSUPPORTED_TIME_IN_FORCE");
    reveal_strlit("UNSUPPORTED_POST_ONLY");
    reveal_strlit("UNSUPPORTED_REDUCE_ONLY");
    assert("UNSUPPORTED_TIME_IN_FORCE"@.len() == 25);
    assert("UNSUPPORTED_POST_ONLY"@.len() == 21);
    assert("UNSUPPORTED_REDUCE_ONLY"@.len() == 23);
}

/// An order of the hub can be read off the wire: its ID, its symbol, its side, its
/// quantity and its price stand under their own tags, decimal place for decimal
/// place. An order that the channel cannot carry, or whose quantity is no decimal,
/// takes no number of the session.
pub proof fn law_submitted_order_reads_back(
    writer: &mut FixWriter,
    client_order_id: &str,
    symbol: &str,
    side: OrderSide,
    quantity: &str,
    price: Option<&str>,
    time_in_force: TimeInForce,
    post_only: bool,
    reduce_only: bool,
    r: Result<String, SubmitRefusal>,
)
    requires
        call_ensures(
            submit_message,
            (
                writer,
                client_order_id,
                symbol,
                side,
                quantity,
                price,
                time_in_force,
                post_only,
                reduce_only,
            ),
            r,
        ),
        session_is_clean(old(writer)@),
        !client_order_id@.contains(SOH),
        !symbol@.contains(SOH),
    ensures
        r is Ok <==> time_in_force == TimeInForce::Day && !post_only && !reduce_only
            && parsed_amount(quantity@) is Ok,
        r is Err ==> final(writer)@ == old(writer)@,
        r matches Ok(message) ==> {
            &&& final(writer)@.next_seq == (old(writer)@.next_seq + 1) as u64
            &&& parsed_fields(message@) is Ok
            &&& ({
                let fields = parsed_fields(message@)->Ok_0;
                &&& field_of(fields, 35) == Some("D"@)
                &&& field_of(fields, 11) == Some(client_order_id@)
                &&& field_of(fields, 55) == Some(symbol@)
                &&& field_of(fields, 54) == Some(
                    if side == OrderSide::Buy {
                        "1"@
                    } else {
                        "2"@
                    },
                )
                &&& parsed_amount(quantity@) matches Ok(amount) && field_of(fields, 38) == Some(
                    amount_text(amount),
                )
                &&& field_of(fields, 44) is Some <==> price is Some
                &&& price matches Some(text) ==> (parsed_amount(text@) matches Ok(amount)
                    ==> field_of(fields, 44) == Some(amount_text(amount))) && (parsed_amount(
                    text@,
                ) is Err ==> field_of(fields, 44) == Some("0"@))
                &&& field_of(fields, 40) == Some(
                    if price is Some {
                        "2"@
                    } else {
                        "1"@
                    },
                )
                &&& field_of(fields, 59) == Some("0"@)
                &&& field_of(fields, 34) == Some(numeral(old(writer)@.next_seq as nat))
            })
        },
{
    if let Ok(message) = r {
        let session = old(writer)@;
        let amount = parsed_amount(quantity@)->Ok_0;
        let px = price_on_wire(price_text(price));
        reveal_strlit("0");
        lemma_zero();
        assert(amount_text(zero_amount()) =~= "0"@) by {
            reveal_with_fuel(numeral, 2);
        }
        let (transacted, now) = choose|transacted: Seq<char>, now: Seq<char>|
            #![trigger is_clock_time(transacted), is_clock_time(now)]
            is_clock_time(transacted) && is_clock_time(now) && message@ == session.framed(
                "D"@,
                now,
                order_payload(
                    client_order_id@,
                    symbol@,
                    side_on_wire(side),
                    amount,
                    px,
                    transacted,
                ),
            );
        lemma_clock_time_is_clean(transacted);
        lemma_clock_time_is_clean(now);
        lemma_order_reads_back(
            session,
            client_order_id@,
            symbol@,
            side_on_wire(side),
            amount,
            px,
            transacted,
            now,
            message@,
        );
    }
}

} // verus!
