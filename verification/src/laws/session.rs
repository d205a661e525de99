//! Laws of the session with the exchange: what is sent can be read off the wire,
//! tag by tag, and what the exchange reports is taken up field by field.

use vstd::prelude::*;
use vstd::utf8::encode_utf8;

use crate::amount::{amount_text, pow10, Amount};
use crate::local_exchange::{
    body_fields, build_body_at, byte_sum, cancel_payload, checksum, checksum_of, field_of,
    field_text, field_views, frame, holds_checksum_field, law_fields_parse_back,
    law_frame_parses_back, law_next_frame_is_cut_out, law_partial_frame_waits, lemma_checksum_field,
    lemma_encode_add, logon_reply, message_text, order_payload, parse_fields, parsed_fields,
    take_frame, values_are_clean, wire, FieldView, FixError, FixWriter, Side, WriterView, SOH,
};
use crate::text::{
    is_digit, lemma_digits_without, lemma_numeral, lemma_padded, lemma_parsed_numeral,
    lemma_parsed_padded, numeral, padded, parsed,
};
use crate::utc::{
    day_number, is_clock_seconds, is_clock_time, is_date, is_timestamp, written_timestamp,
};

verus! {

// ---------------------------------------------------------------------------
// Fields
// ---------------------------------------------------------------------------

/// The value of a tag is that of its first field, and there is none exactly if no
/// field has the tag.
pub proof fn law_first_field_counts(fields: Seq<FieldView>, tag: u32)
    ensures
        match field_of(fields, tag) {
            Some(value) => exists|i: int|
                0 <= i < fields.len() && #[trigger] fields[i] == (tag, value) && forall|j: int|
                    0 <= j < i ==> (#[trigger] fields[j]).0 != tag,
            None => forall|i: int| 0 <= i < fields.len() ==> (#[trigger] fields[i]).0 != tag,
        },
    decreases fields.len(),
{
    if fields.len() > 0 {
        if fields[0].0 == tag {
            assert(fields[0] == (tag, fields[0].1));
        } else {
            let rest = fields.drop_first();
            law_first_field_counts(rest, tag);
            match field_of(rest, tag) {
                Some(value) => {
                    let k = choose|k: int|
                        0 <= k < rest.len() && #[trigger] rest[k] == (tag, value) && forall|j: int|
                            0 <= j < k ==> (#[trigger] rest[j]).0 != tag;
                    assert(fields[k + 1] == (tag, value));
                    assert forall|j: int| 0 <= j < k + 1 implies (#[trigger] fields[j]).0 != tag by {
                        if j > 0 {
                            assert(rest[j - 1] == fields[j]);
                        }
                    }
                },
                None => {
                    assert forall|i: int| 0 <= i < fields.len() implies (#[trigger] fields[i]).0
                        != tag by {
                        if i > 0 {
                            assert(rest[i - 1] == fields[i]);
                        }
                    }
                },
            }
        }
    }
}

/// A field before which its tag does not occur gives the value of the tag.
proof fn lemma_field_is(fields: Seq<FieldView>, tag: u32, at: int)
    requires
        0 <= at < fields.len(),
        fields[at].0 == tag,
        forall|j: int| 0 <= j < at ==> (#[trigger] fields[j]).0 != tag,
    ensures
        field_of(fields, tag) == Some(fields[at].1),
{
    law_first_field_counts(fields, tag);
    match field_of(fields, tag) {
        Some(value) => {
            let i = choose|i: int|
                0 <= i < fields.len() && #[trigger] fields[i] == (tag, value) && forall|j: int|
                    0 <= j < i ==> (#[trigger] fields[j]).0 != tag;
            if i < at {
                assert(fields[i].0 != tag);
            }
            if at < i {
                assert(fields[at].0 != tag);
            }
        },
        None => {
            assert(fields[at].0 != tag);
        },
    }
}

/// The notation of an amount holds digits, a sign and a point, and nothing else.
pub proof fn lemma_amount_text_without(a: Amount, mark: char)
    requires
        !is_digit(mark),
        mark != '-',
        mark != '.',
    ensures
        !amount_text(a).contains(mark),
{
    reveal_strlit("-");
    reveal_strlit(".");
    let magnitude = if a.mantissa() < 0 {
        -a.mantissa() as nat
    } else {
        a.mantissa() as nat
    };
    let whole = numeral(magnitude);
    let left = numeral(magnitude / pow10(a.scale()));
    let right = padded(magnitude % pow10(a.scale()), a.scale());
    lemma_numeral(magnitude);
    lemma_numeral(magnitude / pow10(a.scale()));
    lemma_padded(magnitude % pow10(a.scale()), a.scale());
    lemma_digits_without(whole, mark);
    lemma_digits_without(left, mark);
    lemma_digits_without(right, mark);
    let text = amount_text(a);
    if text.contains(mark) {
        let i = choose|i: int| 0 <= i < text.len() && text[i] == mark;
        let sign: int = if a.mantissa() < 0 {
            1
        } else {
            0
        };
        if i >= sign {
            if a.scale() == 0 {
                assert(whole[i - sign] == mark);
            } else if i - sign < left.len() {
                assert(left[i - sign] == mark);
            } else if i - sign > left.len() {
                assert(right[i - sign - left.len() - 1] == mark);
            }
        }
    }
}

// ---------------------------------------------------------------------------
// What is sent
// ---------------------------------------------------------------------------

/// A session whose names hold no separator.
pub open spec fn session_is_clean(session: WriterView) -> bool {
    !session.sender.contains(SOH) && !session.target.contains(SOH)
}

/// A message reads back as its header and its payload.
proof fn lemma_message_reads_back(
    session: WriterView,
    msg_type: Seq<char>,
    sending_time: Seq<char>,
    payload: Seq<FieldView>,
    message: Seq<char>,
)
    requires
        session_is_clean(session),
        !msg_type.contains(SOH),
        !sending_time.contains(SOH),
        values_are_clean(payload),
        message == session.framed(msg_type, sending_time, payload),
    ensures
        parsed_fields(message) is Ok,
        ({
            let fields = parsed_fields(message)->Ok_0;
            &&& fields.len() == 8 + payload.len()
            &&& fields[0].0 == 8
            &&& fields[1].0 == 9
            &&& fields[2] == (35u32, msg_type)
            &&& fields[3] == (49u32, session.sender)
            &&& fields[4] == (56u32, session.target)
            &&& fields[5] == (34u32, numeral(session.next_seq as nat))
            &&& fields[6] == (52u32, sending_time)
            &&& forall|i: int| 0 <= i < payload.len() ==> fields[7 + i] == #[trigger] payload[i]
            &&& fields[fields.len() - 1].0 == 10
            &&& field_of(fields, 35) == Some(msg_type)
            &&& field_of(fields, 49) == Some(session.sender)
            &&& field_of(fields, 56) == Some(session.target)
            &&& field_of(fields, 34) == Some(numeral(session.next_seq as nat))
            &&& field_of(fields, 52) == Some(sending_time)
            &&& parsed(numeral(session.next_seq as nat), u64::MAX as nat) == Some(
                session.next_seq as nat,
            )
        }),
{
    let body = body_fields(
        msg_type,
        session.sender,
        session.target,
        session.next_seq,
        sending_time,
        payload,
    );
    lemma_numeral(session.next_seq as nat);
    lemma_digits_without(numeral(session.next_seq as nat), SOH);
    assert forall|i: int| 0 <= i < body.len() implies !(#[trigger] body[i]).1.contains(SOH) by {
        if i >= 5 {
            assert(body[i] == payload[i - 5]);
        }
    }
    law_frame_parses_back(body);
    let fields = parsed_fields(message)->Ok_0;
    assert forall|i: int| 0 <= i < payload.len() implies fields[7 + i] == #[trigger] payload[i] by {
        assert(fields[7 + i] == body[5 + i]);
    }
    assert(fields[2] == body[0] && fields[3] == body[1] && fields[4] == body[2]);
    assert(fields[5] == body[3] && fields[6] == body[4]);
    lemma_field_is(fields, 35, 2);
    lemma_field_is(fields, 49, 3);
    lemma_field_is(fields, 56, 4);
    lemma_field_is(fields, 34, 5);
    lemma_field_is(fields, 52, 6);
    lemma_parsed_numeral(session.next_seq as nat, u64::MAX as nat);
}

/// A new order can be read off the wire: each of its terms stands under its own tag
/// in the message, which is the next one of its session.
pub proof fn law_new_order_reads_back(
    writer: &mut FixWriter,
    cl_ord_id: &str,
    symbol: &str,
    side: Side,
    quantity: Amount,
    price: Option<Amount>,
    transact_time: &str,
    sending_time: &str,
    message: String,
)
    requires
        call_ensures(
            FixWriter::submit_order_at,
            (writer, cl_ord_id, symbol, side, quantity, price, transact_time, sending_time),
            message,
        ),
        session_is_clean(old(writer)@),
        !cl_ord_id@.contains(SOH),
        !symbol@.contains(SOH),
        !transact_time@.contains(SOH),
        !sending_time@.contains(SOH),
    ensures
        parsed_fields(message@) is Ok,
        ({
            let fields = parsed_fields(message@)->Ok_0;
            &&& field_of(fields, 35) == Some("D"@)
            &&& field_of(fields, 49) == Some(old(writer)@.sender)
            &&& field_of(fields, 56) == Some(old(writer)@.target)
            &&& field_of(fields, 34) matches Some(number) && parsed(number, u64::MAX as nat)
                == Some(old(writer)@.next_seq as nat)
            &&& field_of(fields, 52) == Some(sending_time@)
            &&& field_of(fields, 60) == Some(transact_time@)
            &&& field_of(fields, 11) == Some(cl_ord_id@)
            &&& field_of(fields, 55) == Some(symbol@)
            &&& field_of(fields, 54) == Some(
                if side == Side::Buy {
                    "1"@
                } else {
                    "2"@
                },
            )
            &&& field_of(fields, 38) == Some(amount_text(quantity))
            &&& field_of(fields, 44) == (match price {
                Some(px) => Some(amount_text(px)),
                None => None,
            })
            &&& field_of(fields, 40) == Some(
                if price is Some {
                    "2"@
                } else {
                    "1"@
                },
            )
            &&& field_of(fields, 59) == Some("0"@)
            &&& field_of(fields, 21) == Some("1"@)
        }),
        final(writer)@.next_seq == (old(writer)@.next_seq + 1) as u64,
        final(writer)@.sender == old(writer)@.sender,
        final(writer)@.target == old(writer)@.target,
{
    lemma_order_reads_back(
        old(writer)@,
        cl_ord_id@,
        symbol@,
        side,
        quantity,
        price,
        transact_time@,
        sending_time@,
        message@,
    );
}

/// A cancel request can be read off the wire: the fresh ID of the request stands
/// under tag 11, and the order that it is about under tag 41.
pub proof fn law_cancel_request_reads_back(
    writer: &mut FixWriter,
    cl_ord_id: &str,
    orig_cl_ord_id: &str,
    symbol: &str,
    side: Side,
    transact_time: &str,
    sending_time: &str,
    message: String,
)
    requires
        call_ensures(
            FixWriter::cancel_order_at,
            (writer, cl_ord_id, orig_cl_ord_id, symbol, side, transact_time, sending_time),
            message,
        ),
        session_is_clean(old(writer)@),
        !cl_ord_id@.contains(SOH),
        !orig_cl_ord_id@.contains(SOH),
        !symbol@.contains(SOH),
        !transact_time@.contains(SOH),
        !sending_time@.contains(SOH),
    ensures
        parsed_fields(message@) is Ok,
        ({
            let fields = parsed_fields(message@)->Ok_0;
            &&& field_of(fields, 35) == Some("F"@)
            &&& field_of(fields, 49) == Some(old(writer)@.sender)
            &&& field_of(fields, 56) == Some(old(writer)@.target)
            &&& field_of(fields, 34) matches Some(number) && parsed(number, u64::MAX as nat)
                == Some(old(writer)@.next_seq as nat)
            &&& field_of(fields, 52) == Some(sending_time@)
            &&& field_of(fields, 60) == Some(transact_time@)
            &&& field_of(fields, 11) == Some(cl_ord_id@)
            &&& field_of(fields, 41) == Some(orig_cl_ord_id@)
            &&& field_of(fields, 55) == Some(symbol@)
            &&& field_of(fields, 54) == Some(
                if side == Side::Buy {
                    "1"@
                } else {
                    "2"@
                },
            )
        }),
        final(writer)@.next_seq == (old(writer)@.next_seq + 1) as u64,
        final(writer)@.sender == old(writer)@.sender,
        final(writer)@.target == old(writer)@.target,
{
    lemma_cancel_reads_back(
        old(writer)@,
        cl_ord_id@,
        orig_cl_ord_id@,
        symbol@,
        side,
        transact_time@,
        sending_time@,
        message@,
    );
}

/// A cancel request of the session reads back with its terms.
proof fn lemma_cancel_reads_back(
    session: WriterView,
    cl_ord_id: Seq<char>,
    orig_cl_ord_id: Seq<char>,
    symbol: Seq<char>,
    side: Side,
    transact_time: Seq<char>,
    sending_time: Seq<char>,
    message: Seq<char>,
)
    requires
        message == session.framed(
            "F"@,
            sending_time,
            cancel_payload(cl_ord_id, orig_cl_ord_id, symbol, side, transact_time),
        ),
        session_is_clean(session),
        !cl_ord_id.contains(SOH),
        !orig_cl_ord_id.contains(SOH),
        !symbol.contains(SOH),
        !transact_time.contains(SOH),
        !sending_time.contains(SOH),
    ensures
        parsed_fields(message) is Ok,
        ({
            let fields = parsed_fields(message)->Ok_0;
            &&& field_of(fields, 35) == Some("F"@)
            &&& field_of(fields, 49) == Some(session.sender)
            &&& field_of(fields, 56) == Some(session.target)
            &&& field_of(fields, 34) == Some(numeral(session.next_seq as nat))
            &&& parsed(numeral(session.next_seq as nat), u64::MAX as nat) == Some(
                session.next_seq as nat,
            )
            &&& field_of(fields, 52) == Some(sending_time)
            &&& field_of(fields, 60) == Some(transact_time)
            &&& field_of(fields, 11) == Some(cl_ord_id)
            &&& field_of(fields, 41) == Some(orig_cl_ord_id)
            &&& field_of(fields, 55) == Some(symbol)
            &&& field_of(fields, 54) == Some(
                if side == Side::Buy {
                    "1"@
                } else {
                    "2"@
                },
            )
        }),
{
    let payload = cancel_payload(cl_ord_id, orig_cl_ord_id, symbol, side, transact_time);
    reveal_strlit("F");
    reveal_strlit("1");
    reveal_strlit("2");
    reveal_with_fuel(numeral, 2);
    assert(numeral(1) =~= "1"@);
    assert(numeral(2) =~= "2"@);
    assert forall|i: int| 0 <= i < payload.len() implies !(#[trigger] payload[i]).1.contains(
        SOH,
    ) by {}
    lemma_message_reads_back(session, "F"@, sending_time, payload, message);
    let fields = parsed_fields(message)->Ok_0;
    assert(fields[7] == payload[0] && fields[8] == payload[1] && fields[9] == payload[2]);
    assert(fields[10] == payload[3] && fields[11] == payload[4]);
    lemma_field_is(fields, 11, 7);
    lemma_field_is(fields, 41, 8);
    lemma_field_is(fields, 55, 9);
    lemma_field_is(fields, 54, 10);
    lemma_field_is(fields, 60, 11);
}

/// Two cancel requests differ on the wire in their own ID where their IDs differ,
/// and in the order where their orders differ, whichever session sends them.
pub proof fn law_cancel_requests_are_told_apart(
    one: &mut FixWriter,
    other: &mut FixWriter,
    cl_ord_id: &str,
    other_cl_ord_id: &str,
    orig_cl_ord_id: &str,
    other_orig_cl_ord_id: &str,
    symbol: &str,
    side: Side,
    transact_time: &str,
    sending_time: &str,
    message: String,
    other_message: String,
)
    requires
        call_ensures(
            FixWriter::cancel_order_at,
            (one, cl_ord_id, orig_cl_ord_id, symbol, side, transact_time, sending_time),
            message,
        ),
        call_ensures(
            FixWriter::cancel_order_at,
            (
                other,
                other_cl_ord_id,
                other_orig_cl_ord_id,
                symbol,
                side,
                transact_time,
                sending_time,
            ),
            other_message,
        ),
        session_is_clean(old(one)@),
        session_is_clean(old(other)@),
        !cl_ord_id@.contains(SOH),
        !orig_cl_ord_id@.contains(SOH),
        !other_cl_ord_id@.contains(SOH),
        !other_orig_cl_ord_id@.contains(SOH),
        !symbol@.contains(SOH),
        !transact_time@.contains(SOH),
        !sending_time@.contains(SOH),
    ensures
        ({
            let fields = parsed_fields(message@)->Ok_0;
            let others = parsed_fields(other_message@)->Ok_0;
            &&& field_of(fields, 11) == field_of(others, 11) <==> cl_ord_id@ == other_cl_ord_id@
            &&& field_of(fields, 41) == field_of(others, 41) <==> orig_cl_ord_id@
                == other_orig_cl_ord_id@
        }),
{
    law_cancel_request_reads_back(
        one,
        cl_ord_id,
        orig_cl_ord_id,
        symbol,
        side,
        transact_time,
        sending_time,
        message,
    );
    law_cancel_request_reads_back(
        other,
        other_cl_ord_id,
        other_orig_cl_ord_id,
        symbol,
        side,
        transact_time,
        sending_time,
        other_message,
    );
}

/// A logon can be read off the wire: it asks for no encryption and for the
/// heartbeat interval that was given. Without an interval there is none, and the
/// session has sent nothing.
pub proof fn law_logon_reads_back(
    writer: &mut FixWriter,
    heart_bt_int: u32,
    sending_time: &str,
    r: Result<String, FixError>,
)
    requires
        call_ensures(FixWriter::logon_at, (writer, heart_bt_int, sending_time), r),
        session_is_clean(old(writer)@),
        !sending_time@.contains(SOH),
    ensures
        r is Ok <==> heart_bt_int > 0,
        r is Err ==> final(writer)@ == old(writer)@,
        r matches Ok(message) ==> {
            &&& parsed_fields(message@) matches Ok(fields) && field_of(fields, 35) == Some("A"@)
                && field_of(fields, 49) == Some(old(writer)@.sender) && field_of(fields, 56)
                == Some(old(writer)@.target) && field_of(fields, 34) == Some(
                numeral(old(writer)@.next_seq as nat),
            ) && field_of(fields, 98) == Some("0"@) && (field_of(fields, 108) matches Some(interval)
                && parsed(interval, u32::MAX as nat) == Some(heart_bt_int as nat))
            &&& final(writer)@.next_seq == (old(writer)@.next_seq + 1) as u64
        },
{
    if let Ok(message) = r {
        let payload = seq![(98u32, "0"@), (108u32, numeral(heart_bt_int as nat))];
        reveal_strlit("A");
        reveal_strlit("0");
        lemma_numeral(heart_bt_int as nat);
        lemma_digits_without(numeral(heart_bt_int as nat), SOH);
        lemma_parsed_numeral(heart_bt_int as nat, u32::MAX as nat);
        assert forall|i: int| 0 <= i < payload.len() implies !(#[trigger] payload[i]).1.contains(
            SOH,
        ) by {}
        lemma_message_reads_back(old(writer)@, "A"@, sending_time@, payload, message@);
        let fields = parsed_fields(message@)->Ok_0;
        assert(fields[7] == payload[0] && fields[8] == payload[1]);
        lemma_field_is(fields, 98, 7);
        lemma_field_is(fields, 108, 8);
    }
}

/// A timestamp holds digits, a hyphen and colons, and nothing else.
pub proof fn lemma_clock_time_is_clean(text: Seq<char>)
    requires
        is_clock_time(text),
    ensures
        !text.contains(SOH),
{
    reveal_strlit("-");
    reveal_strlit(":");
    let secs = choose|secs: u64| #[trigger] is_clock_seconds(secs) && is_timestamp(text, secs);
    let (year, month, day) = choose|year: nat, month: nat, day: nat| #[trigger]
        is_date(year as int, month as int, day as int) && day_number(
            year as int,
            month as int,
            day as int,
        ) == secs / 86_400 && text == written_timestamp(year, month, day, (secs % 86_400) as nat);
    let second = (secs % 86_400) as nat;
    lemma_padded_is_clean(year, 4);
    lemma_padded_is_clean(month, 2);
    lemma_padded_is_clean(day, 2);
    lemma_padded_is_clean(second / 3600, 2);
    lemma_padded_is_clean(second % 3600 / 60, 2);
    lemma_padded_is_clean(second % 60, 2);
    let a = padded(year, 4) + padded(month, 2);
    lemma_clean_add(padded(year, 4), padded(month, 2));
    lemma_clean_add(a, padded(day, 2));
    let b = a + padded(day, 2);
    lemma_clean_add(b, "-"@);
    let c = b + "-"@;
    lemma_clean_add(c, padded(second / 3600, 2));
    let d = c + padded(second / 3600, 2);
    lemma_clean_add(d, ":"@);
    let e = d + ":"@;
    lemma_clean_add(e, padded(second % 3600 / 60, 2));
    let f = e + padded(second % 3600 / 60, 2);
    lemma_clean_add(f, ":"@);
    lemma_clean_add(f + ":"@, padded(second % 60, 2));
}

proof fn lemma_padded_is_clean(n: nat, width: nat)
    ensures
        !padded(n, width).contains(SOH),
{
    lemma_padded(n, width);
    lemma_digits_without(padded(n, width), SOH);
}

proof fn lemma_clean_add(a: Seq<char>, b: Seq<char>)
    requires
        !a.contains(SOH),
        !b.contains(SOH),
    ensures
        !(a + b).contains(SOH),
{
    if (a + b).contains(SOH) {
        let i = choose|i: int| 0 <= i < (a + b).len() && (a + b)[i] == SOH;
        if i < a.len() {
            assert(a[i] == SOH);
        } else {
            assert(b[i - a.len()] == SOH);
        }
    }
}

/// A new order of the session reads back with its terms.
pub proof fn lemma_order_reads_back(
    session: WriterView,
    cl_ord_id: Seq<char>,
    symbol: Seq<char>,
    side: Side,
    quantity: Amount,
    price: Option<Amount>,
    transact_time: Seq<char>,
    sending_time: Seq<char>,
    message: Seq<char>,
)
    requires
        message == session.framed(
            "D"@,
            sending_time,
            order_payload(cl_ord_id, symbol, side, quantity, price, transact_time),
        ),
        session_is_clean(session),
        !cl_ord_id.contains(SOH),
        !symbol.contains(SOH),
        !transact_time.contains(SOH),
        !sending_time.contains(SOH),
    ensures
        parsed_fields(message) is Ok,
        ({
            let fields = parsed_fields(message)->Ok_0;
            &&& field_of(fields, 35) == Some("D"@)
            &&& field_of(fields, 49) == Some(session.sender)
            &&& field_of(fields, 56) == Some(session.target)
            &&& field_of(fields, 34) == Some(numeral(session.next_seq as nat))
            &&& parsed(numeral(session.next_seq as nat), u64::MAX as nat) == Some(
                session.next_seq as nat,
            )
            &&& field_of(fields, 52) == Some(sending_time)
            &&& field_of(fields, 60) == Some(transact_time)
            &&& field_of(fields, 11) == Some(cl_ord_id)
            &&& field_of(fields, 55) == Some(symbol)
            &&& field_of(fields, 54) == Some(
                if side == Side::Buy {
                    "1"@
                } else {
                    "2"@
                },
            )
            &&& field_of(fields, 38) == Some(amount_text(quantity))
            &&& field_of(fields, 44) == (match price {
                Some(px) => Some(amount_text(px)),
                None => None,
            })
            &&& field_of(fields, 40) == Some(
                if price is Some {
                    "2"@
                } else {
                    "1"@
                },
            )
            &&& field_of(fields, 59) == Some("0"@)
            &&& field_of(fields, 21) == Some("1"@)
        }),
{
    let payload = order_payload(cl_ord_id, symbol, side, quantity, price, transact_time);
    reveal_strlit("D");
    reveal_strlit("0");
    reveal_strlit("1");
    reveal_strlit("2");
    reveal_with_fuel(numeral, 2);
    assert(numeral(1) =~= "1"@);
    assert(numeral(2) =~= "2"@);
    lemma_amount_text_without(quantity, SOH);
    if let Some(px) = price {
        lemma_amount_text_without(px, SOH);
    }
    assert forall|i: int| 0 <= i < payload.len() implies !(#[trigger] payload[i]).1.contains(
        SOH,
    ) by {}
    lemma_message_reads_back(session, "D"@, sending_time, payload, message);
    let fields = parsed_fields(message)->Ok_0;
    assert(fields[7] == payload[0] && fields[8] == payload[1] && fields[9] == payload[2]);
    assert(fields[10] == payload[3] && fields[11] == payload[4] && fields[12] == payload[5]);
    assert(fields[13] == payload[6] && fields[14] == payload[7]);
    lemma_field_is(fields, 21, 7);
    lemma_field_is(fields, 11, 8);
    lemma_field_is(fields, 55, 9);
    lemma_field_is(fields, 54, 10);
    lemma_field_is(fields, 60, 11);
    lemma_field_is(fields, 38, 12);
    lemma_field_is(fields, 40, 13);
    lemma_field_is(fields, 59, 14);
    match price {
        Some(px) => {
            assert(fields[15] == payload[8]);
            lemma_field_is(fields, 44, 15);
        },
        None => {
            law_first_field_counts(fields, 44);
            assert(fields.len() == 16);
        },
    }
}

/// A new order that is sent now says the same on the wire, whatever the clock shows.
pub proof fn law_sent_order_reads_back(
    writer: &mut FixWriter,
    cl_ord_id: &str,
    symbol: &str,
    side: Side,
    quantity: Amount,
    price: Option<Amount>,
    message: String,
)
    requires
        call_ensures(
            FixWriter::submit_order,
            (writer, cl_ord_id, symbol, side, quantity, price),
            message,
        ),
        session_is_clean(old(writer)@),
        !cl_ord_id@.contains(SOH),
        !symbol@.contains(SOH),
    ensures
        parsed_fields(message@) is Ok,
        ({
            let fields = parsed_fields(message@)->Ok_0;
            &&& field_of(fields, 35) == Some("D"@)
            &&& field_of(fields, 11) == Some(cl_ord_id@)
            &&& field_of(fields, 55) == Some(symbol@)
            &&& field_of(fields, 54) == Some(
                if side == Side::Buy {
                    "1"@
                } else {
                    "2"@
                },
            )
            &&& field_of(fields, 38) == Some(amount_text(quantity))
            &&& field_of(fields, 44) == (match price {
                Some(px) => Some(amount_text(px)),
                None => None,
            })
            &&& field_of(fields, 40) == Some(
                if price is Some {
                    "2"@
                } else {
                    "1"@
                },
            )
            &&& field_of(fields, 59) == Some("0"@)
            &&& field_of(fields, 21) == Some("1"@)
            &&& field_of(fields, 49) == Some(old(writer)@.sender)
            &&& field_of(fields, 56) == Some(old(writer)@.target)
            &&& field_of(fields, 34) == Some(numeral(old(writer)@.next_seq as nat))
        }),
        final(writer)@.next_seq == (old(writer)@.next_seq + 1) as u64,
{
    let session = old(writer)@;
    let (transacted, now) = choose|transacted: Seq<char>, now: Seq<char>|
        #![trigger is_clock_time(transacted), is_clock_time(now)]
        is_clock_time(transacted) && is_clock_time(now) && message@ == session.framed(
            "D"@,
            now,
            order_payload(cl_ord_id@, symbol@, side, quantity, price, transacted),
        );
    lemma_clock_time_is_clean(transacted);
    lemma_clock_time_is_clean(now);
    lemma_order_reads_back(
        session,
        cl_ord_id@,
        symbol@,
        side,
        quantity,
        price,
        transacted,
        now,
        message@,
    );
}

/// A cancel request that is sent now says the same on the wire, whatever the clock
/// shows.
pub proof fn law_sent_cancel_reads_back(
    writer: &mut FixWriter,
    cl_ord_id: &str,
    orig_cl_ord_id: &str,
    symbol: &str,
    side: Side,
    message: String,
)
    requires
        call_ensures(
            FixWriter::cancel_order,
            (writer, cl_ord_id, orig_cl_ord_id, symbol, side),
            message,
        ),
        session_is_clean(old(writer)@),
        !cl_ord_id@.contains(SOH),
        !orig_cl_ord_id@.contains(SOH),
        !symbol@.contains(SOH),
    ensures
        parsed_fields(message@) is Ok,
        ({
            let fields = parsed_fields(message@)->Ok_0;
            &&& field_of(fields, 35) == Some("F"@)
            &&& field_of(fields, 11) == Some(cl_ord_id@)
            &&& field_of(fields, 41) == Some(orig_cl_ord_id@)
            &&& field_of(fields, 55) == Some(symbol@)
            &&& field_of(fields, 54) == Some(
                if side == Side::Buy {
                    "1"@
                } else {
                    "2"@
                },
            )
            &&& field_of(fields, 49) == Some(old(writer)@.sender)
            &&& field_of(fields, 56) == Some(old(writer)@.target)
            &&& field_of(fields, 34) == Some(numeral(old(writer)@.next_seq as nat))
        }),
        final(writer)@.next_seq == (old(writer)@.next_seq + 1) as u64,
{
    let session = old(writer)@;
    let (transacted, now) = choose|transacted: Seq<char>, now: Seq<char>|
        #![trigger is_clock_time(transacted), is_clock_time(now)]
        is_clock_time(transacted) && is_clock_time(now) && message@ == session.framed(
            "F"@,
            now,
            cancel_payload(cl_ord_id@, orig_cl_ord_id@, symbol@, side, transacted),
        );
    lemma_clock_time_is_clean(transacted);
    lemma_clock_time_is_clean(now);
    lemma_cancel_reads_back(
        session,
        cl_ord_id@,
        orig_cl_ord_id@,
        symbol@,
        side,
        transacted,
        now,
        message@,
    );
}

// ---------------------------------------------------------------------------
// Frames
// ---------------------------------------------------------------------------

/// Bytes one after the other add up.
proof fn lemma_byte_sum_add(a: Seq<u8>, b: Seq<u8>)
    ensures
        byte_sum(a + b) == byte_sum(a) + byte_sum(b),
    decreases b.len(),
{
    if b.len() == 0 {
        assert(a + b =~= a);
    } else {
        lemma_byte_sum_add(a, b.drop_last());
        assert((a + b).drop_last() =~= a + b.drop_last());
    }
}

/// Checksums add up: that of two texts, one behind the other, is the sum of theirs,
/// modulo 256; and that of one character is the character's own number.
pub proof fn law_checksums_add_up(
    a: &str,
    b: &str,
    both: &str,
    sum_a: u32,
    sum_b: u32,
    sum_both: u32,
    c: char,
)
    requires
        call_ensures(checksum, (a,), sum_a),
        call_ensures(checksum, (b,), sum_b),
        call_ensures(checksum, (both,), sum_both),
        both@ == a@ + b@,
    ensures
        sum_both == (sum_a + sum_b) % 256,
        a@.len() == 0 ==> sum_a == 0,
        a@ == seq![c] && c <= '\u{7f}' ==> sum_a == c as u32,
{
    lemma_encode_add(a@, b@);
    lemma_byte_sum_add(encode_utf8(a@), encode_utf8(b@));
    if a@ == seq![c] && c <= '\u{7f}' {
        vstd::utf8::is_ascii_chars_encode_utf8(a@);
        let bytes = encode_utf8(a@);
        assert(a@[0] == c);
        assert(bytes[0] == c as u8);
        assert(bytes.drop_last() =~= Seq::<u8>::empty());
        reveal_with_fuel(byte_sum, 2);
    }
}

/// A frame says what it holds: the fields of its body as they are, between the version
/// and the number of bytes of the body, and the checksum of all that comes before it,
/// in three digits.
pub proof fn law_frame_says_what_it_holds(
    body: &str,
    fields: Seq<FieldView>,
    framed: String,
    message: &str,
    sum: u32,
)
    requires
        call_ensures(frame, (body,), framed),
        body@ == wire(fields),
        values_are_clean(fields),
        framed@.len() >= 7,
        message@ == framed@.take(framed@.len() - 7),
        call_ensures(checksum, (message,), sum),
    ensures
        parsed_fields(framed@) matches Ok(all) && {
            &&& all.len() == fields.len() + 3
            &&& all[0] == (8u32, "FIX.4.2"@)
            &&& all[1].0 == 9
            &&& parsed(all[1].1, u64::MAX as nat) == (if encode_utf8(body@).len() <= u64::MAX {
                Some(encode_utf8(body@).len())
            } else {
                None
            })
            &&& forall|i: int| 0 <= i < fields.len() ==> all[2 + i] == #[trigger] fields[i]
            &&& all.last().0 == 10
            &&& all.last().1.len() == 3
            &&& parsed(all.last().1, u64::MAX as nat) == Some(sum as nat)
        },
{
    law_frame_parses_back(fields);
    let all = parsed_fields(framed@)->Ok_0;
    let before = message_text(body@);
    let text = padded(checksum_of(before), 3);
    assert forall|i: int| 0 <= i < fields.len() implies all[2 + i] == #[trigger] fields[i] by {}
    lemma_checksum_field(checksum_of(before));
    let tail = field_text((10, text));
    assert(framed@ == before + tail);
    assert(message@ =~= before);
    lemma_padded(checksum_of(before), 3);
    lemma_parsed_padded(checksum_of(before), 3, u64::MAX as nat);
    reveal_with_fuel(numeral, 4);
    assert(all.last() == (10u32, text));
    let n = encode_utf8(body@).len();
    lemma_numeral(n);
    if n <= u64::MAX {
        lemma_parsed_numeral(n, u64::MAX as nat);
    } else {
        lemma_parsed_numeral(n, n);
    }
}

/// A frame that was written is taken out of a buffer as it was written, and what is
/// behind it is left; while its last byte is missing, nothing is taken.
pub proof fn law_written_frame_is_taken_out(
    body: &str,
    framed: String,
    buffer: &mut Vec<u8>,
    rest: Seq<u8>,
    r: Option<Result<String, FixError>>,
    partial: &mut Vec<u8>,
    arrived: int,
    nothing: Option<Result<String, FixError>>,
)
    requires
        call_ensures(frame, (body,), framed),
        old(buffer)@ == encode_utf8(framed@) + rest,
        call_ensures(take_frame, (buffer,), r),
        !holds_checksum_field(encode_utf8(body@)),
        0 <= arrived < encode_utf8(framed@).len(),
        old(partial)@ == encode_utf8(framed@).take(arrived),
        call_ensures(take_frame, (partial,), nothing),
    ensures
        r matches Some(Ok(message)) && message@ == framed@,
        final(buffer)@ == rest,
        nothing is None,
        final(partial)@ == old(partial)@,
{
    law_next_frame_is_cut_out(body@, rest);
    law_partial_frame_waits(body@, arrived);
}

/// Fields that were written are read back, all of them and in order, and the value of
/// a tag is that of its first field.
pub proof fn law_written_fields_are_read_back(
    message: &str,
    fields: Seq<FieldView>,
    r: Result<Vec<(u32, String)>, FixError>,
)
    requires
        message@ == wire(fields),
        values_are_clean(fields),
        call_ensures(parse_fields, (message,), r),
    ensures
        r matches Ok(read) && read@.len() == fields.len() && forall|i: int|
            0 <= i < fields.len() ==> (#[trigger] read@[i]).0 == fields[i].0 && read@[i].1@
                == fields[i].1,
{
    law_fields_parse_back(fields);
    if let Ok(read) = r {
        assert forall|i: int| 0 <= i < fields.len() implies (#[trigger] read@[i]).0 == fields[i].0
            && read@[i].1@ == fields[i].1 by {
            assert(field_views(read@)[i] == fields[i]);
        }
    }
}

/// The body of a message is its header and its payload, in order: type, sender,
/// target, number and time, each under its own tag.
pub proof fn law_body_reads_back(
    msg_type: &str,
    sender: &str,
    target: &str,
    seq: u64,
    sending_time: &str,
    payload: &[(u32, String)],
    body: String,
)
    requires
        call_ensures(
            build_body_at,
            (msg_type, sender, target, seq, sending_time, payload),
            body,
        ),
        !msg_type@.contains(SOH),
        !sender@.contains(SOH),
        !target@.contains(SOH),
        !sending_time@.contains(SOH),
        values_are_clean(field_views(payload@)),
    ensures
        parsed_fields(body@) matches Ok(fields) && {
            &&& fields.len() == 5 + payload@.len()
            &&& fields[0] == (35u32, msg_type@)
            &&& fields[1] == (49u32, sender@)
            &&& fields[2] == (56u32, target@)
            &&& fields[3].0 == 34
            &&& parsed(fields[3].1, u64::MAX as nat) == Some(seq as nat)
            &&& fields[4] == (52u32, sending_time@)
            &&& forall|i: int|
                0 <= i < payload@.len() ==> fields[5 + i] == (
                    (#[trigger] payload@[i]).0,
                    payload@[i].1@,
                )
        },
{
    let views = field_views(payload@);
    let all = body_fields(msg_type@, sender@, target@, seq, sending_time@, views);
    lemma_numeral(seq as nat);
    lemma_digits_without(numeral(seq as nat), SOH);
    lemma_parsed_numeral(seq as nat, u64::MAX as nat);
    assert forall|i: int| 0 <= i < all.len() implies !(#[trigger] all[i]).1.contains(SOH) by {
        if i >= 5 {
            assert(all[i] == views[i - 5]);
        }
    }
    law_fields_parse_back(all);
    assert forall|i: int| 0 <= i < payload@.len() implies all[5 + i] == (
        (#[trigger] payload@[i]).0,
        payload@[i].1@,
    ) by {
        assert(all[5 + i] == views[i]);
    }
}

/// The handshake ends with the acceptor's logon, and with nothing else; a logout or a
/// reject ends it with what the exchange says.
pub proof fn law_handshake_ends_with_the_logon(
    message: &str,
    fields: Seq<FieldView>,
    kind: Seq<char>,
    r: Result<bool, FixError>,
)
    requires
        call_ensures(logon_reply, (message,), r),
        parsed_fields(message@) == Ok::<Seq<FieldView>, Seq<char>>(fields),
        field_of(fields, 35) == Some(kind),
    ensures
        r == Ok::<bool, FixError>(true) <==> kind == "A"@,
        r is Err <==> kind == "5"@ || kind == "3"@,
        field_of(fields, 58) matches Some(text) ==> {
            &&& kind == "5"@ ==> (r matches Err(FixError::Rejected(reason)) && reason@
                == "logged out during handshake: "@ + text)
            &&& kind == "3"@ ==> (r matches Err(FixError::Rejected(reason)) && reason@
                == "session reject: "@ + text)
        },
{
    reveal_strlit("A");
    reveal_strlit("5");
    reveal_strlit("3");
    assert("A"@[0] == 'A' && "5"@[0] == '5' && "3"@[0] == '3');
}

} // verus!
