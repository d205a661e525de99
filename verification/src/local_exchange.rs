//! Minimal FIX 4.2 initiator for the local simulated exchange.
//!
//! The wire format follows the exchange's strict profile: NewOrderSingle requires
//! `HandlInst=1` and `TimeInForce=0` (DAY); only market and limit order types are
//! supported; cancels use 35=F with a fresh ClOrdID; HeartBtInt is positive.
//!
//! This module builds, frames, cuts, parses and decodes messages. Whoever holds
//! the socket writes the frames and feeds the bytes that it reads.

use vstd::prelude::*;
use vstd::utf8::{decode_utf8, encode_utf8, valid_utf8};

use crate::amount::{amount_text, parsed_amount, Amount};
use crate::text::{
    all_digits, digits_value, find_from, first_of, from_chars, is_digit, join2,
    lemma_digits_without, lemma_first_behind, lemma_numeral, lemma_padded, lemma_parsed_numeral,
    numeral, padded, padded_text, parse_number, parsed, same, to_chars, u64_text,
};
use crate::utc::{is_clock_time, timestamp_now};

verus! {

/// FIX field separator.
pub const SOH: char = '\u{1}';

// ---------------------------------------------------------------------------
// Errors and events
// ---------------------------------------------------------------------------

/// Errors from the FIX initiator.
#[derive(Debug)]
pub enum FixError {
    /// Underlying socket I/O failure.
    Io(String),
    /// The exchange rejected the session or a message.
    Rejected(String),
    /// A received frame was malformed.
    Malformed(String),
}

impl FixError {
    /// What the error says.
    pub open spec fn text(&self) -> Seq<char> {
        match *self {
            FixError::Io(err) => "FIX transport error: "@ + err@,
            FixError::Rejected(reason) => "FIX rejected: "@ + reason@,
            FixError::Malformed(reason) => "FIX malformed message: "@ + reason@,
        }
    }

    /// The error as text.
    pub fn message(&self) -> (r: String)
        ensures
            r@ == self.text(),
    {
        match self {
            FixError::Io(err) => join2("FIX transport error: ", err.as_str()),
            FixError::Rejected(reason) => join2("FIX rejected: ", reason.as_str()),
            FixError::Malformed(reason) => join2("FIX malformed message: ", reason.as_str()),
        }
    }

    /// The error says that a frame was malformed, and how.
    pub open spec fn is_malformed(&self, how: Seq<char>) -> bool {
        *self matches FixError::Malformed(reason) && reason@ == how
    }

    /// The error says that the exchange rejected something, and why.
    pub open spec fn is_rejected(&self, why: Seq<char>) -> bool {
        *self matches FixError::Rejected(reason) && reason@ == why
    }
}

/// A decoded execution event for one client order.
#[derive(Debug, Clone, PartialEq, Eq)]
pub enum ExecEvent {
    /// The venue acknowledged the order (ExecType=0).
    New {
        /// Client order ID (tag 11).
        cl_ord_id: String,
        /// Venue order ID (tag 37).
        order_id: String,
    },
    /// A fill or partial fill (ExecType=1/2).
    Fill {
        cl_ord_id: String,
        order_id: String,
        /// ExecType 2 means fully filled.
        complete: bool,
        last_qty: Amount,
        last_px: Amount,
        cum_qty: Amount,
    },
    /// The order was cancelled (ExecType=4).
    Canceled { cl_ord_id: String, order_id: String },
    /// The venue rejected the request (ExecType=8 or session-level 35=3).
    Rejected { cl_ord_id: String, reason: String },
    /// A session-level message with no order semantics.
    Session(String),
}

/// Order side for FIX tag 54.
#[derive(Debug, Clone, Copy, PartialEq, Eq, Structural)]
pub enum Side {
    /// Buy (1).
    Buy,
    /// Sell (2).
    Sell,
}

impl Side {
    /// The value of tag 54.
    pub open spec fn value(self) -> u8 {
        match self {
            Side::Buy => 1,
            Side::Sell => 2,
        }
    }

    /// The value of tag 54.
    pub fn tag(self) -> (r: u8)
        ensures
            r == self.value(),
    {
        match self {
            Side::Buy => 1,
            Side::Sell => 2,
        }
    }
}

// ---------------------------------------------------------------------------
// Fields on the wire
// ---------------------------------------------------------------------------

/// A field: its tag and its value.
pub type FieldView = (u32, Seq<char>);

/// What a list of fields holds.
pub open spec fn field_views(fields: Seq<(u32, String)>) -> Seq<FieldView> {
    fields.map_values(|field: (u32, String)| (field.0, field.1@))
}

/// A field on the wire: tag, `=`, value, separator.
pub open spec fn field_text(field: FieldView) -> Seq<char> {
    (numeral(field.0 as nat).push('=') + field.1).push(SOH)
}

/// Fields on the wire, one after the other.
pub open spec fn wire(fields: Seq<FieldView>) -> Seq<char>
    decreases fields.len(),
{
    if fields.len() == 0 {
        Seq::empty()
    } else {
        wire(fields.drop_last()) + field_text(fields.last())
    }
}

/// The fields of a message body: the header fields and the payload.
pub open spec fn body_fields(
    msg_type: Seq<char>,
    sender: Seq<char>,
    target: Seq<char>,
    seq: u64,
    sending_time: Seq<char>,
    payload: Seq<FieldView>,
) -> Seq<FieldView> {
    seq![
        (35u32, msg_type),
        (49u32, sender),
        (56u32, target),
        (34u32, numeral(seq as nat)),
        (52u32, sending_time),
    ] + payload
}

fn push_field(out: &mut String, tag: u32, value: &str)
    ensures
        final(out)@ == old(out)@ + field_text((tag, value@)),
{
    let ghost before = out@;
    out.append(u64_text(tag as u64).as_str());
    out.push('=');
    out.append(value);
    out.push(SOH);
    assert(out@ =~= before + field_text((tag, value@)));
}

/// Builds an application-level body (tags 35/49/56/34/52 and the payload) with a
/// given sending time.
pub fn build_body_at(
    msg_type: &str,
    sender: &str,
    target: &str,
    seq: u64,
    sending_time: &str,
    fields: &[(u32, String)],
) -> (r: String)
    ensures
        r@ == wire(
            body_fields(msg_type@, sender@, target@, seq, sending_time@, field_views(fields@)),
        ),
{
    let ghost payload = field_views(fields@);
    let ghost all = body_fields(msg_type@, sender@, target@, seq, sending_time@, payload);
    let mut body = String::new();
    push_field(&mut body, 35, msg_type);
    push_field(&mut body, 49, sender);
    push_field(&mut body, 56, target);
    push_field(&mut body, 34, u64_text(seq).as_str());
    push_field(&mut body, 52, sending_time);
    proof {
        reveal_with_fuel(wire, 6);
        let head = all.take(5);
        assert(head.drop_last() =~= all.take(4));
        assert(head.drop_last().drop_last() =~= all.take(3));
        assert(head.drop_last().drop_last().drop_last() =~= all.take(2));
        assert(head.drop_last().drop_last().drop_last().drop_last() =~= all.take(1));
        assert(all.take(1).drop_last() =~= Seq::<FieldView>::empty());
        assert(body@ =~= wire(head));
    }
    let mut i: usize = 0;
    while i < fields.len()
        invariant
            i <= fields@.len(),
            payload == field_views(fields@),
            all == body_fields(msg_type@, sender@, target@, seq, sending_time@, payload),
            body@ == wire(all.take(5 + i)),
        decreases fields.len() - i,
    {
        assert(all.take(5 + i + 1).drop_last() =~= all.take(5 + i));
        assert(all[5 + i] == payload[i as int]);
        push_field(&mut body, fields[i].0, fields[i].1.as_str());
        i = i + 1;
    }
    assert(all.take(5 + i) =~= all);
    body
}

/// Builds an application-level body (tags 35/49/56/34/52 and the payload), sent
/// now.
pub fn build_body(
    msg_type: &str,
    sender: &str,
    target: &str,
    seq: u64,
    fields: &[(u32, String)],
) -> (r: String)
    ensures
        exists|time: Seq<char>| #[trigger]
            is_clock_time(time) && r@ == wire(
                body_fields(msg_type@, sender@, target@, seq, time, field_views(fields@)),
            ),
{
    let now = timestamp_now();
    build_body_at(msg_type, sender, target, seq, now.as_str(), fields)
}

/// The first value of a tag.
pub open spec fn field_of(fields: Seq<FieldView>, tag: u32) -> Option<Seq<char>>
    decreases fields.len(),
{
    if fields.len() == 0 {
        None
    } else if fields[0].0 == tag {
        Some(fields[0].1)
    } else {
        field_of(fields.drop_first(), tag)
    }
}

/// The first value of a tag, or a default if there is none.
pub open spec fn field_or(fields: Seq<FieldView>, tag: u32, default: Seq<char>) -> Seq<char> {
    match field_of(fields, tag) {
        Some(value) => value,
        None => default,
    }
}

/// The first value of a tag.
pub fn field(fields: &[(u32, String)], tag: u32) -> (r: Option<&str>)
    ensures
        match r {
            Some(value) => field_of(field_views(fields@), tag) == Some(value@),
            None => field_of(field_views(fields@), tag) is None,
        },
{
    let ghost all = field_views(fields@);
    let mut i: usize = 0;
    assert(all.skip(0) =~= all);
    while i < fields.len()
        invariant
            i <= fields@.len(),
            all == field_views(fields@),
            field_of(all, tag) == field_of(all.skip(i as int), tag),
        decreases fields.len() - i,
    {
        assert(all.skip(i as int).drop_first() =~= all.skip(i + 1));
        if fields[i].0 == tag {
            return Some(fields[i].1.as_str());
        }
        i = i + 1;
    }
    None
}

/// The first value of a tag, or a default if there is none.
fn field_or_default(fields: &[(u32, String)], tag: u32, default: &str) -> (r: String)
    ensures
        r@ == field_or(field_views(fields@), tag, default@),
{
    match field(fields, tag) {
        Some(value) => value.to_owned(),
        None => default.to_owned(),
    }
}

// ---------------------------------------------------------------------------
// Parsing
// ---------------------------------------------------------------------------

/// What is wrong with the text between two separators, or the field that it is.
pub open spec fn parsed_part(part: Seq<char>) -> Result<FieldView, Seq<char>> {
    let at = first_of(part, '=');
    if at == part.len() {
        Err("field without '=': "@ + part)
    } else {
        match parsed(part.take(at as int), u32::MAX as nat) {
            Some(tag) => Ok((tag as u32, part.skip(at as int + 1))),
            None => Err("invalid tag "@ + part.take(at as int)),
        }
    }
}

/// The fields of a message in order, or what is wrong with the first text that
/// is no field. Nothing between two separators is no field and no error.
pub open spec fn parsed_fields(message: Seq<char>) -> Result<Seq<FieldView>, Seq<char>>
    decreases message.len(),
{
    if message.len() == 0 {
        Ok(Seq::empty())
    } else {
        let at = first_of(message, SOH);
        let part = message.take(at as int);
        let rest = if at < message.len() {
            message.skip(at as int + 1)
        } else {
            Seq::empty()
        };
        if part.len() == 0 {
            parsed_fields(rest)
        } else {
            match parsed_part(part) {
                Err(reason) => Err(reason),
                Ok(field) => match parsed_fields(rest) {
                    Err(reason) => Err(reason),
                    Ok(fields) => Ok(seq![field] + fields),
                },
            }
        }
    }
}

fn parse_part(part: &str) -> (r: Result<(u32, String), FixError>)
    ensures
        match (parsed_part(part@), r) {
            (Ok(view), Ok(found)) => view == (found.0, found.1@),
            (Err(reason), Err(error)) => error.is_malformed(reason),
            _ => false,
        },
{
    let chars = to_chars(part);
    let at = find_from(&chars, '=', 0);
    assert(chars@.skip(0) =~= part@);
    if at == chars.len() {
        return Err(FixError::Malformed(join2("field without '=': ", part)));
    }
    let tag = from_chars(&chars, 0, at);
    let value = from_chars(&chars, at + 1, chars.len());
    assert(tag@ =~= part@.take(at as int));
    assert(value@ =~= part@.skip(at as int + 1));
    match parse_number(tag.as_str(), u32::MAX as u64) {
        Some(number) => Ok((number as u32, value)),
        None => Err(FixError::Malformed(join2("invalid tag ", tag.as_str()))),
    }
}

/// Parses the fields of a message.
pub fn parse_fields(message: &str) -> (r: Result<Vec<(u32, String)>, FixError>)
    ensures
        match r {
            Ok(fields) => parsed_fields(message@) == Ok::<Seq<FieldView>, Seq<char>>(
                field_views(fields@),
            ),
            Err(error) => parsed_fields(message@) matches Err(reason) && error.is_malformed(reason),
        },
{
    let chars = to_chars(message);
    let mut fields: Vec<(u32, String)> = Vec::new();
    let mut from: usize = 0;
    assert(chars@.skip(0) =~= message@);
    assert(field_views(fields@) =~= Seq::<FieldView>::empty());
    proof {
        match parsed_fields(message@) {
            Ok(all) => {
                assert(Seq::<FieldView>::empty() + all =~= all);
            },
            Err(reason) => {},
        }
    }
    while from < chars.len()
        invariant
            chars@ == message@,
            from <= chars@.len(),
            parsed_fields(message@) == (match parsed_fields(chars@.skip(from as int)) {
                Ok(rest) => Ok::<Seq<FieldView>, Seq<char>>(field_views(fields@) + rest),
                Err(reason) => Err(reason),
            }),
        decreases chars.len() - from,
    {
        let ghost left = chars@.skip(from as int);
        let ghost before = field_views(fields@);
        let at = find_from(&chars, SOH, from);
        let part = from_chars(&chars, from, at);
        let next: usize = if at < chars.len() {
            at + 1
        } else {
            at
        };
        let ghost rest = chars@.skip(next as int);
        proof {
            assert(part@ =~= left.take(at - from));
            if at < chars.len() {
                assert(rest =~= left.skip(at - from + 1));
            } else {
                assert(rest =~= Seq::<char>::empty());
            }
        }
        if from < at {
            match parse_part(part.as_str()) {
                Ok(found) => {
                    let ghost view = (found.0, found.1@);
                    fields.push(found);
                    proof {
                        assert(field_views(fields@) =~= before.push(view));
                        match parsed_fields(rest) {
                            Ok(more) => {
                                assert(before + (seq![view] + more) =~= before.push(view) + more);
                            },
                            Err(reason) => {},
                        }
                    }
                },
                Err(error) => {
                    return Err(error);
                },
            }
        }
        from = next;
    }
    proof {
        assert(chars@.skip(from as int) =~= Seq::<char>::empty());
        assert(field_views(fields@) + Seq::<FieldView>::empty() =~= field_views(fields@));
    }
    Ok(fields)
}

// ---------------------------------------------------------------------------
// Frames
// ---------------------------------------------------------------------------

/// The sum of some bytes.
pub open spec fn byte_sum(bytes: Seq<u8>) -> nat
    decreases bytes.len(),
{
    if bytes.len() == 0 {
        0
    } else {
        byte_sum(bytes.drop_last()) + bytes.last() as nat
    }
}

/// The checksum of a text: the sum of its bytes, modulo 256.
pub open spec fn checksum_of(text: Seq<char>) -> nat {
    byte_sum(encode_utf8(text)) % 256
}

/// The checksum of a text.
pub fn checksum(body: &str) -> (r: u32)
    ensures
        r == checksum_of(body@),
{
    let bytes = body.as_bytes();
    let mut sum: u32 = 0;
    let mut i: usize = 0;
    assert(bytes@.take(0) =~= Seq::<u8>::empty());
    while i < bytes.len()
        invariant
            i <= bytes@.len(),
            bytes@ == encode_utf8(body@),
            sum < 256,
            sum == byte_sum(bytes@.take(i as int)) % 256,
        decreases bytes.len() - i,
    {
        assert(bytes@.take(i + 1).drop_last() =~= bytes@.take(i as int));
        sum = (sum + bytes[i] as u32) % 256;
        i = i + 1;
    }
    assert(bytes@.take(i as int) =~= bytes@);
    sum
}

/// A message up to its checksum field: version, body length, body.
pub open spec fn message_text(body: Seq<char>) -> Seq<char> {
    field_text((8, "FIX.4.2"@)) + field_text((9, numeral(encode_utf8(body).len()))) + body
}

/// A framed message: version, body length, body, and the checksum of all that.
pub open spec fn frame_text(body: Seq<char>) -> Seq<char> {
    message_text(body) + field_text((10, padded(checksum_of(message_text(body)), 3)))
}

/// Frames a body: version, body length, body, and the checksum of all that.
pub fn frame(body: &str) -> (r: String)
    ensures
        r@ == frame_text(body@),
{
    let body_length = body.as_bytes().len();
    let mut message = String::new();
    push_field(&mut message, 8, "FIX.4.2");
    push_field(&mut message, 9, u64_text(body_length as u64).as_str());
    message.append(body);
    assert(message@ =~= message_text(body@));
    let sum = checksum(message.as_str());
    push_field(&mut message, 10, padded_text(sum as u64, 3).as_str());
    message
}

/// The checksum field of a frame may begin at a place: there are its tag and as
/// many bytes as the field has.
pub open spec fn tail_at(buffer: Seq<u8>, at: int) -> bool {
    &&& 0 <= at
    &&& at + 7 <= buffer.len()
    &&& buffer[at] == 0x31
    &&& buffer[at + 1] == 0x30
    &&& buffer[at + 2] == 0x3d
}

/// The first separator at or behind a place; the end if there is none.
pub open spec fn separator_from(bytes: Seq<u8>, from: nat) -> nat
    decreases bytes.len() - from,
{
    if from >= bytes.len() {
        bytes.len()
    } else if bytes[from as int] == 1 {
        from
    } else {
        separator_from(bytes, from + 1)
    }
}

/// Bytes as characters, one by one.
pub open spec fn as_chars(bytes: Seq<u8>) -> Seq<char> {
    bytes.map_values(|byte: u8| byte as char)
}

/// What the first two fields in a buffer say of where its frame ends.
pub enum Heading {
    /// They have not arrived in whole.
    Arriving,
    /// The second one is no body length.
    Unsized,
    /// The frame ends here: behind the body and the checksum field.
    Ends(nat),
}

/// What the first two fields in a buffer say: the second one (9=) is the number of
/// bytes from there to the checksum field.
pub open spec fn heading(buffer: Seq<u8>) -> Heading {
    let first = separator_from(buffer, 0);
    let second = separator_from(buffer, first + 1);
    let length = as_chars(buffer.subrange(first as int + 3, second as int));
    if second >= buffer.len() {
        Heading::Arriving
    } else if second > first + 3 && buffer[first as int + 1] == 0x39 && buffer[first as int + 2]
        == 0x3d && all_digits(length) {
        Heading::Ends(second + 1 + digits_value(length) + 7)
    } else {
        Heading::Unsized
    }
}

/// There is a checksum tag at a place; where `whole` is asked for, a field begins
/// there.
pub open spec fn checksum_at(buffer: Seq<u8>, at: int, whole: bool) -> bool {
    tail_at(buffer, at) && (whole ==> at == 0 || buffer[at - 1] == 1)
}

/// The end of the last checksum field that begins before a place, if there is any.
pub open spec fn last_checksum(buffer: Seq<u8>, before: nat, whole: bool) -> Option<nat>
    decreases before,
{
    if before == 0 {
        None
    } else if checksum_at(buffer, before - 1, whole) {
        Some((before + 6) as nat)
    } else {
        last_checksum(buffer, (before - 1) as nat, whole)
    }
}

/// Where the first frame in a buffer ends, if it has arrived in whole.
///
/// It ends where its body length says, if there is a checksum tag. Where the body
/// length leads behind the buffer, it ends at the last field that is a checksum:
/// the same digits inside another tag or a value do not end a frame of which more
/// is to come. Otherwise it ends at the last checksum tag.
pub open spec fn frame_end(buffer: Seq<u8>) -> Option<nat> {
    match heading(buffer) {
        Heading::Ends(end) => if end > buffer.len() {
            last_checksum(buffer, buffer.len(), true)
        } else if tail_at(buffer, end - 7) {
            Some(end)
        } else {
            last_checksum(buffer, buffer.len(), false)
        },
        _ => last_checksum(buffer, buffer.len(), false),
    }
}

fn find_separator(buffer: &[u8], from: usize) -> (r: usize)
    requires
        from <= buffer@.len(),
    ensures
        r == separator_from(buffer@, from as nat),
        from <= r <= buffer@.len(),
{
    let mut at: usize = from;
    while at < buffer.len() && buffer[at] != 1
        invariant
            from <= at <= buffer@.len(),
            separator_from(buffer@, at as nat) == separator_from(buffer@, from as nat),
        decreases buffer.len() - at,
    {
        at = at + 1;
    }
    at
}

fn is_tail(buffer: &[u8], at: usize) -> (r: bool)
    ensures
        r == tail_at(buffer@, at as int),
{
    at < buffer.len() && buffer.len() - at >= 7 && buffer[at] == 0x31 && buffer[at + 1] == 0x30
        && buffer[at + 2] == 0x3d
}

fn find_last_checksum(buffer: &[u8], whole: bool) -> (r: Option<usize>)
    ensures
        match r {
            Some(end) => last_checksum(buffer@, buffer@.len(), whole) == Some(end as nat) && 7
                <= end <= buffer@.len(),
            None => last_checksum(buffer@, buffer@.len(), whole) is None,
        },
{
    let len: usize = buffer.len();
    let mut before: usize = len;
    while before > 0
        invariant
            before <= len,
            len == buffer@.len(),
            last_checksum(buffer@, before as nat, whole) == last_checksum(
                buffer@,
                buffer@.len(),
                whole,
            ),
        decreases before,
    {
        let at = before - 1;
        if is_tail(buffer, at) && (!whole || at == 0 || buffer[at - 1] == 1) {
            return Some(at + 7);
        }
        before = at;
    }
    None
}

/// Reads the number in a range of bytes: `None` if it is above `most`, an error if
/// there is something other than digits.
fn read_length(buffer: &[u8], from: usize, to: usize, most: usize) -> (r: Result<Option<usize>, ()>)
    requires
        from <= to <= buffer@.len(),
    ensures
        match r {
            Err(()) => !all_digits(as_chars(buffer@.subrange(from as int, to as int))),
            Ok(read) => {
                let digits = as_chars(buffer@.subrange(from as int, to as int));
                &&& all_digits(digits)
                &&& match read {
                    Some(n) => digits_value(digits) == n && n <= most,
                    None => digits_value(digits) > most,
                }
            },
        },
{
    let ghost digits = as_chars(buffer@.subrange(from as int, to as int));
    let mut value: u128 = 0;
    let mut large: bool = false;
    let mut at: usize = from;
    assert(digits.take(0) =~= Seq::<char>::empty());
    while at < to
        invariant
            from <= at <= to <= buffer@.len(),
            digits == as_chars(buffer@.subrange(from as int, to as int)),
            forall|i: int| 0 <= i < at - from ==> is_digit(#[trigger] digits[i]),
            large ==> digits_value(digits.take(at - from)) > most,
            !large ==> digits_value(digits.take(at - from)) == value && value <= most,
        decreases to - at,
    {
        let byte = buffer[at];
        let ghost upto = digits.take(at - from + 1);
        proof {
            assert(digits[at - from] == buffer@[at as int] as char);
            assert(upto.drop_last() =~= digits.take(at - from));
            assert(upto.last() == digits[at - from]);
        }
        if byte < 0x30 || byte > 0x39 {
            assert(!is_digit(digits[at - from]));
            return Err(());
        }
        assert(digits_value(upto) == digits_value(digits.take(at - from)) * 10 + (byte - 0x30));
        if !large {
            value = value * 10 + (byte - 0x30) as u128;
            if value > most as u128 {
                large = true;
            }
        }
        at = at + 1;
    }
    assert(digits.take(at - from) =~= digits);
    if large {
        Ok(None)
    } else {
        Ok(Some(value as usize))
    }
}

/// Where the first frame in a buffer ends, if it has arrived in whole.
pub fn find_frame_end(buffer: &[u8]) -> (r: Option<usize>)
    ensures
        match r {
            Some(end) => frame_end(buffer@) == Some(end as nat) && 7 <= end <= buffer@.len(),
            None => frame_end(buffer@) is None,
        },
{
    let first = find_separator(buffer, 0);
    if first == buffer.len() {
        return find_last_checksum(buffer, false);
    }
    let second = find_separator(buffer, first + 1);
    if second == buffer.len() {
        return find_last_checksum(buffer, false);
    }
    if second - first > 3 && buffer[first + 1] == 0x39 && buffer[first + 2] == 0x3d {
        match read_length(buffer, first + 3, second, buffer.len()) {
            Ok(Some(length)) => {
                let behind = buffer.len() - second - 1;
                if behind < 7 || length > behind - 7 {
                    return find_last_checksum(buffer, true);
                }
                if is_tail(buffer, second + 1 + length) {
                    return Some(second + 1 + length + 7);
                }
            },
            Ok(None) => {
                return find_last_checksum(buffer, true);
            },
            Err(()) => {},
        }
    }
    find_last_checksum(buffer, false)
}

/// `String::from_utf8` of std: the text that bytes encode, if they are valid
/// UTF-8.
#[verifier::external_body]
fn utf8_text(bytes: Vec<u8>) -> (r: Option<String>)
    ensures
        match r {
            Some(text) => valid_utf8(bytes@) && text@ == decode_utf8(bytes@),
            None => !valid_utf8(bytes@),
        },
{
    String::from_utf8(bytes).ok()
}

fn copy_range(bytes: &Vec<u8>, from: usize, to: usize) -> (r: Vec<u8>)
    requires
        from <= to <= bytes@.len(),
    ensures
        r@ == bytes@.subrange(from as int, to as int),
{
    let mut r: Vec<u8> = Vec::new();
    let mut i: usize = from;
    while i < to
        invariant
            from <= i <= to <= bytes@.len(),
            r@ =~= bytes@.subrange(from as int, i as int),
        decreases to - i,
    {
        r.push(bytes[i]);
        i = i + 1;
    }
    r
}

/// Takes the first frame out of a buffer, if it has arrived in whole, and leaves
/// what is behind it.
pub fn take_frame(buffer: &mut Vec<u8>) -> (r: Option<Result<String, FixError>>)
    ensures
        match frame_end(old(buffer)@) {
            None => r is None && final(buffer)@ == old(buffer)@,
            Some(end) => {
                &&& end <= old(buffer)@.len()
                &&& final(buffer)@ == old(buffer)@.skip(end as int)
                &&& r matches Some(taken) && match taken {
                    Ok(message) => valid_utf8(old(buffer)@.take(end as int)) && message@
                        == decode_utf8(old(buffer)@.take(end as int)),
                    Err(error) => !valid_utf8(old(buffer)@.take(end as int)) && error.is_malformed(
                        "non-UTF8 frame"@,
                    ),
                }
            },
        },
{
    let ghost before = buffer@;
    let end = match find_frame_end(buffer.as_slice()) {
        Some(end) => end,
        None => {
            return None;
        },
    };
    let head = copy_range(buffer, 0, end);
    let tail = copy_range(buffer, end, buffer.len());
    assert(head@ =~= before.take(end as int));
    assert(tail@ =~= before.skip(end as int));
    *buffer = tail;
    match utf8_text(head) {
        Some(message) => Some(Ok(message)),
        None => Some(Err(FixError::Malformed("non-UTF8 frame".to_owned()))),
    }
}

// ---------------------------------------------------------------------------
// Decoding
// ---------------------------------------------------------------------------

/// Reads a decimal; says which text is none.
fn parse_dec(value: &str) -> (r: Result<Amount, FixError>)
    ensures
        match parsed_amount(value@) {
            Ok(amount) => r == Ok::<Amount, FixError>(amount),
            Err(reason) => r matches Err(error) && error.is_malformed(
                "invalid decimal "@ + value@,
            ),
        },
{
    match Amount::parse(value) {
        Ok(amount) => Ok(amount),
        Err(_) => Err(FixError::Malformed(join2("invalid decimal ", value))),
    }
}

/// A fill report was decoded: its three decimals are read, and the first that
/// is none is reported.
pub open spec fn fill_decoded(
    fields: Seq<FieldView>,
    full: bool,
    r: Result<ExecEvent, FixError>,
) -> bool {
    let qty = field_or(fields, 32, "0"@);
    let px = field_or(fields, 31, "0"@);
    let cum = field_or(fields, 14, "0"@);
    match (parsed_amount(qty), parsed_amount(px), parsed_amount(cum)) {
        (Ok(q), Ok(p), Ok(c)) => r matches Ok(
            ExecEvent::Fill { cl_ord_id, order_id, complete, last_qty, last_px, cum_qty },
        ) && cl_ord_id@ == field_or(fields, 11, Seq::empty()) && order_id@ == field_or(
            fields,
            37,
            Seq::empty(),
        ) && complete == full && last_qty == q && last_px == p && cum_qty == c,
        (Err(_), _, _) => r matches Err(error) && error.is_malformed("invalid decimal "@ + qty),
        (Ok(_), Err(_), _) => r matches Err(error) && error.is_malformed("invalid decimal "@ + px),
        (Ok(_), Ok(_), Err(_)) => r matches Err(error) && error.is_malformed(
            "invalid decimal "@ + cum,
        ),
    }
}

/// An execution report was decoded, by its ExecType.
pub open spec fn report_decoded(fields: Seq<FieldView>, r: Result<ExecEvent, FixError>) -> bool {
    let client = field_or(fields, 11, Seq::empty());
    let venue = field_or(fields, 37, Seq::empty());
    let exec_type = field_or(fields, 150, "0"@);
    if exec_type == "0"@ {
        r matches Ok(ExecEvent::New { cl_ord_id, order_id }) && cl_ord_id@ == client && order_id@
            == venue
    } else if exec_type == "1"@ {
        fill_decoded(fields, false, r)
    } else if exec_type == "2"@ {
        fill_decoded(fields, true, r)
    } else if exec_type == "4"@ {
        r matches Ok(ExecEvent::Canceled { cl_ord_id, order_id }) && cl_ord_id@ == client
            && order_id@ == venue
    } else if exec_type == "8"@ {
        r matches Ok(ExecEvent::Rejected { cl_ord_id, reason }) && cl_ord_id@ == client && reason@
            == field_or(fields, 58, "unspecified"@)
    } else {
        r matches Ok(ExecEvent::Session(text)) && text@ == "ExecType "@ + exec_type
    }
}

/// Decodes an execution report.
pub fn decode_execution_report(fields: &[(u32, String)]) -> (r: Result<ExecEvent, FixError>)
    ensures
        report_decoded(field_views(fields@), r),
{
    let cl_ord_id = field_or_default(fields, 11, "");
    let order_id = field_or_default(fields, 37, "");
    let exec_type = field_or_default(fields, 150, "0");
    proof {
        reveal_strlit("");
        reveal_strlit("0");
        reveal_strlit("1");
        reveal_strlit("2");
        reveal_strlit("4");
        reveal_strlit("8");
        assert(""@ =~= Seq::<char>::empty());
        assert("0"@[0] != "1"@[0] && "0"@[0] != "2"@[0] && "1"@[0] != "2"@[0]);
    }
    if same(exec_type.as_str(), "0") {
        return Ok(ExecEvent::New { cl_ord_id, order_id });
    }
    if same(exec_type.as_str(), "1") || same(exec_type.as_str(), "2") {
        let complete = same(exec_type.as_str(), "2");
        let last_qty = match parse_dec(field_or_default(fields, 32, "0").as_str()) {
            Ok(amount) => amount,
            Err(error) => {
                return Err(error);
            },
        };
        let last_px = match parse_dec(field_or_default(fields, 31, "0").as_str()) {
            Ok(amount) => amount,
            Err(error) => {
                return Err(error);
            },
        };
        let cum_qty = match parse_dec(field_or_default(fields, 14, "0").as_str()) {
            Ok(amount) => amount,
            Err(error) => {
                return Err(error);
            },
        };
        return Ok(ExecEvent::Fill { cl_ord_id, order_id, complete, last_qty, last_px, cum_qty });
    }
    if same(exec_type.as_str(), "4") {
        return Ok(ExecEvent::Canceled { cl_ord_id, order_id });
    }
    if same(exec_type.as_str(), "8") {
        return Ok(
            ExecEvent::Rejected { cl_ord_id, reason: field_or_default(fields, 58, "unspecified") },
        );
    }
    Ok(ExecEvent::Session(join2("ExecType ", exec_type.as_str())))
}

/// A message was decoded: an execution report or a reject by its fields, any
/// other message as one of the session.
pub open spec fn message_decoded(message: Seq<char>, r: Result<ExecEvent, FixError>) -> bool {
    match parsed_fields(message) {
        Err(reason) => r matches Err(error) && error.is_malformed(reason),
        Ok(fields) => match field_of(fields, 35) {
            None => r matches Err(error) && error.is_malformed("no MsgType"@),
            Some(msg_type) => if msg_type == "8"@ {
                report_decoded(fields, r)
            } else if msg_type == "3"@ {
                r matches Ok(ExecEvent::Rejected { cl_ord_id, reason }) && cl_ord_id@ == field_or(
                    fields,
                    11,
                    Seq::empty(),
                ) && reason@ == field_or(fields, 58, "unspecified"@)
            } else {
                r matches Ok(ExecEvent::Session(text)) && text@ == msg_type
            },
        },
    }
}

/// Decodes the order semantics of a received message.
pub fn decode_message(message: &str) -> (r: Result<ExecEvent, FixError>)
    ensures
        message_decoded(message@, r),
{
    let fields = match parse_fields(message) {
        Ok(fields) => fields,
        Err(error) => {
            return Err(error);
        },
    };
    let msg_type = match field(fields.as_slice(), 35) {
        Some(msg_type) => msg_type,
        None => {
            return Err(FixError::Malformed("no MsgType".to_owned()));
        },
    };
    if same(msg_type, "8") {
        return decode_execution_report(fields.as_slice());
    }
    if same(msg_type, "3") {
        proof {
            reveal_strlit("");
            assert(""@ =~= Seq::<char>::empty());
        }
        return Ok(
            ExecEvent::Rejected {
                cl_ord_id: field_or_default(fields.as_slice(), 11, ""),
                reason: field_or_default(fields.as_slice(), 58, "unspecified"),
            },
        );
    }
    Ok(ExecEvent::Session(msg_type.to_owned()))
}

/// Decides on a message that arrives during the logon handshake: `true` if it
/// acknowledges the session, `false` if the acknowledgement is still to come.
pub fn logon_reply(message: &str) -> (r: Result<bool, FixError>)
    ensures
        match parsed_fields(message@) {
            Err(reason) => r matches Err(error) && error.is_malformed(reason),
            Ok(fields) => match field_of(fields, 35) {
                None => r matches Err(error) && error.is_malformed("no MsgType"@),
                Some(msg_type) => if msg_type == "A"@ {
                    r == Ok::<bool, FixError>(true)
                } else if msg_type == "5"@ {
                    r matches Err(error) && error.is_rejected(
                        "logged out during handshake: "@ + field_or(fields, 58, "no text"@),
                    )
                } else if msg_type == "3"@ {
                    r matches Err(error) && error.is_rejected(
                        "session reject: "@ + field_or(fields, 58, "unspecified"@),
                    )
                } else {
                    r == Ok::<bool, FixError>(false)
                },
            },
        },
{
    let fields = match parse_fields(message) {
        Ok(fields) => fields,
        Err(error) => {
            return Err(error);
        },
    };
    let msg_type = match field(fields.as_slice(), 35) {
        Some(msg_type) => msg_type,
        None => {
            return Err(FixError::Malformed("no MsgType".to_owned()));
        },
    };
    if same(msg_type, "A") {
        return Ok(true);
    }
    if same(msg_type, "5") {
        let text = field_or_default(fields.as_slice(), 58, "no text");
        return Err(FixError::Rejected(join2("logged out during handshake: ", text.as_str())));
    }
    if same(msg_type, "3") {
        let text = field_or_default(fields.as_slice(), 58, "unspecified");
        return Err(FixError::Rejected(join2("session reject: ", text.as_str())));
    }
    Ok(false)
}

// ---------------------------------------------------------------------------
// Writing
// ---------------------------------------------------------------------------

/// The state of the writing side of a session.
#[verifier::ext_equal]
pub struct WriterView {
    pub sender: Seq<char>,
    pub target: Seq<char>,
    /// The sequence number of the next message.
    pub next_seq: u64,
}

impl WriterView {
    /// The frame of the next message.
    pub open spec fn framed(
        self,
        msg_type: Seq<char>,
        sending_time: Seq<char>,
        payload: Seq<FieldView>,
    ) -> Seq<char> {
        frame_text(
            wire(
                body_fields(
                    msg_type,
                    self.sender,
                    self.target,
                    self.next_seq,
                    sending_time,
                    payload,
                ),
            ),
        )
    }

    /// The state after one more message.
    pub open spec fn advanced(self) -> WriterView {
        WriterView { next_seq: (self.next_seq + 1) as u64, ..self }
    }
}

/// The payload of a new order (35=D): HandlInst automated private execution and
/// TimeInForce DAY are fixed by the exchange profile; an order with a price is a
/// limit order, one without a market order.
pub open spec fn order_payload(
    cl_ord_id: Seq<char>,
    symbol: Seq<char>,
    side: Side,
    quantity: Amount,
    price: Option<Amount>,
    transact_time: Seq<char>,
) -> Seq<FieldView> {
    seq![
        (21u32, "1"@),
        (11u32, cl_ord_id),
        (55u32, symbol),
        (54u32, numeral(side.value() as nat)),
        (60u32, transact_time),
        (38u32, amount_text(quantity)),
        (
            40u32,
            match price {
                Some(px) => "2"@,
                None => "1"@,
            },
        ),
        (59u32, "0"@),
    ] + match price {
        Some(px) => seq![(44u32, amount_text(px))],
        None => Seq::empty(),
    }
}

/// The payload of a cancel request (35=F).
pub open spec fn cancel_payload(
    cl_ord_id: Seq<char>,
    orig_cl_ord_id: Seq<char>,
    symbol: Seq<char>,
    side: Side,
    transact_time: Seq<char>,
) -> Seq<FieldView> {
    seq![
        (11u32, cl_ord_id),
        (41u32, orig_cl_ord_id),
        (55u32, symbol),
        (54u32, numeral(side.value() as nat)),
        (60u32, transact_time),
    ]
}

/// Writer half of an initiator: encodes application messages.
#[derive(Debug)]
pub struct FixWriter {
    sender_comp_id: String,
    target_comp_id: String,
    outbound_seq: u64,
}

impl View for FixWriter {
    type V = WriterView;

    closed spec fn view(&self) -> WriterView {
        WriterView {
            sender: self.sender_comp_id@,
            target: self.target_comp_id@,
            next_seq: self.outbound_seq,
        }
    }
}

impl FixWriter {
    /// A session that has sent nothing yet.
    pub fn new(sender_comp_id: &str, target_comp_id: &str) -> (r: Self)
        ensures
            r@ == (WriterView { sender: sender_comp_id@, target: target_comp_id@, next_seq: 1 }),
    {
        FixWriter {
            sender_comp_id: sender_comp_id.to_owned(),
            target_comp_id: target_comp_id.to_owned(),
            outbound_seq: 1,
        }
    }

    /// The sequence number of the next message.
    pub fn next_seq(&self) -> (r: u64)
        ensures
            r == self@.next_seq,
    {
        self.outbound_seq
    }

    /// Encodes the next message with a given sending time.
    pub fn send_app_at(&mut self, msg_type: &str, fields: &[(u32, String)], sending_time: &str) -> (r:
        String)
        requires
            old(self)@.next_seq < u64::MAX,
        ensures
            r@ == old(self)@.framed(msg_type@, sending_time@, field_views(fields@)),
            final(self)@ == old(self)@.advanced(),
    {
        let seq = self.outbound_seq;
        self.outbound_seq = self.outbound_seq + 1;
        let body = build_body_at(
            msg_type,
            self.sender_comp_id.as_str(),
            self.target_comp_id.as_str(),
            seq,
            sending_time,
            fields,
        );
        frame(body.as_str())
    }

    /// Encodes the logon (35=A) with a given sending time. The exchange takes no
    /// heartbeat interval of zero.
    pub fn logon_at(&mut self, heart_bt_int: u32, sending_time: &str) -> (r: Result<
        String,
        FixError,
    >)
        requires
            old(self)@.next_seq < u64::MAX,
        ensures
            if heart_bt_int == 0 {
                &&& r matches Err(error) && error.is_rejected("HeartBtInt must be positive"@)
                &&& final(self)@ == old(self)@
            } else {
                &&& r matches Ok(message) && message@ == old(self)@.framed(
                    "A"@,
                    sending_time@,
                    seq![(98u32, "0"@), (108u32, numeral(heart_bt_int as nat))],
                )
                &&& final(self)@ == old(self)@.advanced()
            },
    {
        if heart_bt_int == 0 {
            return Err(FixError::Rejected("HeartBtInt must be positive".to_owned()));
        }
        let mut fields: Vec<(u32, String)> = Vec::new();
        fields.push((98, "0".to_owned()));
        fields.push((108, u64_text(heart_bt_int as u64)));
        assert(field_views(fields@) =~= seq![
            (98u32, "0"@),
            (108u32, numeral(heart_bt_int as nat)),
        ]);
        Ok(self.send_app_at("A", fields.as_slice(), sending_time))
    }

    /// Encodes the logon (35=A), sent now.
    pub fn logon(&mut self, heart_bt_int: u32) -> (r: Result<String, FixError>)
        requires
            old(self)@.next_seq < u64::MAX,
        ensures
            if heart_bt_int == 0 {
                &&& r matches Err(error) && error.is_rejected("HeartBtInt must be positive"@)
                &&& final(self)@ == old(self)@
            } else {
                &&& r is Ok
                &&& exists|now: Seq<char>| #[trigger]
                    is_clock_time(now) && r->Ok_0@ == old(self)@.framed(
                        "A"@,
                        now,
                        seq![(98u32, "0"@), (108u32, numeral(heart_bt_int as nat))],
                    )
                &&& final(self)@ == old(self)@.advanced()
            },
    {
        let now = timestamp_now();
        self.logon_at(heart_bt_int, now.as_str())
    }

    /// Encodes a new order (35=D) with given times.
    pub fn submit_order_at(
        &mut self,
        cl_ord_id: &str,
        symbol: &str,
        side: Side,
        quantity: Amount,
        price: Option<Amount>,
        transact_time: &str,
        sending_time: &str,
    ) -> (r: String)
        requires
            old(self)@.next_seq < u64::MAX,
        ensures
            r@ == old(self)@.framed(
                "D"@,
                sending_time@,
                order_payload(cl_ord_id@, symbol@, side, quantity, price, transact_time@),
            ),
            final(self)@ == old(self)@.advanced(),
    {
        let order_type = match price {
            Some(_) => "2",
            None => "1",
        };
        let mut fields: Vec<(u32, String)> = Vec::new();
        fields.push((21, "1".to_owned()));
        fields.push((11, cl_ord_id.to_owned()));
        fields.push((55, symbol.to_owned()));
        fields.push((54, u64_text(side.tag() as u64)));
        fields.push((60, transact_time.to_owned()));
        fields.push((38, quantity.to_text()));
        fields.push((40, order_type.to_owned()));
        fields.push((59, "0".to_owned()));
        if let Some(px) = price {
            fields.push((44, px.to_text()));
        }
        assert(field_views(fields@) =~= order_payload(
            cl_ord_id@,
            symbol@,
            side,
            quantity,
            price,
            transact_time@,
        ));
        self.send_app_at("D", fields.as_slice(), sending_time)
    }

    /// Encodes a new order (35=D), sent now.
    ///
    /// `price=None` sends a market order; `Some(px)` sends a limit order.
    /// TimeInForce is fixed to DAY per the exchange profile.
    pub fn submit_order(
        &mut self,
        cl_ord_id: &str,
        symbol: &str,
        side: Side,
        quantity: Amount,
        price: Option<Amount>,
    ) -> (r: String)
        requires
            old(self)@.next_seq < u64::MAX,
        ensures
            exists|transacted: Seq<char>, now: Seq<char>|
                #![trigger is_clock_time(transacted), is_clock_time(now)]
                is_clock_time(transacted) && is_clock_time(now) && r@ == old(self)@.framed(
                    "D"@,
                    now,
                    order_payload(cl_ord_id@, symbol@, side, quantity, price, transacted),
                ),
            final(self)@ == old(self)@.advanced(),
    {
        let transacted = timestamp_now();
        let now = timestamp_now();
        self.submit_order_at(
            cl_ord_id,
            symbol,
            side,
            quantity,
            price,
            transacted.as_str(),
            now.as_str(),
        )
    }

    /// Encodes a cancel request (35=F) with given times.
    pub fn cancel_order_at(
        &mut self,
        cl_ord_id: &str,
        orig_cl_ord_id: &str,
        symbol: &str,
        side: Side,
        transact_time: &str,
        sending_time: &str,
    ) -> (r: String)
        requires
            old(self)@.next_seq < u64::MAX,
        ensures
            r@ == old(self)@.framed(
                "F"@,
                sending_time@,
                cancel_payload(cl_ord_id@, orig_cl_ord_id@, symbol@, side, transact_time@),
            ),
            final(self)@ == old(self)@.advanced(),
    {
        let mut fields: Vec<(u32, String)> = Vec::new();
        fields.push((11, cl_ord_id.to_owned()));
        fields.push((41, orig_cl_ord_id.to_owned()));
        fields.push((55, symbol.to_owned()));
        fields.push((54, u64_text(side.tag() as u64)));
        fields.push((60, transact_time.to_owned()));
        assert(field_views(fields@) =~= cancel_payload(
            cl_ord_id@,
            orig_cl_ord_id@,
            symbol@,
            side,
            transact_time@,
        ));
        self.send_app_at("F", fields.as_slice(), sending_time)
    }

    /// Encodes a cancel request (35=F), sent now.
    pub fn cancel_order(
        &mut self,
        cl_ord_id: &str,
        orig_cl_ord_id: &str,
        symbol: &str,
        side: Side,
    ) -> (r: String)
        requires
            old(self)@.next_seq < u64::MAX,
        ensures
            exists|transacted: Seq<char>, now: Seq<char>|
                #![trigger is_clock_time(transacted), is_clock_time(now)]
                is_clock_time(transacted) && is_clock_time(now) && r@ == old(self)@.framed(
                    "F"@,
                    now,
                    cancel_payload(cl_ord_id@, orig_cl_ord_id@, symbol@, side, transacted),
                ),
            final(self)@ == old(self)@.advanced(),
    {
        let transacted = timestamp_now();
        let now = timestamp_now();
        self.cancel_order_at(
            cl_ord_id,
            orig_cl_ord_id,
            symbol,
            side,
            transacted.as_str(),
            now.as_str(),
        )
    }
}

// ---------------------------------------------------------------------------
// Laws
// ---------------------------------------------------------------------------

/// No value holds a separator.
pub open spec fn values_are_clean(fields: Seq<FieldView>) -> bool {
    forall|i: int| 0 <= i < fields.len() ==> !(#[trigger] fields[i]).1.contains(SOH)
}

/// Fields one after the other, split at a place.
proof fn lemma_wire_add(a: Seq<FieldView>, b: Seq<FieldView>)
    ensures
        wire(a + b) == wire(a) + wire(b),
    decreases b.len(),
{
    if b.len() == 0 {
        assert(a + b =~= a);
        assert(wire(a) + wire(b) =~= wire(a));
    } else {
        lemma_wire_add(a, b.drop_last());
        assert((a + b).drop_last() =~= a + b.drop_last());
        assert(wire(a + b) =~= wire(a) + wire(b));
    }
}

/// One field on the wire.
proof fn lemma_wire_one(field: FieldView)
    ensures
        wire(seq![field]) == field_text(field),
{
    assert(seq![field].drop_last() =~= Seq::<FieldView>::empty());
    assert(wire(Seq::<FieldView>::empty()) + field_text(field) =~= field_text(field));
}

/// What is written is what is parsed: fields whose values hold no separator come
/// back from the wire, all of them and in order.
pub proof fn law_fields_parse_back(fields: Seq<FieldView>)
    requires
        values_are_clean(fields),
    ensures
        parsed_fields(wire(fields)) == Ok::<Seq<FieldView>, Seq<char>>(fields),
    decreases fields.len(),
{
    if fields.len() == 0 {
        assert(fields =~= Seq::<FieldView>::empty());
    } else {
        let first = fields[0];
        let rest = fields.drop_first();
        assert forall|i: int| 0 <= i < rest.len() implies !(#[trigger] rest[i]).1.contains(SOH) by {
            assert(rest[i] == fields[i + 1]);
        }
        law_fields_parse_back(rest);
        assert(fields =~= seq![first] + rest);
        lemma_wire_add(seq![first], rest);
        lemma_wire_one(first);
        let digits = numeral(first.0 as nat);
        let part = digits.push('=') + first.1;
        lemma_numeral(first.0 as nat);
        lemma_digits_without(digits, '=');
        lemma_digits_without(digits, SOH);
        assert(!part.contains(SOH)) by {
            if part.contains(SOH) {
                let i = choose|i: int| 0 <= i < part.len() && part[i] == SOH;
                if i < digits.len() {
                    assert(digits[i] == SOH);
                } else if i > digits.len() {
                    assert(first.1[i - digits.len() - 1] == SOH);
                }
            }
        }
        lemma_first_behind(part, SOH, wire(rest));
        lemma_first_behind(digits, '=', first.1);
        lemma_parsed_numeral(first.0 as nat, u32::MAX as nat);
        assert(wire(fields) == part.push(SOH) + wire(rest));
    }
}

/// A framed message parses back into the fields of its body, between the version
/// and body length before them and the checksum behind them. The checksum covers
/// everything before its own field.
pub proof fn law_frame_parses_back(fields: Seq<FieldView>)
    requires
        values_are_clean(fields),
    ensures
        parsed_fields(frame_text(wire(fields))) == Ok::<Seq<FieldView>, Seq<char>>(
            seq![(8u32, "FIX.4.2"@), (9u32, numeral(encode_utf8(wire(fields)).len()))] + fields
                + seq![(10u32, padded(checksum_of(message_text(wire(fields))), 3))],
        ),
{
    let body = wire(fields);
    let version = (8u32, "FIX.4.2"@);
    let length = (9u32, numeral(encode_utf8(body).len()));
    let sum = (10u32, padded(checksum_of(message_text(body)), 3));
    let head = seq![version, length];
    let all = head + fields + seq![sum];
    lemma_wire_add(head + fields, seq![sum]);
    lemma_wire_add(head, fields);
    lemma_wire_add(seq![version], seq![length]);
    assert(seq![version] + seq![length] =~= head);
    lemma_wire_one(version);
    lemma_wire_one(length);
    lemma_wire_one(sum);
    assert(wire(all) == frame_text(body));
    reveal_strlit("FIX.4.2");
    lemma_numeral(encode_utf8(body).len());
    lemma_digits_without(numeral(encode_utf8(body).len()), SOH);
    lemma_padded(checksum_of(message_text(body)), 3);
    lemma_digits_without(sum.1, SOH);
    assert(!version.1.contains(SOH));
    assert forall|i: int| 0 <= i < all.len() implies !(#[trigger] all[i]).1.contains(SOH) by {
        if 2 <= i < 2 + fields.len() {
            assert(all[i] == fields[i - 2]);
        }
    }
    law_fields_parse_back(all);
}

/// Texts one after the other are encoded one after the other.
pub proof fn lemma_encode_add(a: Seq<char>, b: Seq<char>)
    ensures
        encode_utf8(a + b) == encode_utf8(a) + encode_utf8(b),
    decreases a.len(),
{
    if a.len() == 0 {
        assert(a + b =~= b);
        assert(encode_utf8(a) + encode_utf8(b) =~= encode_utf8(b));
    } else {
        lemma_encode_add(a.drop_first(), b);
        assert((a + b).drop_first() =~= a.drop_first() + b);
        assert(encode_utf8(a + b) =~= encode_utf8(a) + encode_utf8(b));
    }
}

/// The checksum field has seven characters and begins with its tag.
pub proof fn lemma_checksum_field(sum: nat)
    requires
        sum < 256,
    ensures
        ({
            let tail = field_text((10, padded(sum, 3)));
            &&& tail.len() == 7
            &&& tail[0] == '1'
            &&& tail[1] == '0'
            &&& tail[2] == '='
            &&& vstd::utf8::is_ascii_chars(tail)
        }),
{
    reveal_with_fuel(numeral, 4);
    let tail = field_text((10, padded(sum, 3)));
    let digits = padded(sum, 3);
    lemma_padded(sum, 3);
    assert(digits.len() == 3);
    assert(numeral(10) =~= seq!['1', '0']);
    assert forall|i: int| 0 <= i < tail.len() implies (#[trigger] tail[i] as u32) < 128 by {
        if 3 <= i < 6 {
            assert(tail[i] == digits[i - 3]);
            assert(is_digit(digits[i - 3]));
        }
    }
}

/// The version and body length fields of a frame.
spec fn head_text(body: Seq<char>) -> Seq<char> {
    field_text((8, "FIX.4.2"@)) + field_text((9, numeral(encode_utf8(body).len())))
}

/// The first separator is where it is said to be.
proof fn lemma_separator(bytes: Seq<u8>, from: nat, at: nat)
    requires
        from <= at <= bytes.len(),
        at < bytes.len() ==> bytes[at as int] == 1,
        forall|i: int| from <= i < at ==> (#[trigger] bytes[i]) != 1,
    ensures
        separator_from(bytes, from) == at,
    decreases at - from,
{
    if from < at {
        assert(bytes[from as int] != 1);
        lemma_separator(bytes, from + 1, at);
    }
}

proof fn lemma_digit_is_ascii(c: char)
    requires
        is_digit(c),
    ensures
        '0' <= c <= '9',
{
}

/// The bytes of the version and body length fields: the same as their characters,
/// with separators at the end of both and nowhere else.
proof fn lemma_head_bytes(body: Seq<char>)
    ensures
        ({
            let digits = numeral(encode_utf8(body).len());
            let head = encode_utf8(head_text(body));
            &&& head.len() == 13 + digits.len()
            &&& head[9] == 1
            &&& head[10] == 0x39
            &&& head[11] == 0x3d
            &&& head[head.len() - 1] == 1
            &&& as_chars(head.subrange(12, head.len() - 1)) == digits
            &&& forall|i: int|
                0 <= i < head.len() - 1 && i != 9 ==> (#[trigger] head[i]) != 1
            &&& forall|i: int|
                0 <= i < head.len() && i != 1 && i != 11 ==> (#[trigger] head[i]) != 0x3d
        }),
{
    let digits = numeral(encode_utf8(body).len());
    let text = head_text(body);
    let head = encode_utf8(text);
    reveal_with_fuel(numeral, 2);
    reveal_strlit("FIX.4.2");
    lemma_numeral(encode_utf8(body).len());
    assert(numeral(8) =~= seq!['8']);
    assert(numeral(9) =~= seq!['9']);
    let version = seq!['8', '=', 'F', 'I', 'X', '.', '4', '.', '2', SOH];
    assert(field_text((8, "FIX.4.2"@)) =~= version);
    assert(text =~= version + seq!['9', '='] + digits + seq![SOH]);
    assert forall|i: int| 0 <= i < text.len() implies '\0' <= #[trigger] text[i] <= '\u{7f}' by {
        if i < 10 {
            assert(text[i] == version[i]);
        } else if 12 <= i < 12 + digits.len() {
            assert(text[i] == digits[i - 12]);
            lemma_digit_is_ascii(digits[i - 12]);
        }
    }
    vstd::utf8::is_ascii_chars_encode_utf8(text);
    assert forall|i: int| 0 <= i < head.len() - 1 && i != 9 implies (#[trigger] head[i]) != 1 by {
        assert(head[i] == text[i] as u8);
        if 12 <= i < 12 + digits.len() {
            assert(text[i] == digits[i - 12]);
            lemma_digit_is_ascii(digits[i - 12]);
        }
    }
    assert forall|i: int| 0 <= i < head.len() && i != 1 && i != 11 implies (#[trigger] head[i])
        != 0x3d by {
        assert(head[i] == text[i] as u8);
        if 12 <= i < 12 + digits.len() {
            assert(text[i] == digits[i - 12]);
            lemma_digit_is_ascii(digits[i - 12]);
        }
    }
    assert(head[9] == text[9] as u8);
    assert(head[10] == text[10] as u8);
    assert(head[11] == text[11] as u8);
    assert(head[head.len() - 1] == text[text.len() - 1] as u8);
    let read = as_chars(head.subrange(12, head.len() - 1));
    assert forall|i: int| 0 <= i < digits.len() implies #[trigger] read[i] == digits[i] by {
        lemma_digit_is_ascii(digits[i]);
        assert(text[i + 12] == digits[i]);
        assert(head[i + 12] == text[i + 12] as u8);
    }
    assert(read =~= digits);
}

/// What a buffer that begins like a frame says of where the frame ends.
proof fn lemma_heading(body: Seq<char>, buffer: Seq<u8>)
    requires
        forall|i: int|
            0 <= i < buffer.len() && i < encode_utf8(head_text(body)).len() ==> (
            #[trigger] buffer[i]) == encode_utf8(head_text(body))[i],
    ensures
        heading(buffer) == (if buffer.len() < encode_utf8(head_text(body)).len() {
            Heading::Arriving
        } else {
            Heading::Ends(encode_utf8(head_text(body)).len() + encode_utf8(body).len() + 7)
        }),
{
    let digits = numeral(encode_utf8(body).len());
    let head = encode_utf8(head_text(body));
    lemma_head_bytes(body);
    lemma_numeral(encode_utf8(body).len());
    if buffer.len() <= 9 {
        lemma_separator(buffer, 0, buffer.len());
    } else {
        assert(buffer[9] == head[9]);
        lemma_separator(buffer, 0, 9);
        if buffer.len() < head.len() {
            lemma_separator(buffer, 10, buffer.len());
        } else {
            let last = (head.len() - 1) as nat;
            assert(buffer[last as int] == head[last as int]);
            lemma_separator(buffer, 10, last);
            assert(buffer.subrange(12, last as int) =~= head.subrange(12, last as int));
            assert(buffer[10] == head[10]);
            assert(buffer[11] == head[11]);
        }
    }
}

/// The bytes of a frame: its head, its body and its checksum field.
proof fn lemma_frame_bytes(body: Seq<char>)
    ensures
        ({
            let head = encode_utf8(head_text(body));
            let tail = encode_utf8(field_text((10, padded(checksum_of(message_text(body)), 3))));
            &&& encode_utf8(frame_text(body)) == head + encode_utf8(body) + tail
            &&& tail.len() == 7
            &&& tail[0] == 0x31
            &&& tail[1] == 0x30
            &&& tail[2] == 0x3d
        }),
{
    let sum = checksum_of(message_text(body));
    let tail = field_text((10, padded(sum, 3)));
    lemma_checksum_field(sum);
    lemma_encode_add(message_text(body), tail);
    lemma_encode_add(head_text(body), body);
    vstd::utf8::is_ascii_chars_encode_utf8(tail);
    assert(encode_utf8(tail)[0] == tail[0] as u8);
    assert(encode_utf8(tail)[1] == tail[1] as u8);
    assert(encode_utf8(tail)[2] == tail[2] as u8);
}

/// The next frame is cut out whole: in a buffer that begins with a frame, whatever
/// comes behind it, the frame ends where it ends. Its bytes give the frame back,
/// and what is behind it is left.
pub proof fn law_next_frame_is_cut_out(body: Seq<char>, rest: Seq<u8>)
    ensures
        ({
            let bytes = encode_utf8(frame_text(body));
            &&& frame_end(bytes + rest) == Some(bytes.len())
            &&& (bytes + rest).take(bytes.len() as int) == bytes
            &&& (bytes + rest).skip(bytes.len() as int) == rest
            &&& valid_utf8(bytes)
            &&& decode_utf8(bytes) == frame_text(body)
        }),
{
    let bytes = encode_utf8(frame_text(body));
    let head = encode_utf8(head_text(body));
    let tail = encode_utf8(field_text((10, padded(checksum_of(message_text(body)), 3))));
    let buffer = bytes + rest;
    lemma_frame_bytes(body);
    lemma_heading(body, buffer);
    let n = head.len() + encode_utf8(body).len();
    assert(buffer[n as int] == tail[0]);
    assert(buffer[n as int + 1] == tail[1]);
    assert(buffer[n as int + 2] == tail[2]);
    assert(tail_at(buffer, n as int));
    assert(buffer.take(bytes.len() as int) =~= bytes);
    assert(buffer.skip(bytes.len() as int) =~= rest);
    vstd::utf8::encode_utf8_valid_utf8(frame_text(body));
    vstd::utf8::encode_utf8_decode_utf8(frame_text(body));
}

/// There is no checksum where there is none at any place.
proof fn lemma_no_checksum(buffer: Seq<u8>, before: nat, whole: bool)
    requires
        forall|at: int| 0 <= at < before ==> !#[trigger] checksum_at(buffer, at, whole),
    ensures
        last_checksum(buffer, before, whole) is None,
    decreases before,
{
    if before > 0 {
        assert(!checksum_at(buffer, before - 1, whole));
        lemma_no_checksum(buffer, (before - 1) as nat, whole);
    }
}

/// A field of a body is a checksum: `10=` at its beginning or behind a separator.
pub open spec fn holds_checksum_field(body: Seq<u8>) -> bool {
    exists|at: int|
        0 <= at && at + 3 <= body.len() && (at == 0 || body[at - 1] == 1) && #[trigger] body[at]
            == 0x31 && body[at + 1] == 0x30 && body[at + 2] == 0x3d
}

/// A frame that has arrived in part is not cut, as the checksum is its last field:
/// in a body without such a field, nothing is taken for the end of the frame.
pub proof fn law_partial_frame_waits(body: Seq<char>, arrived: int)
    requires
        !holds_checksum_field(encode_utf8(body)),
        0 <= arrived < encode_utf8(frame_text(body)).len(),
    ensures
        frame_end(encode_utf8(frame_text(body)).take(arrived)) is None,
{
    let bytes = encode_utf8(frame_text(body));
    let head = encode_utf8(head_text(body));
    let inner = encode_utf8(body);
    let tail = encode_utf8(field_text((10, padded(checksum_of(message_text(body)), 3))));
    let buffer = bytes.take(arrived);
    let whole = heading(buffer) is Ends;
    let n = (head.len() + inner.len()) as int;
    lemma_frame_bytes(body);
    lemma_head_bytes(body);
    lemma_heading(body, buffer);
    assert forall|at: int| 0 <= at < buffer.len() implies !#[trigger] checksum_at(
        buffer,
        at,
        whole,
    ) by {
        if tail_at(buffer, at) {
            assert(bytes[at] == 0x31 && bytes[at + 1] == 0x30 && bytes[at + 2] == 0x3d);
            if at + 2 < head.len() {
                assert(head[at + 2] == bytes[at + 2]);
                assert(head[9] == bytes[9]);
            } else if at < head.len() {
                assert(head[head.len() - 1] == bytes[head.len() - 1]);
            } else if at + 2 < n {
                let k = at - head.len();
                assert(inner[k] == bytes[at]);
                assert(inner[k + 1] == bytes[at + 1]);
                assert(inner[k + 2] == bytes[at + 2]);
                if k > 0 {
                    assert(inner[k - 1] == bytes[at - 1]);
                }
            } else {
                assert(at < n);
                assert(tail[0] == bytes[n]);
            }
        }
    }
    lemma_no_checksum(buffer, buffer.len(), whole);
}

} // verus!
