//! Laws of texts: numbers, order IDs and option values.

use vstd::prelude::*;

use crate::exec_wiring::seq_from_client_order_id;
use crate::grpc::{parse_cursor, Status, StatusCode};
use crate::local_client::CancelIds;
use crate::options::parse_storage_option;
use crate::text::{
    all_digits, digits_value, is_digit, lemma_first_of, lemma_numeral, lemma_parsed_numeral,
    lemma_parsed_padded, numeral, padded_text, parse_number, precedes, text_precedes, u64_text,
    unsigned_part,
};

verus! {

// ---------------------------------------------------------------------------
// Numbers
// ---------------------------------------------------------------------------

/// A numeral has no leading zero.
proof fn lemma_no_leading_zero(n: nat)
    ensures
        numeral(n).len() > 1 ==> numeral(n)[0] != '0',
        n > 0 ==> numeral(n)[0] != '0',
    decreases n,
{
    if n >= 10 {
        lemma_no_leading_zero(n / 10);
        lemma_numeral(n / 10);
        assert(numeral(n)[0] == numeral(n / 10)[0]);
    }
}

/// A number is written as short as it can be and reads back; written to a width, it
/// has zeros in front of the same digits, and no more of them than it needs.
pub proof fn law_written_numbers_read_back(
    n: u64,
    width: usize,
    plain: String,
    wide: String,
    plain_text: &str,
    wide_text: &str,
    plain_read: Option<u64>,
    wide_read: Option<u64>,
)
    requires
        call_ensures(u64_text, (n,), plain),
        call_ensures(padded_text, (n, width), wide),
        plain_text@ == plain@,
        wide_text@ == wide@,
        call_ensures(parse_number, (plain_text, u64::MAX), plain_read),
        call_ensures(parse_number, (wide_text, u64::MAX), wide_read),
    ensures
        plain_read == Some(n),
        wide_read == Some(n),
        plain@.len() >= 1,
        plain@.len() > 1 ==> plain@[0] != '0',
        wide@.len() == if plain@.len() >= width {
            plain@.len()
        } else {
            width as nat
        },
        wide@.skip(wide@.len() - plain@.len()) == plain@,
        forall|i: int| 0 <= i < wide@.len() - plain@.len() ==> #[trigger] wide@[i] == '0',
{
    lemma_numeral(n as nat);
    lemma_no_leading_zero(n as nat);
    lemma_parsed_numeral(n as nat, u64::MAX as nat);
    lemma_parsed_padded(n as nat, width as nat, u64::MAX as nat);
}

/// A number is read digit by digit: one more digit makes ten times the number and the
/// digit, unless that is more than is asked for, and anything but a digit makes no
/// number. Nothing is no number, and a plus sign in front changes nothing.
pub proof fn law_numbers_are_read_by_their_digits(
    text: &str,
    longer: &str,
    signed: &str,
    next: char,
    max: u64,
    r: Option<u64>,
    longer_r: Option<u64>,
    signed_r: Option<u64>,
)
    requires
        call_ensures(parse_number, (text, max), r),
        call_ensures(parse_number, (longer, max), longer_r),
        call_ensures(parse_number, (signed, max), signed_r),
        longer@ == text@.push(next),
        signed@ == seq!['+'] + text@,
    ensures
        text@.len() == 0 ==> r is None,
        text@.len() == 0 && 48 <= next as u32 <= 57 ==> (if next as u32 - 48 <= max {
            longer_r matches Some(n) && n == next as u32 - 48
        } else {
            longer_r is None
        }),
        r matches Some(n) ==> (48 <= next as u32 <= 57 ==> (if n * 10 + (next as u32 - 48) <= max {
            longer_r matches Some(m) && m == n * 10 + (next as u32 - 48)
        } else {
            longer_r is None
        })),
        !(48 <= next as u32 <= 57) ==> longer_r is None,
        text@.len() == 0 || text@[0] != '+' ==> signed_r == r,
{
    let digits = unsigned_part(text@);
    let more = unsigned_part(longer@);
    assert(longer@.last() == next);
    if text@.len() > 0 {
        assert(longer@[0] == text@[0]);
        assert(more =~= digits.push(next));
    }
    if more.len() > 0 {
        assert(more.last() == next);
        assert(is_digit(more[more.len() - 1]) == is_digit(next));
    }
    if text@.len() == 0 {
        assert(longer@ =~= seq![next]);
        if next != '+' {
            assert(more.drop_last() =~= Seq::<char>::empty());
            assert(digits_value(Seq::<char>::empty()) == 0);
        }
    } else {
        assert(more.drop_last() =~= digits);
        if all_digits(digits) && is_digit(next) {
            assert(all_digits(more)) by {
                assert forall|i: int| 0 <= i < more.len() implies is_digit(#[trigger] more[i]) by {
                    if i < digits.len() {
                        assert(more[i] == digits[i]);
                    }
                }
            }
        }
    }
    assert(unsigned_part(signed@) =~= text@);
}

/// A cursor is any number, and nothing else: whoever asks with something else is told
/// that the request is wrong.
pub proof fn law_cursors_are_numbers(after: &str, number: Option<u64>, r: Result<u64, Status>)
    requires
        call_ensures(parse_number, (after, u64::MAX), number),
        call_ensures(parse_cursor, (after,), r),
    ensures
        number matches Some(n) ==> r == Ok::<u64, Status>(n),
        number is None ==> (r matches Err(status) && status.code == StatusCode::InvalidArgument),
{
}

/// Texts that begin alike stand in the order of what follows.
proof fn lemma_common_start(start: Seq<char>, a: Seq<char>, b: Seq<char>)
    ensures
        precedes(start + a, start + b) == precedes(a, b),
    decreases start.len(),
{
    if start.len() == 0 {
        assert(start + a =~= a);
        assert(start + b =~= b);
    } else {
        let rest = start.drop_first();
        lemma_common_start(rest, a, b);
        assert((start + a).drop_first() =~= rest + a);
        assert((start + b).drop_first() =~= rest + b);
    }
}

/// Of two texts that begin alike the shorter one stands first if the other goes on
/// where it ends; else the first characters that differ decide, by their code points.
pub proof fn law_texts_are_ordered_by_their_characters(
    left: &str,
    right: &str,
    start: Seq<char>,
    a: Seq<char>,
    b: Seq<char>,
    r: bool,
)
    requires
        call_ensures(text_precedes, (left, right), r),
        left@ == start + a,
        right@ == start + b,
    ensures
        a.len() == 0 ==> (r <==> b.len() > 0),
        b.len() == 0 ==> !r,
        a.len() > 0 && b.len() > 0 && a[0] != b[0] ==> (r <==> (a[0] as u32) < (b[0] as u32)),
{
    lemma_common_start(start, a, b);
}

/// A cancel ID is that of its client and its number. The numbers ascend: the next one
/// is the one behind the last, or one that the clock shows within its second.
pub proof fn law_cancel_ids_count_on(ids: &mut CancelIds, text: String)
    requires
        call_ensures(CancelIds::fresh_cancel_id, (ids,), text),
        old(ids)@.last != Some(u64::MAX),
    ensures
        final(ids)@.last matches Some(number) && {
            &&& text@ == "C-"@ + old(ids)@.client_id + "-"@ + numeral(number as nat)
            &&& old(ids)@.last matches Some(last) ==> number > last && (number == last + 1 || number
                < 1_000_000_000)
            &&& old(ids)@.last is None ==> number < 1_000_000_000
        },
        final(ids)@.client_id == old(ids)@.client_id,
{
}

// ---------------------------------------------------------------------------
// Order IDs and options
// ---------------------------------------------------------------------------

/// The number in an order ID is what stands behind its second hyphen, and only an ID
/// of an admission has one.
pub proof fn law_order_ids_end_in_their_number(
    id: &str,
    epoch: Seq<char>,
    tail: &str,
    number: Option<u64>,
    r: Option<u64>,
)
    requires
        call_ensures(seq_from_client_order_id, (id,), r),
        call_ensures(parse_number, (tail, u64::MAX), number),
        !epoch.contains('-'),
    ensures
        id@ == seq!['O', '-'] + epoch + seq!['-'] + tail@ ==> r == number,
        id@ == seq!['O', '-'] + epoch ==> r is None,
        !seq!['O', '-'].is_prefix_of(id@) ==> r is None,
{
    if id@ == seq!['O', '-'] + epoch + seq!['-'] + tail@ {
        let rest = id@.skip(2);
        assert(rest =~= epoch + seq!['-'] + tail@);
        assert forall|i: int| 0 <= i < epoch.len() implies #[trigger] rest[i] != '-' by {
            assert(rest[i] == epoch[i]);
        }
        lemma_first_of(rest, '-', epoch.len() as int);
        assert(rest.skip(epoch.len() as int + 1) =~= tail@);
    } else if id@ == seq!['O', '-'] + epoch {
        let rest = id@.skip(2);
        assert(rest =~= epoch);
        assert forall|i: int| 0 <= i < epoch.len() implies #[trigger] rest[i] != '-' by {
            assert(rest[i] == epoch[i]);
        }
        lemma_first_of(rest, '-', epoch.len() as int);
    } else if id@.len() >= 2 && id@[0] == 'O' && id@[1] == '-' {
        assert(seq!['O', '-'].is_prefix_of(id@)) by {
            assert(id@.subrange(0, 2) =~= seq!['O', '-']);
        }
    }
}

/// An option is a key, an equals sign and a value, the key without that sign; without
/// the sign, or with nothing on either side of it, it is refused.
pub proof fn law_options_are_split_at_the_first_sign(
    text: &str,
    key: Seq<char>,
    value: Seq<char>,
    r: Result<(String, String), String>,
)
    requires
        call_ensures(parse_storage_option, (text,), r),
        !key.contains('='),
    ensures
        text@ == key + seq!['='] + value && key.len() > 0 && value.len() > 0 ==> (r matches Ok(
            option,
        ) && option.0@ == key && option.1@ == value),
        text@ == key + seq!['='] + value && (key.len() == 0 || value.len() == 0) ==> r is Err,
        text@ == key ==> r is Err,
{
    if text@ == key + seq!['='] + value {
        assert forall|i: int| 0 <= i < key.len() implies #[trigger] text@[i] != '=' by {
            assert(text@[i] == key[i]);
        }
        assert(text@[key.len() as int] == '=');
        lemma_first_of(text@, '=', key.len() as int);
        assert(text@.take(key.len() as int) =~= key);
        assert(text@.skip(key.len() as int + 1) =~= value);
    } else if text@ == key {
        assert forall|i: int| 0 <= i < key.len() implies #[trigger] text@[i] != '=' by {
            assert(text@[i] == key[i]);
        }
        lemma_first_of(text@, '=', key.len() as int);
    }
}

} // verus!
