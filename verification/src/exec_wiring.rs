//! Execution-path decisions shared by node assemblies and tests.
//!
//! The durable outcome recorder watches order events: denials, fills and
//! cancellations of orders that the journal admitted become outcomes. The
//! admission that an outcome belongs to is recovered from the order ID.

use vstd::prelude::*;

use crate::bridge::order_id;
use crate::journal::JournalOutcome;
use crate::text::{
    find_from, first_of, from_chars, lemma_digits_without, lemma_first_behind, lemma_numeral,
    lemma_parsed_padded, numeral, padded, parse_number, parsed, to_chars,
};

verus! {

/// The journal sequence in an order ID: the number behind `O`, a hyphen, an
/// epoch without hyphens, and another hyphen.
pub open spec fn seq_in_order_id(id: Seq<char>) -> Option<nat> {
    if id.len() >= 2 && id[0] == 'O' && id[1] == '-' {
        let rest = id.skip(2);
        let at = first_of(rest, '-');
        if at < rest.len() {
            parsed(rest.skip(at as int + 1), u64::MAX as nat)
        } else {
            None
        }
    } else {
        None
    }
}

/// Parses the journal sequence out of a derived client order ID.
pub fn seq_from_client_order_id(client_order_id: &str) -> (r: Option<u64>)
    ensures
        r is Some <==> seq_in_order_id(client_order_id@) is Some,
        r is Some ==> r->0 as nat == seq_in_order_id(client_order_id@)->0,
{
    let chars = to_chars(client_order_id);
    if chars.len() < 2 || chars[0] != 'O' || chars[1] != '-' {
        return None;
    }
    let ghost rest = client_order_id@.skip(2);
    let at = find_from(&chars, '-', 2);
    if at == chars.len() {
        return None;
    }
    let tail = from_chars(&chars, at + 1, chars.len());
    assert(tail@ =~= rest.skip(at - 1));
    parse_number(tail.as_str(), u64::MAX)
}

/// An order event that the outcome recorder sees.
#[derive(Debug)]
pub enum OrderEvent {
    /// The order was denied before it reached a venue.
    Denied { client_order_id: String, reason: String },
    /// The order was filled, in whole or in part.
    Filled { client_order_id: String, last_qty: String },
    /// The order was cancelled.
    Canceled { client_order_id: String },
    /// Any other event.
    Other,
}

impl OrderEvent {
    /// The order that the event is about, and the outcome that it means.
    pub open spec fn outcome(self) -> Option<(Seq<char>, JournalOutcome)> {
        match self {
            OrderEvent::Denied { client_order_id, reason } => Some(
                (client_order_id@, JournalOutcome::Denied { reason }),
            ),
            OrderEvent::Filled { client_order_id, last_qty } => Some(
                (
                    client_order_id@,
                    JournalOutcome::Filled { client_order_id, filled_qty: last_qty },
                ),
            ),
            OrderEvent::Canceled { client_order_id } => Some(
                (client_order_id@, JournalOutcome::Canceled { client_order_id }),
            ),
            OrderEvent::Other => None,
        }
    }
}

/// The outcome to journal for an order event, with the admission that it belongs
/// to; `None` if the event means none or the order has no derived ID.
pub fn outcome_for_event(event: OrderEvent) -> (r: Option<(u64, JournalOutcome)>)
    ensures
        match event.outcome() {
            Some((id, outcome)) => match seq_in_order_id(id) {
                Some(seq) => r matches Some((origin, recorded)) && origin == seq && recorded
                    == outcome,
                None => r is None,
            },
            None => r is None,
        },
{
    match event {
        OrderEvent::Denied { client_order_id, reason } => {
            match seq_from_client_order_id(client_order_id.as_str()) {
                Some(origin) => Some((origin, JournalOutcome::Denied { reason })),
                None => None,
            }
        },
        OrderEvent::Filled { client_order_id, last_qty } => {
            match seq_from_client_order_id(client_order_id.as_str()) {
                Some(origin) => Some(
                    (origin, JournalOutcome::Filled { client_order_id, filled_qty: last_qty }),
                ),
                None => None,
            }
        },
        OrderEvent::Canceled { client_order_id } => {
            match seq_from_client_order_id(client_order_id.as_str()) {
                Some(origin) => Some((origin, JournalOutcome::Canceled { client_order_id })),
                None => None,
            }
        },
        OrderEvent::Other => None,
    }
}

/// The sequence is recovered from every derived order ID: what was derived from
/// `(epoch, seq)` leads back to `seq`.
pub proof fn law_derived_id_leads_back(epoch: u64, seq: u64)
    ensures
        seq_in_order_id(order_id(epoch, seq)) == Some(seq as nat),
{
    reveal_strlit("O-");
    reveal_strlit("-");
    let id = order_id(epoch, seq);
    let middle = numeral(epoch as nat);
    let tail = padded(seq as nat, 12);
    lemma_numeral(epoch as nat);
    lemma_digits_without(middle, '-');
    let rest = id.skip(2);
    assert(rest =~= middle.push('-') + tail);
    lemma_first_behind(middle, '-', tail);
    lemma_parsed_padded(seq as nat, 12, u64::MAX as nat);
}

} // verus!
