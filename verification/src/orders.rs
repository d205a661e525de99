//! Limit orders as the execution chain constructs them.

use nautilus_core::UUID4;
use nautilus_model::enums::{OrderSide as Side, TimeInForce as Tif};
use nautilus_model::orders::LimitOrder;
use vstd::prelude::*;

use crate::bridge::{order_id, BridgeError, LimitOrderRequest, OrderSide, TimeInForce};
use crate::identifiers::{
    canonical_price, canonical_quantity, is_blank, is_client_order_id, is_identifier,
    is_instrument_id, is_strategy_id, is_trader_id, order_terms, takes_trader_id,
};
use crate::text::{is_digit, lemma_numeral, lemma_padded, numeral, padded};

verus! {

/// Whether a written quantity is above zero: one of its digits is.
pub open spec fn is_above_zero(quantity: Seq<char>) -> bool {
    exists|i: int| 0 <= i < quantity.len() && 0x31 <= (#[trigger] quantity[i]) as u32 <= 0x39
}

/// Why the execution chain constructs no limit order of a written quantity and a
/// time in force; `None` if it does.
pub open spec fn construction_refusal(quantity: Seq<char>, time_in_force: TimeInForce) -> Option<
    Seq<char>,
> {
    if !is_above_zero(quantity) {
        Some("invalid `Quantity` for 'quantity' not positive, was "@ + quantity)
    } else if time_in_force == TimeInForce::Gtd {
        Some("`expire_time` is required for `GTD` order"@)
    } else {
        None
    }
}

/// `LimitOrder::new_checked` of `nautilus_model`, without expiry and display
/// quantity: the message of its error, or `None` if it constructs the order. It
/// wants a quantity above zero, and an expiry for orders that are good till a
/// date.
#[verifier::external_body]
fn refused_limit_order(
    trader_id: &str,
    strategy_id: &str,
    instrument_id: &str,
    client_order_id: &str,
    side: OrderSide,
    quantity: &str,
    price: &str,
    time_in_force: TimeInForce,
    post_only: bool,
    reduce_only: bool,
    ts_init_ns: u64,
) -> (r: Option<String>)
    requires
        is_trader_id(trader_id@),
        is_strategy_id(strategy_id@),
        is_instrument_id(instrument_id@),
        is_identifier(client_order_id@),
        canonical_quantity(quantity@) is Some,
        canonical_price(price@) is Some,
    ensures
        match r {
            Some(reason) => construction_refusal(canonical_quantity(quantity@)->0, time_in_force)
                == Some(reason@),
            None => construction_refusal(
                canonical_quantity(quantity@)->0,
                time_in_force,
            ) is None,
        },
{
    let side = match side { OrderSide::Buy => Side::Buy, OrderSide::Sell => Side::Sell };
    let tif = match time_in_force {
        TimeInForce::Gtc => Tif::Gtc, TimeInForce::Ioc => Tif::Ioc, TimeInForce::Fok => Tif::Fok,
        TimeInForce::Gtd => Tif::Gtd, TimeInForce::Day => Tif::Day,
        TimeInForce::AtTheOpen => Tif::AtTheOpen, TimeInForce::AtTheClose => Tif::AtTheClose,
    };
    LimitOrder::new_checked(
        trader_id.into(), strategy_id.into(), instrument_id.into(), client_order_id.into(), side,
        quantity.into(), price.into(), tif, None, post_only, reduce_only, false, None, None, None,
        None, None, None, None, None, None, None, None, UUID4::new(), ts_init_ns.into(),
    ).err().map(|error| error.to_string())
}

/// The execution chain takes the identifiers, the quantity and the price of an
/// order.
pub open spec fn chain_takes(
    trader_id: Seq<char>,
    req: LimitOrderRequest,
    client_order_id: Seq<char>,
) -> bool {
    &&& is_trader_id(trader_id)
    &&& is_strategy_id(req.strategy_id@)
    &&& is_instrument_id(req.instrument_id@)
    &&& is_identifier(client_order_id)
    &&& canonical_quantity(req.quantity@) is Some
    &&& canonical_price(req.price@) is Some
}

/// Why no order is constructed from a request; `None` if it is.
pub open spec fn order_refusal(
    trader_id: Seq<char>,
    req: LimitOrderRequest,
    client_order_id: Seq<char>,
) -> Option<Seq<char>> {
    if chain_takes(trader_id, req, client_order_id) {
        construction_refusal(canonical_quantity(req.quantity@)->0, req.time_in_force)
    } else {
        Some("malformed order terms"@)
    }
}

/// Checks that the order of a request can be constructed under an order ID.
pub fn check_limit_order(
    trader_id: &str,
    req: &LimitOrderRequest,
    client_order_id: &str,
    ts_init_ns: u64,
) -> (r: Result<(), BridgeError>)
    ensures
        match order_refusal(trader_id@, *req, client_order_id@) {
            Some(reason) => r matches Err(BridgeError::Order(text)) && text@ == reason,
            None => r is Ok,
        },
{
    let terms = order_terms(
        req.strategy_id.as_str(),
        req.instrument_id.as_str(),
        req.quantity.as_str(),
        req.price.as_str(),
    );
    if terms.is_none() || !takes_trader_id(trader_id) || !is_client_order_id(client_order_id) {
        return Err(BridgeError::Order("malformed order terms".to_owned()));
    }
    let refused = refused_limit_order(
        trader_id,
        req.strategy_id.as_str(),
        req.instrument_id.as_str(),
        client_order_id,
        req.side,
        req.quantity.as_str(),
        req.price.as_str(),
        req.time_in_force,
        req.post_only,
        req.reduce_only,
        ts_init_ns,
    );
    match refused {
        Some(reason) => Err(BridgeError::Order(reason)),
        None => Ok(()),
    }
}

/// The execution chain takes every derived order ID.
pub proof fn law_derived_ids_are_taken(journal_epoch: u64, seq: u64)
    ensures
        is_identifier(order_id(journal_epoch, seq)),
{
    reveal_strlit("O-");
    reveal_strlit("-");
    let id = order_id(journal_epoch, seq);
    let epoch = numeral(journal_epoch as nat);
    let tail = padded(seq as nat, 12);
    lemma_numeral(journal_epoch as nat);
    lemma_padded(seq as nat, 12);
    assert(id[0] == 'O' && !is_blank(id[0]));
    assert forall|i: int| 0 <= i < id.len() implies (#[trigger] id[i]) as u32 <= 0x7f by {
        if i >= 2 && i < 2 + epoch.len() {
            assert(id[i] == epoch[i - 2]);
            assert(is_digit(epoch[i - 2]));
        } else if i >= 3 + epoch.len() {
            assert(id[i] == tail[i - 3 - epoch.len()]);
            assert(is_digit(tail[i - 3 - epoch.len()]));
        }
    }
}

} // verus!
