//! Identifiers, quantities and prices in the notation of the execution chain.
//!
//! `nautilus_model` decides which texts it takes, and how it writes a quantity
//! or a price.

use vstd::prelude::*;

verus! {

/// Whether a character is white space.
pub open spec fn is_blank(c: char) -> bool {
    let n = c as u32;
    ||| 0x9 <= n <= 0xd
    ||| n == 0x20
    ||| n == 0x85
    ||| n == 0xa0
    ||| n == 0x1680
    ||| 0x2000 <= n <= 0x200a
    ||| n == 0x2028
    ||| n == 0x2029
    ||| n == 0x202f
    ||| n == 0x205f
    ||| n == 0x3000
}

/// Whether a text is more than white space.
pub open spec fn is_written(s: Seq<char>) -> bool {
    exists|i: int| 0 <= i < s.len() && !is_blank(#[trigger] s[i])
}

/// Whether a text is an identifier: ASCII, and more than white space.
pub open spec fn is_identifier(s: Seq<char>) -> bool {
    &&& is_written(s)
    &&& forall|i: int| 0 <= i < s.len() ==> (#[trigger] s[i]) as u32 <= 0x7f
}

/// Whether a text has something before and something after its last hyphen.
pub open spec fn is_tagged(s: Seq<char>) -> bool {
    exists|k: int|
        0 < k < s.len() - 1 && #[trigger] s[k] == '-' && !s.skip(k + 1).contains('-')
}

/// Whether a text is a trader ID: an identifier with something before and
/// something after its last hyphen.
pub open spec fn is_trader_id(s: Seq<char>) -> bool {
    is_identifier(s) && is_tagged(s)
}

/// Whether a text is a strategy ID: an identifier with something before and
/// something after its last hyphen, or `EXTERNAL`.
pub open spec fn is_strategy_id(s: Seq<char>) -> bool {
    is_identifier(s) && (s == "EXTERNAL"@ || is_tagged(s))
}

/// Whether a text is an instrument ID: a symbol that is more than white space
/// before the last point, and an identifier of the venue after it.
pub open spec fn is_instrument_id(s: Seq<char>) -> bool {
    exists|k: int|
        0 <= k < s.len() && #[trigger] s[k] == '.' && !s.skip(k + 1).contains('.') && is_written(
            s.take(k),
        ) && is_identifier(s.skip(k + 1))
}

/// What `nautilus_model::types::Quantity` writes for the quantity that it reads
/// from a text; `None` if it reads none.
pub uninterp spec fn canonical_quantity(text: Seq<char>) -> Option<Seq<char>>;

/// What `nautilus_model::types::Price` writes for the price that it reads from a
/// text; `None` if it reads none.
pub uninterp spec fn canonical_price(text: Seq<char>) -> Option<Seq<char>>;

/// `ClientOrderId::new_checked` of `nautilus_model`: takes identifiers, and no
/// other text.
#[verifier::external_body]
fn accepts_client_order_id(text: &str) -> (r: bool)
    ensures
        r == is_identifier(text@),
{
    nautilus_model::identifiers::ClientOrderId::new_checked(text).is_ok()
}

/// `TraderId::new_checked` of `nautilus_model`: takes trader IDs, and no other
/// text.
#[verifier::external_body]
fn accepts_trader_id(text: &str) -> (r: bool)
    ensures
        r == is_trader_id(text@),
{
    nautilus_model::identifiers::TraderId::new_checked(text).is_ok()
}

/// `StrategyId::new_checked` of `nautilus_model`: takes strategy IDs, and no
/// other text.
#[verifier::external_body]
fn accepts_strategy_id(text: &str) -> (r: bool)
    ensures
        r == is_strategy_id(text@),
{
    nautilus_model::identifiers::StrategyId::new_checked(text).is_ok()
}

/// `InstrumentId::from_str` of `nautilus_model`, without its `defi` feature: takes
/// instrument IDs, and no other text.
#[verifier::external_body]
fn accepts_instrument_id(text: &str) -> (r: bool)
    ensures
        r == is_instrument_id(text@),
{
    <nautilus_model::identifiers::InstrumentId as std::str::FromStr>::from_str(text).is_ok()
}

/// `from_str` and `to_string` of `nautilus_model::types::Quantity`: the quantity
/// that a text denotes, in the notation of the execution chain.
#[verifier::external_body]
fn read_quantity(text: &str) -> (r: Option<String>)
    ensures
        match r {
            Some(written) => canonical_quantity(text@) == Some(written@),
            None => canonical_quantity(text@) is None,
        },
{
    match <nautilus_model::types::Quantity as std::str::FromStr>::from_str(text) {
        Ok(quantity) => Some(quantity.to_string()),
        Err(_) => None,
    }
}

/// `from_str` and `to_string` of `nautilus_model::types::Price`: the price that a
/// text denotes, in the notation of the execution chain.
#[verifier::external_body]
fn read_price(text: &str) -> (r: Option<String>)
    ensures
        match r {
            Some(written) => canonical_price(text@) == Some(written@),
            None => canonical_price(text@) is None,
        },
{
    match <nautilus_model::types::Price as std::str::FromStr>::from_str(text) {
        Ok(price) => Some(price.to_string()),
        Err(_) => None,
    }
}

/// Whether the execution chain takes a text as a client order ID.
pub fn is_client_order_id(text: &str) -> (r: bool)
    ensures
        r == is_identifier(text@),
{
    accepts_client_order_id(text)
}

/// Whether the execution chain takes a text as a trader ID.
pub fn takes_trader_id(text: &str) -> (r: bool)
    ensures
        r == is_trader_id(text@),
{
    accepts_trader_id(text)
}

/// The part of an order that the execution chain has a notation for.
#[derive(Debug)]
pub struct OrderTerms {
    pub strategy_id: String,
    pub instrument_id: String,
    pub quantity: String,
    pub price: String,
}

/// The terms of an order in the notation of the execution chain; `None` if it
/// does not take one of them.
pub fn order_terms(strategy_id: &str, instrument_id: &str, quantity: &str, price: &str) -> (r:
    Option<OrderTerms>)
    ensures
        match r {
            Some(terms) => {
                &&& is_strategy_id(strategy_id@)
                &&& is_instrument_id(instrument_id@)
                &&& terms.strategy_id@ == strategy_id@
                &&& terms.instrument_id@ == instrument_id@
                &&& canonical_quantity(quantity@) == Some(terms.quantity@)
                &&& canonical_price(price@) == Some(terms.price@)
            },
            None => !is_strategy_id(strategy_id@) || !is_instrument_id(instrument_id@)
                || canonical_quantity(quantity@) is None || canonical_price(price@) is None,
        },
{
    if !accepts_strategy_id(strategy_id) || !accepts_instrument_id(instrument_id) {
        return None;
    }
    match (read_quantity(quantity), read_price(price)) {
        (Some(quantity), Some(price)) => Some(
            OrderTerms {
                strategy_id: strategy_id.to_owned(),
                instrument_id: instrument_id.to_owned(),
                quantity,
                price,
            },
        ),
        _ => None,
    }
}

} // verus!
