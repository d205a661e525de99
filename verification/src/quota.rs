//! Submitter quota ledger with account aggregation.
//!
//! - a buy budget per strategy;
//! - an account-level total budget across all strategies;
//! - a sellable-quantity ledger per (strategy, instrument), so that sells
//!   reserve holdings instead of cash.
//!
//! All amounts are exact decimals. A reservation is checked and held in one
//! step under `&mut self`, so that requests for one remaining budget resolve
//! strictly one after the other.

use vstd::prelude::*;

use crate::amount::{
    amount_text, at_least_zero, common_scale, difference, exact_at, fits, lemma_fits_below, lemma_sign,
    lemma_zero, max_amount, sum, zero_amount, Amount, MAX_SCALE,
};
use crate::table::{
    amount_at, keys_unique, lemma_place, lemma_stored, place, stored, Key, Table,
};
use crate::text::{join2, join3, numeral, same, u64_text, views};

verus! {

/// A unique tentative reservation token.
#[derive(Debug, Clone, Copy, PartialEq, Eq, Hash, Structural)]
pub struct TentativeId(u64);

impl TentativeId {
    /// The number of the token.
    pub closed spec fn value(self) -> u64 {
        self.0
    }
}

/// Why a reservation was refused.
#[derive(Debug, Clone, PartialEq, Eq)]
pub enum QuotaError {
    /// The strategy's remaining budget cannot cover the request
    /// ([`QuotaLedger::try_tentative`]).
    InsufficientBudget {
        /// Strategy whose budget was exceeded.
        strategy_id: String,
        /// Notional the request wanted to reserve.
        requested: Amount,
        /// Notional still available including tentative holds.
        available: Amount,
    },
    /// The strategy's remaining budget cannot cover the request
    /// ([`QuotaLedger::try_tentative_buy`]).
    StrategyBudget {
        /// Strategy whose budget was exceeded.
        strategy_id: String,
        /// Notional the request wanted to reserve.
        requested: Amount,
        /// Notional still available including tentative holds.
        available: Amount,
    },
    /// The account-level total across all strategies is exhausted.
    AccountBudget {
        /// Notional the request wanted to reserve.
        requested: Amount,
        /// Account notional still available.
        available: Amount,
    },
    /// The strategy holds insufficient sellable quantity.
    SellableQuantity {
        /// Strategy attempting the sale.
        strategy_id: String,
        /// Instrument of the sale.
        instrument_id: String,
        /// Quantity the request wanted to sell.
        requested: Amount,
        /// Sellable quantity still available.
        available: Amount,
    },
    /// A tentative reservation token was not found at commit/release time.
    UnknownTentative(TentativeId),
}

impl QuotaError {
    /// What the error says.
    pub open spec fn text(&self) -> Seq<char> {
        match *self {
            QuotaError::InsufficientBudget { strategy_id, requested, available } =>
                "strategy budget for "@ + strategy_id@ + shortfall(requested, available),
            QuotaError::StrategyBudget { strategy_id, requested, available } =>
                "strategy budget for "@ + strategy_id@ + shortfall(requested, available),
            QuotaError::AccountBudget { requested, available } => "account budget"@ + shortfall(
                requested,
                available,
            ),
            QuotaError::SellableQuantity { strategy_id, instrument_id, requested, available } =>
                "sellable quantity for "@ + strategy_id@ + " on "@ + instrument_id@ + shortfall(
                requested,
                available,
            ),
            QuotaError::UnknownTentative(id) => "unknown tentative reservation "@ + numeral(
                id.value() as nat,
            ),
        }
    }

    /// The error as text.
    pub fn message(&self) -> (r: String)
        ensures
            r@ == self.text(),
    {
        match self {
            QuotaError::InsufficientBudget { strategy_id, requested, available } => join3(
                "strategy budget for ",
                strategy_id.as_str(),
                shortfall_text(*requested, *available).as_str(),
            ),
            QuotaError::StrategyBudget { strategy_id, requested, available } => join3(
                "strategy budget for ",
                strategy_id.as_str(),
                shortfall_text(*requested, *available).as_str(),
            ),
            QuotaError::AccountBudget { requested, available } => join2(
                "account budget",
                shortfall_text(*requested, *available).as_str(),
            ),
            QuotaError::SellableQuantity { strategy_id, instrument_id, requested, available } => {
                let head = join3("sellable quantity for ", strategy_id.as_str(), " on ");
                join3(
                    head.as_str(),
                    instrument_id.as_str(),
                    shortfall_text(*requested, *available).as_str(),
                )
            },
            QuotaError::UnknownTentative(id) => join2(
                "unknown tentative reservation ",
                u64_text(id.0).as_str(),
            ),
        }
    }
}

/// How a refusal puts what was requested beside what is available.
pub open spec fn shortfall(requested: Amount, available: Amount) -> Seq<char> {
    ": requested "@ + amount_text(requested) + ", available "@ + amount_text(available)
}

fn shortfall_text(requested: Amount, available: Amount) -> (r: String)
    ensures
        r@ == shortfall(requested, available),
{
    let head = join3(": requested ", requested.to_text().as_str(), ", available ");
    join2(head.as_str(), available.to_text().as_str())
}

/// One hold, tentative until it is committed.
#[derive(Debug)]
enum Hold {
    /// Buy notional held against a strategy (and the account total).
    BuyNotional { strategy_id: String, notional: Amount },
    /// Sell quantity held against a strategy's holdings.
    SellQuantity { strategy_id: String, instrument_id: String, quantity: Amount },
}

/// What a hold reserves.
pub enum HoldView {
    /// Buy notional of a strategy.
    BuyNotional { strategy_id: Seq<char>, notional: Amount },
    /// A quantity out of a strategy's holdings of an instrument.
    SellQuantity { strategy_id: Seq<char>, instrument_id: Seq<char>, quantity: Amount },
}

impl View for Hold {
    type V = HoldView;

    closed spec fn view(&self) -> HoldView {
        match *self {
            Hold::BuyNotional { strategy_id, notional } => HoldView::BuyNotional {
                strategy_id: strategy_id@,
                notional,
            },
            Hold::SellQuantity { strategy_id, instrument_id, quantity } => HoldView::SellQuantity {
                strategy_id: strategy_id@,
                instrument_id: instrument_id@,
                quantity,
            },
        }
    }
}

// ---------------------------------------------------------------------------
// Model
// ---------------------------------------------------------------------------

/// The key of a strategy.
pub open spec fn strategy_key(strategy_id: Seq<char>) -> Key {
    seq![strategy_id]
}

/// The key of a strategy's holdings of an instrument.
pub open spec fn holding_key(strategy_id: Seq<char>, instrument_id: Seq<char>) -> Key {
    seq![strategy_id, instrument_id]
}

/// What a hold counts in a total.
pub enum Count {
    /// The buy notional of one strategy.
    Strategy(Seq<char>),
    /// The buy notional of all strategies.
    Account,
    /// The sell quantity of one strategy on one instrument.
    Holding(Seq<char>, Seq<char>),
}

/// The part of a hold that `count` adds up.
pub open spec fn counted(hold: HoldView, count: Count) -> Amount {
    match (hold, count) {
        (HoldView::BuyNotional { strategy_id, notional }, Count::Strategy(s)) => if strategy_id
            == s {
            notional
        } else {
            zero_amount()
        },
        (HoldView::BuyNotional { strategy_id, notional }, Count::Account) => notional,
        (
            HoldView::SellQuantity { strategy_id, instrument_id, quantity },
            Count::Holding(s, i),
        ) => if strategy_id == s && instrument_id == i {
            quantity
        } else {
            zero_amount()
        },
        _ => zero_amount(),
    }
}

/// The parts of all holds that `count` adds up.
pub open spec fn parts(holds: Seq<(u64, HoldView)>, count: Count) -> Seq<Amount> {
    holds.map_values(|h: (u64, HoldView)| counted(h.1, count))
}

/// The amounts of all rows.
pub open spec fn amounts(rows: Seq<(Key, Amount)>) -> Seq<Amount> {
    rows.map_values(|row: (Key, Amount)| row.1)
}

/// The amounts added up one after the other, starting at zero; `None` if a sum
/// on the way is out of range.
pub open spec fn added_up(list: Seq<Amount>) -> Option<Amount>
    decreases list.len(),
{
    if list.len() == 0 {
        Some(zero_amount())
    } else {
        match added_up(list.drop_last()) {
            Some(so_far) => sum(so_far, list.last()),
            None => None,
        }
    }
}

/// `base` less the two amounts, and not below zero; `None` if a difference is
/// out of range.
pub open spec fn left_over(base: Amount, first: Amount, second: Option<Amount>) -> Option<Amount> {
    match second {
        Some(second) => match difference(base, first) {
            Some(rest) => match difference(rest, second) {
                Some(rest) => Some(at_least_zero(rest)),
                None => None,
            },
            None => None,
        },
        None => None,
    }
}

/// The exact sum of the values.
pub open spec fn net(list: Seq<Amount>) -> int
    decreases list.len(),
{
    if list.len() == 0 {
        0
    } else {
        net(list.drop_last()) + list.last().units()
    }
}

/// The magnitude of a value.
pub open spec fn magnitude(units: int) -> int {
    if units < 0 {
        -units
    } else {
        units
    }
}

/// The exact sum of the magnitudes.
pub open spec fn gross(list: Seq<Amount>) -> int
    decreases list.len(),
{
    if list.len() == 0 {
        0
    } else {
        gross(list.drop_last()) + magnitude(list.last().units())
    }
}

/// The amounts have at most `scale` decimal places, and with their magnitudes
/// added to `room` they fit at that scale: sums and differences of them are
/// then exact.
pub open spec fn commensurate(list: Seq<Amount>, room: int, scale: nat) -> bool {
    &&& scale <= MAX_SCALE
    &&& 0 <= room
    &&& forall|i: int| 0 <= i < list.len() ==> (#[trigger] list[i]).scale() <= scale
    &&& fits(gross(list) + room, scale)
}

/// What is decided on a request for a hold.
pub enum Decision {
    /// Refused: the strategy has only this much left.
    OverStrategy(Amount),
    /// Refused: the account has only this much left.
    OverAccount(Amount),
    /// Refused: the strategy's holdings have only this much left.
    OverHoldings(Amount),
    /// Granted.
    Held,
}

impl Decision {
    /// What a refusal says; `None` of a grant.
    pub open spec fn refusal(
        self,
        strategy_id: Seq<char>,
        instrument_id: Seq<char>,
        requested: Amount,
    ) -> Option<Seq<char>> {
        match self {
            Decision::OverStrategy(available) => Some(
                "strategy budget for "@ + strategy_id + shortfall(requested, available),
            ),
            Decision::OverAccount(available) => Some(
                "account budget"@ + shortfall(requested, available),
            ),
            Decision::OverHoldings(available) => Some(
                "sellable quantity for "@ + strategy_id + " on "@ + instrument_id + shortfall(
                    requested,
                    available,
                ),
            ),
            Decision::Held => None,
        }
    }
}

/// The state of a ledger.
#[verifier::ext_equal]
pub struct LedgerView {
    /// Buy budgets by strategy.
    pub budgets: Seq<(Key, Amount)>,
    /// Account-wide buy-notional cap.
    pub account_budget: Amount,
    /// Confirmed buy reservations by strategy.
    pub committed_buy: Seq<(Key, Amount)>,
    /// Confirmed sell reservations by strategy and instrument.
    pub committed_sell: Seq<(Key, Amount)>,
    /// Holdings by strategy and instrument.
    pub positions: Seq<(Key, Amount)>,
    /// Holds that await their commit or release, with their tokens.
    pub tentative: Seq<(u64, HoldView)>,
    /// The number of the last token.
    pub issued: u64,
}

/// The place of a token among the holds; their number if it is not there.
pub open spec fn hold_place(holds: Seq<(u64, HoldView)>, id: u64) -> nat
    decreases holds.len(),
{
    if holds.len() == 0 {
        0
    } else if holds[0].0 == id {
        0
    } else {
        1 + hold_place(holds.drop_first(), id)
    }
}

impl LedgerView {
    /// A ledger without budgets, holdings and holds; the account is not capped.
    pub open spec fn empty() -> LedgerView {
        LedgerView {
            budgets: Seq::empty(),
            account_budget: max_amount(),
            committed_buy: Seq::empty(),
            committed_sell: Seq::empty(),
            positions: Seq::empty(),
            tentative: Seq::empty(),
            issued: 0,
        }
    }

    /// Tokens ascend and none is above the last one issued; no key has two rows.
    pub open spec fn valid(self) -> bool {
        &&& forall|i: int, j: int|
            0 <= i < j < self.tentative.len() ==> (#[trigger] self.tentative[i]).0 < (
            #[trigger] self.tentative[j]).0
        &&& forall|i: int|
            0 <= i < self.tentative.len() ==> 0 < (#[trigger] self.tentative[i]).0 <= self.issued
        &&& keys_unique(self.budgets)
        &&& keys_unique(self.committed_buy)
        &&& keys_unique(self.committed_sell)
        &&& keys_unique(self.positions)
    }

    /// Buy notional that a strategy has left; `None` if it is out of range.
    pub open spec fn available(self, strategy_id: Seq<char>) -> Option<Amount> {
        left_over(
            amount_at(self.budgets, strategy_key(strategy_id)),
            amount_at(self.committed_buy, strategy_key(strategy_id)),
            added_up(parts(self.tentative, Count::Strategy(strategy_id))),
        )
    }

    /// Buy notional that the account has left; `None` if it is out of range.
    pub open spec fn account_available(self) -> Option<Amount> {
        match added_up(amounts(self.committed_buy)) {
            Some(committed) => left_over(
                self.account_budget,
                committed,
                added_up(parts(self.tentative, Count::Account)),
            ),
            None => None,
        }
    }

    /// Quantity that a strategy can still sell; `None` if it is out of range.
    pub open spec fn sellable(self, strategy_id: Seq<char>, instrument_id: Seq<char>) -> Option<
        Amount,
    > {
        left_over(
            amount_at(self.positions, holding_key(strategy_id, instrument_id)),
            amount_at(self.committed_sell, holding_key(strategy_id, instrument_id)),
            added_up(parts(self.tentative, Count::Holding(strategy_id, instrument_id))),
        )
    }

    /// The ledger with one more hold, under the next token.
    pub open spec fn with_hold(self, hold: HoldView) -> LedgerView {
        LedgerView {
            tentative: self.tentative.push(((self.issued + 1) as u64, hold)),
            issued: (self.issued + 1) as u64,
            ..self
        }
    }

    /// Whether a hold has the token.
    pub open spec fn holds(self, id: u64) -> bool {
        hold_place(self.tentative, id) < self.tentative.len()
    }

    /// The hold of a token.
    pub open spec fn hold(self, id: u64) -> HoldView {
        self.tentative[hold_place(self.tentative, id) as int].1
    }

    /// The ledger without the hold of a token.
    pub open spec fn without_hold(self, id: u64) -> LedgerView {
        LedgerView { tentative: self.tentative.remove(hold_place(self.tentative, id) as int), ..self }
    }

    /// The ledger after the hold of a token became a confirmed reservation;
    /// `None` if the confirmed amount is out of range.
    pub open spec fn with_commit(self, id: u64) -> Option<LedgerView> {
        match self.hold(id) {
            HoldView::BuyNotional { strategy_id, notional } => {
                let key = strategy_key(strategy_id);
                match sum(amount_at(self.committed_buy, key), notional) {
                    Some(total) => Some(
                        LedgerView {
                            committed_buy: stored(self.committed_buy, key, total),
                            ..self.without_hold(id)
                        },
                    ),
                    None => None,
                }
            },
            HoldView::SellQuantity { strategy_id, instrument_id, quantity } => {
                let key = holding_key(strategy_id, instrument_id);
                match sum(amount_at(self.committed_sell, key), quantity) {
                    Some(total) => Some(
                        LedgerView {
                            committed_sell: stored(self.committed_sell, key, total),
                            ..self.without_hold(id)
                        },
                    ),
                    None => None,
                }
            },
        }
    }

    /// The ledger with `quantity` added to a strategy's holdings; `None` if the
    /// sum is out of range.
    pub open spec fn with_position(
        self,
        strategy_id: Seq<char>,
        instrument_id: Seq<char>,
        quantity: Amount,
    ) -> Option<LedgerView> {
        let key = holding_key(strategy_id, instrument_id);
        match sum(amount_at(self.positions, key), quantity) {
            Some(total) => Some(
                LedgerView { positions: stored(self.positions, key, total), ..self },
            ),
            None => None,
        }
    }

    /// The ledger after `amount` of a strategy's confirmed notional was given
    /// back, down to zero at most; `None` if the difference is out of range.
    pub open spec fn with_release(self, strategy_id: Seq<char>, amount: Amount) -> Option<
        LedgerView,
    > {
        let key = strategy_key(strategy_id);
        if place(self.committed_buy, key) < self.committed_buy.len() {
            match difference(amount_at(self.committed_buy, key), amount) {
                Some(rest) => Some(
                    LedgerView {
                        committed_buy: stored(self.committed_buy, key, at_least_zero(rest)),
                        ..self
                    },
                ),
                None => None,
            }
        } else {
            Some(self)
        }
    }

    /// What is decided on a request for buy notional: the strategy's budget is
    /// asked first, then that of the account. `None` if an availability is out
    /// of range or the tokens are used up.
    pub open spec fn buy_decision(self, strategy_id: Seq<char>, notional: Amount) -> Option<
        Decision,
    > {
        match self.available(strategy_id) {
            Some(available) => if notional.units() > available.units() {
                Some(Decision::OverStrategy(available))
            } else {
                match self.account_available() {
                    Some(available) => if notional.units() > available.units() {
                        Some(Decision::OverAccount(available))
                    } else if self.issued < u64::MAX {
                        Some(Decision::Held)
                    } else {
                        None
                    },
                    None => None,
                }
            },
            None => None,
        }
    }

    /// What is decided on a request for sellable quantity.
    pub open spec fn sell_decision(
        self,
        strategy_id: Seq<char>,
        instrument_id: Seq<char>,
        quantity: Amount,
    ) -> Option<Decision> {
        match self.sellable(strategy_id, instrument_id) {
            Some(available) => if quantity.units() > available.units() {
                Some(Decision::OverHoldings(available))
            } else if self.issued < u64::MAX {
                Some(Decision::Held)
            } else {
                None
            },
            None => None,
        }
    }

    /// The sum by which a commit confirms the hold of a token is exact.
    pub open spec fn commit_exact(self, id: u64) -> bool {
        match self.hold(id) {
            HoldView::BuyNotional { strategy_id, notional } => exact_sum(
                amount_at(self.committed_buy, strategy_key(strategy_id)),
                notional,
            ),
            HoldView::SellQuantity { strategy_id, instrument_id, quantity } => exact_sum(
                amount_at(self.committed_sell, holding_key(strategy_id, instrument_id)),
                quantity,
            ),
        }
    }

    /// The difference by which confirmed notional is given back is exact.
    pub open spec fn release_exact(self, strategy_id: Seq<char>, amount: Amount) -> bool {
        exact_difference(amount_at(self.committed_buy, strategy_key(strategy_id)), amount)
    }

    /// Both the strategy's budget and the account's have `units` left.
    pub open spec fn covers(self, strategy_id: Seq<char>, units: int) -> bool {
        &&& units <= floored(self.headroom(strategy_id))
        &&& units <= floored(self.account_headroom())
    }

    /// What a strategy has left of its budget, exactly; below zero when more is
    /// reserved than the budget allows.
    pub open spec fn headroom(self, strategy_id: Seq<char>) -> int {
        amount_at(self.budgets, strategy_key(strategy_id)).units() - amount_at(
            self.committed_buy,
            strategy_key(strategy_id),
        ).units() - net(parts(self.tentative, Count::Strategy(strategy_id)))
    }

    /// What the account has left of its budget, exactly.
    pub open spec fn account_headroom(self) -> int {
        self.account_budget.units() - net(amounts(self.committed_buy)) - net(
            parts(self.tentative, Count::Account),
        )
    }

    /// What a strategy has left of its holdings of an instrument, exactly.
    pub open spec fn holding_headroom(self, strategy_id: Seq<char>, instrument_id: Seq<char>) -> int {
        amount_at(self.positions, holding_key(strategy_id, instrument_id)).units() - amount_at(
            self.committed_sell,
            holding_key(strategy_id, instrument_id),
        ).units() - net(parts(self.tentative, Count::Holding(strategy_id, instrument_id)))
    }

    /// The amounts that make up a strategy's availability are commensurate.
    pub open spec fn exact_strategy(self, strategy_id: Seq<char>, scale: nat) -> bool {
        exact_left_over(
            amount_at(self.budgets, strategy_key(strategy_id)),
            amount_at(self.committed_buy, strategy_key(strategy_id)),
            parts(self.tentative, Count::Strategy(strategy_id)),
            scale,
        )
    }

    /// The amounts that make up the account's availability are commensurate.
    pub open spec fn exact_account(self, scale: nat) -> bool {
        &&& self.account_budget.scale() <= scale
        &&& commensurate(amounts(self.committed_buy), 0, scale)
        &&& commensurate(
            parts(self.tentative, Count::Account),
            magnitude(self.account_budget.units()) + gross(amounts(self.committed_buy)),
            scale,
        )
    }

    /// The amounts that make up a strategy's sellable quantity are commensurate.
    pub open spec fn exact_holding(
        self,
        strategy_id: Seq<char>,
        instrument_id: Seq<char>,
        scale: nat,
    ) -> bool {
        exact_left_over(
            amount_at(self.positions, holding_key(strategy_id, instrument_id)),
            amount_at(self.committed_sell, holding_key(strategy_id, instrument_id)),
            parts(self.tentative, Count::Holding(strategy_id, instrument_id)),
            scale,
        )
    }
}

/// A base, an amount off it and a list of further ones are commensurate.
pub open spec fn exact_left_over(base: Amount, first: Amount, list: Seq<Amount>, scale: nat) -> bool {
    &&& base.scale() <= scale
    &&& first.scale() <= scale
    &&& commensurate(list, magnitude(base.units()) + magnitude(first.units()), scale)
}

/// The sum of two amounts is in range and has lost nothing to rounding.
pub open spec fn exact_sum(a: Amount, b: Amount) -> bool {
    sum(a, b) matches Some(total) && total.in_range() && total.units() == a.units() + b.units()
}

/// The difference of two amounts is in range and has lost nothing to rounding.
pub open spec fn exact_difference(a: Amount, b: Amount) -> bool {
    difference(a, b) matches Some(rest) && rest.in_range() && rest.units() == a.units() - b.units()
}

/// A value, or zero if it is below.
pub open spec fn floored(units: int) -> int {
    if units > 0 {
        units
    } else {
        0
    }
}

// ---------------------------------------------------------------------------
// Exactness
// ---------------------------------------------------------------------------

/// Two amounts and a result whose magnitudes are within what fits at `scale`
/// are added and subtracted exactly.
proof fn lemma_exact(a: Amount, b: Amount, result: int, bound: int, scale: nat)
    requires
        scale <= MAX_SCALE,
        a.scale() <= scale,
        b.scale() <= scale,
        fits(bound, scale),
        magnitude(a.units()) <= bound,
        magnitude(b.units()) <= bound,
        magnitude(result) <= bound,
    ensures
        exact_at(result, a, b),
{
    let common = common_scale(a, b);
    assert(fits(a.units(), scale) && fits(b.units(), scale) && fits(result, scale));
    lemma_fits_below(a.units(), common, scale);
    lemma_fits_below(b.units(), common, scale);
    lemma_fits_below(result, common, scale);
}

/// A sum is within the sum of the magnitudes, which grows with the list.
proof fn lemma_gross(list: Seq<Amount>, i: int)
    requires
        0 <= i <= list.len(),
    ensures
        magnitude(net(list.take(i))) <= gross(list.take(i)) <= gross(list),
        0 <= gross(list.take(i)),
    decreases list.len() + i,
{
    if i < list.len() {
        assert(list.drop_last().take(i) =~= list.take(i));
        lemma_gross(list.drop_last(), i);
    } else if i > 0 {
        assert(list.take(i) =~= list);
        assert(list.drop_last().take(i - 1) =~= list.drop_last());
        lemma_gross(list.drop_last(), i - 1);
    }
}

/// Adds the amount at place `i` of `list` to the sum of those before it.
fn add_next(
    so_far: Option<Amount>,
    next: Amount,
    Ghost(list): Ghost<Seq<Amount>>,
    Ghost(i): Ghost<int>,
) -> (r: Option<Amount>)
    requires
        0 <= i < list.len(),
        list[i] == next,
        so_far == added_up(list.take(i)),
        forall|room: int, scale: nat| #[trigger]
            commensurate(list, room, scale) ==> so_far is Some && so_far->0.units() == net(
                list.take(i),
            ) && so_far->0.scale() <= scale,
    ensures
        r == added_up(list.take(i + 1)),
        forall|room: int, scale: nat| #[trigger]
            commensurate(list, room, scale) ==> r is Some && r->0.units() == net(list.take(i + 1))
                && r->0.scale() <= scale,
{
    assert(list.take(i + 1).drop_last() =~= list.take(i));
    assert(list.take(i + 1).last() == next);
    match so_far {
        Some(amount) => {
            let r = amount.checked_add(next);
            assert forall|room: int, scale: nat| #[trigger]
                commensurate(list, room, scale) implies r is Some && r->0.units() == net(
                list.take(i + 1),
            ) && r->0.scale() <= scale by {
                lemma_gross(list, i);
                lemma_gross(list, i + 1);
                lemma_exact(amount, next, net(list.take(i + 1)), gross(list) + room, scale);
            }
            r
        },
        None => None,
    }
}

/// `base` less `first` and the sum `second` of `list`, and not below zero.
fn subtract(
    base: Amount,
    first: Amount,
    second: Option<Amount>,
    Ghost(list): Ghost<Seq<Amount>>,
) -> (r: Option<Amount>)
    requires
        second == added_up(list),
        forall|room: int, scale: nat| #[trigger]
            commensurate(list, room, scale) ==> second is Some && second->0.units() == net(list)
                && second->0.scale() <= scale,
    ensures
        r == left_over(base, first, second),
        forall|scale: nat| #[trigger]
            exact_left_over(base, first, list, scale) ==> r is Some && r->0.units() == floored(
                base.units() - first.units() - net(list),
            ),
{
    match second {
        Some(second) => {
            let once = base.checked_sub(first);
            assert forall|scale: nat| #[trigger]
                exact_left_over(base, first, list, scale) implies once is Some && once->0.units()
                == base.units() - first.units() && once->0.scale() <= scale by {
                lemma_gross(list, 0);
                let bound = gross(list) + magnitude(base.units()) + magnitude(first.units());
                lemma_exact(base, first, base.units() - first.units(), bound, scale);
            }
            match once {
                Some(rest) => {
                    let twice = rest.checked_sub(second);
                    assert forall|scale: nat| #[trigger]
                        exact_left_over(base, first, list, scale) implies twice is Some
                        && twice->0.units() == base.units() - first.units() - net(list) by {
                        lemma_gross(list, list.len() as int);
                        assert(list.take(list.len() as int) =~= list);
                        let room = magnitude(base.units()) + magnitude(first.units());
                        assert(commensurate(list, room, scale));
                        let bound = gross(list) + room;
                        lemma_exact(
                            rest,
                            second,
                            base.units() - first.units() - net(list),
                            bound,
                            scale,
                        );
                    }
                    match twice {
                        Some(rest) => Some(rest.or_zero()),
                        None => None,
                    }
                },
                None => None,
            }
        },
        None => None,
    }
}

/// Adding an amount at the end adds its value.
proof fn lemma_net_push(list: Seq<Amount>, a: Amount)
    ensures
        net(list.push(a)) == net(list) + a.units(),
{
    assert(list.push(a).drop_last() =~= list);
}

/// Taking an amount out takes its value out.
proof fn lemma_net_remove(list: Seq<Amount>, i: int)
    requires
        0 <= i < list.len(),
    ensures
        net(list.remove(i)) == net(list) - list[i].units(),
    decreases list.len(),
{
    if i == list.len() - 1 {
        assert(list.remove(i) =~= list.drop_last());
    } else {
        lemma_net_remove(list.drop_last(), i);
        assert(list.remove(i).drop_last() =~= list.drop_last().remove(i));
        assert(list.remove(i).last() == list.last());
    }
}

/// Replacing an amount replaces its value.
proof fn lemma_net_update(list: Seq<Amount>, i: int, a: Amount)
    requires
        0 <= i < list.len(),
    ensures
        net(list.update(i, a)) == net(list) - list[i].units() + a.units(),
    decreases list.len(),
{
    if i == list.len() - 1 {
        assert(list.update(i, a).drop_last() =~= list.drop_last());
    } else {
        lemma_net_update(list.drop_last(), i, a);
        assert(list.update(i, a).drop_last() =~= list.drop_last().update(i, a));
    }
}

/// Storing an amount under a key moves the total by what the key gained.
proof fn lemma_net_stored(rows: Seq<(Key, Amount)>, key: Key, amount: Amount)
    ensures
        net(amounts(stored(rows, key, amount))) == net(amounts(rows)) - amount_at(rows, key).units()
            + amount.units(),
{
    lemma_place(rows, key);
    lemma_zero();
    let at = place(rows, key) as int;
    if at < rows.len() {
        assert(amounts(stored(rows, key, amount)) =~= amounts(rows).update(at, amount));
        lemma_net_update(amounts(rows), at, amount);
    } else {
        assert(amounts(stored(rows, key, amount)) =~= amounts(rows).push(amount));
        lemma_net_push(amounts(rows), amount);
    }
}

/// The place of a token is that of its first hold.
proof fn lemma_hold_place(holds: Seq<(u64, HoldView)>, id: u64)
    ensures
        hold_place(holds, id) <= holds.len(),
        hold_place(holds, id) < holds.len() ==> holds[hold_place(holds, id) as int].0 == id,
        forall|i: int| 0 <= i < hold_place(holds, id) ==> (#[trigger] holds[i]).0 != id,
    decreases holds.len(),
{
    if holds.len() > 0 && holds[0].0 != id {
        let rest = holds.drop_first();
        lemma_hold_place(rest, id);
        assert forall|i: int| 0 <= i < hold_place(holds, id) implies (#[trigger] holds[i]).0
            != id by {
            if i > 0 {
                assert(rest[i - 1] == holds[i]);
            }
        }
    }
}

/// A hold before which the token does not occur is the place of the token.
proof fn lemma_hold_place_is(holds: Seq<(u64, HoldView)>, id: u64, at: int)
    requires
        0 <= at <= holds.len(),
        at < holds.len() ==> holds[at].0 == id,
        forall|i: int| 0 <= i < at ==> (#[trigger] holds[i]).0 != id,
    ensures
        hold_place(holds, id) == at,
{
    lemma_hold_place(holds, id);
    if hold_place(holds, id) < at {
        assert(holds[hold_place(holds, id) as int].0 != id);
    }
}

// ---------------------------------------------------------------------------
// Laws
// ---------------------------------------------------------------------------

/// A hold takes exactly what it reserves, and from nobody else: buy notional
/// from its strategy and from the account, a sell quantity from the holdings of
/// its strategy on its instrument. Sells reserve holdings, not cash.
pub proof fn law_hold_takes_what_it_reserves(ledger: LedgerView, hold: HoldView)
    ensures
        forall|s: Seq<char>|
            (#[trigger] ledger.with_hold(hold).headroom(s)) == ledger.headroom(s) - counted(
                hold,
                Count::Strategy(s),
            ).units(),
        ledger.with_hold(hold).account_headroom() == ledger.account_headroom() - counted(
            hold,
            Count::Account,
        ).units(),
        forall|s: Seq<char>, i: Seq<char>|
            (#[trigger] ledger.with_hold(hold).holding_headroom(s, i)) == ledger.holding_headroom(
                s,
                i,
            ) - counted(hold, Count::Holding(s, i)).units(),
        hold matches HoldView::SellQuantity { strategy_id, instrument_id, quantity } ==> {
            &&& forall|s: Seq<char>|
                (#[trigger] ledger.with_hold(hold).headroom(s)) == ledger.headroom(s)
            &&& ledger.with_hold(hold).account_headroom() == ledger.account_headroom()
        },
        hold matches HoldView::BuyNotional { strategy_id, notional } ==> forall|
            s: Seq<char>,
            i: Seq<char>,
        |
            (#[trigger] ledger.with_hold(hold).holding_headroom(s, i)) == ledger.holding_headroom(
                s,
                i,
            ),
{
    lemma_zero();
    assert forall|count: Count|
        net(#[trigger] parts(ledger.with_hold(hold).tentative, count)) == net(
            parts(ledger.tentative, count),
        ) + counted(hold, count).units() by {
        assert(parts(ledger.with_hold(hold).tentative, count) =~= parts(
            ledger.tentative,
            count,
        ).push(counted(hold, count)));
        lemma_net_push(parts(ledger.tentative, count), counted(hold, count));
    }
}

/// A hold that was granted never overdraws: a budget, of the strategy or of the
/// account, that covered the hold and was not overdrawn before is not overdrawn
/// afterwards.
pub proof fn law_granted_buy_stays_within_budget(
    ledger: LedgerView,
    strategy_id: Seq<char>,
    notional: Amount,
)
    ensures
        0 <= ledger.headroom(strategy_id) && notional.units() <= floored(
            ledger.headroom(strategy_id),
        ) ==> 0 <= ledger.with_hold(HoldView::BuyNotional { strategy_id, notional }).headroom(
            strategy_id,
        ),
        0 <= ledger.account_headroom() && notional.units() <= floored(ledger.account_headroom())
            ==> 0 <= ledger.with_hold(
            HoldView::BuyNotional { strategy_id, notional },
        ).account_headroom(),
{
    let hold = HoldView::BuyNotional { strategy_id, notional };
    law_hold_takes_what_it_reserves(ledger, hold);
    assert(ledger.with_hold(hold).headroom(strategy_id) == ledger.headroom(strategy_id)
        - counted(hold, Count::Strategy(strategy_id)).units());
}

/// Of two requests that one remaining budget covers one at a time but not
/// together, the later is over the strategy's budget while the hold of the
/// earlier stands.
pub proof fn law_competing_buys_admit_one(
    ledger: LedgerView,
    strategy_id: Seq<char>,
    first: Amount,
    second: Amount,
)
    requires
        0 <= ledger.headroom(strategy_id),
        first.units() <= ledger.headroom(strategy_id),
        first.units() + second.units() > ledger.headroom(strategy_id),
    ensures
        second.units() > floored(
            ledger.with_hold(HoldView::BuyNotional { strategy_id, notional: first }).headroom(
                strategy_id,
            ),
        ),
{
    let hold = HoldView::BuyNotional { strategy_id, notional: first };
    law_hold_takes_what_it_reserves(ledger, hold);
    assert(ledger.with_hold(hold).headroom(strategy_id) == ledger.headroom(strategy_id)
        - counted(hold, Count::Strategy(strategy_id)).units());
}

/// A sale that was granted never oversells: holdings that covered it and were not
/// oversold before are not oversold afterwards.
pub proof fn law_granted_sell_stays_within_holdings(
    ledger: LedgerView,
    strategy_id: Seq<char>,
    instrument_id: Seq<char>,
    quantity: Amount,
)
    requires
        0 <= ledger.holding_headroom(strategy_id, instrument_id),
        quantity.units() <= floored(ledger.holding_headroom(strategy_id, instrument_id)),
    ensures
        0 <= ledger.with_hold(
            HoldView::SellQuantity { strategy_id, instrument_id, quantity },
        ).holding_headroom(strategy_id, instrument_id),
{
    let hold = HoldView::SellQuantity { strategy_id, instrument_id, quantity };
    law_hold_takes_what_it_reserves(ledger, hold);
    assert(ledger.with_hold(hold).holding_headroom(strategy_id, instrument_id)
        == ledger.holding_headroom(strategy_id, instrument_id) - counted(
        hold,
        Count::Holding(strategy_id, instrument_id),
    ).units());
}

/// The account's total binds all strategies: notional held for one strategy is
/// not left to another, whatever that one's own budget is.
pub proof fn law_account_total_binds_all_strategies(
    ledger: LedgerView,
    strategy_id: Seq<char>,
    other_id: Seq<char>,
    first: Amount,
    second: Amount,
)
    requires
        0 <= ledger.account_headroom(),
        first.units() <= ledger.account_headroom(),
        first.units() + second.units() > ledger.account_headroom(),
    ensures
        second.units() > floored(
            ledger.with_hold(
                HoldView::BuyNotional { strategy_id, notional: first },
            ).account_headroom(),
        ),
        !ledger.with_hold(HoldView::BuyNotional { strategy_id, notional: first }).covers(
            other_id,
            second.units(),
        ),
{
    law_hold_takes_what_it_reserves(
        ledger,
        HoldView::BuyNotional { strategy_id, notional: first },
    );
}

/// Releasing a hold undoes it: apart from the token that was used up, the
/// ledger is as it was before the hold.
pub proof fn law_release_undoes_hold(ledger: LedgerView, hold: HoldView)
    requires
        ledger.valid(),
        ledger.issued < u64::MAX,
    ensures
        ({
            let id = (ledger.issued + 1) as u64;
            let held = ledger.with_hold(hold);
            &&& held.holds(id)
            &&& held.hold(id) == hold
            &&& held.without_hold(id) == (LedgerView { issued: id, ..ledger })
        }),
{
    let id = (ledger.issued + 1) as u64;
    let held = ledger.with_hold(hold);
    let at = ledger.tentative.len() as int;
    assert forall|i: int| 0 <= i < at implies (#[trigger] held.tentative[i]).0 != id by {
        assert(held.tentative[i] == ledger.tentative[i]);
    }
    lemma_hold_place_is(held.tentative, id, at);
    assert(held.without_hold(id) =~= (LedgerView { issued: id, ..ledger }));
}

/// A token is good once: when its hold has been committed or released, no hold
/// has it, and no later hold gets it.
pub proof fn law_token_is_good_once(ledger: LedgerView, id: u64)
    requires
        ledger.valid(),
        ledger.holds(id),
    ensures
        !ledger.without_hold(id).holds(id),
        ledger.with_commit(id) is Some ==> !ledger.with_commit(id)->0.holds(id),
        forall|hold: HoldView|
            ledger.issued < u64::MAX ==> (#[trigger] ledger.with_hold(hold)).issued != id,
{
    lemma_hold_place(ledger.tentative, id);
    let at = hold_place(ledger.tentative, id) as int;
    let after = ledger.tentative.remove(at);
    assert forall|i: int| 0 <= i < after.len() implies (#[trigger] after[i]).0 != id by {
        assert(after[i] == ledger.tentative[if i < at { i } else { i + 1 }]);
    }
    lemma_hold_place_is(after, id, after.len() as int);
}

/// Every operation keeps the ledger valid.
pub proof fn law_operations_keep_validity(
    ledger: LedgerView,
    hold: HoldView,
    id: u64,
    key: Key,
    amount: Amount,
)
    requires
        ledger.valid(),
    ensures
        ledger.issued < u64::MAX ==> ledger.with_hold(hold).valid(),
        ledger.holds(id) ==> ledger.without_hold(id).valid(),
        ledger.holds(id) && ledger.with_commit(id) is Some ==> ledger.with_commit(id)->0.valid(),
        (LedgerView { budgets: stored(ledger.budgets, key, amount), ..ledger }).valid(),
        (LedgerView { positions: stored(ledger.positions, key, amount), ..ledger }).valid(),
        (LedgerView { committed_buy: stored(ledger.committed_buy, key, amount), ..ledger }).valid(),
{
    lemma_stored(ledger.budgets, key, amount);
    lemma_stored(ledger.positions, key, amount);
    lemma_stored(ledger.committed_buy, key, amount);
    if ledger.issued < u64::MAX {
        let held = ledger.with_hold(hold);
        assert forall|i: int| 0 <= i < held.tentative.len() implies 0 < (
        #[trigger] held.tentative[i]).0 <= held.issued by {
            if i < ledger.tentative.len() {
                assert(held.tentative[i] == ledger.tentative[i]);
            }
        }
        assert forall|i: int, j: int| 0 <= i < j < held.tentative.len() implies (
        #[trigger] held.tentative[i]).0 < (#[trigger] held.tentative[j]).0 by {
            assert(held.tentative[i] == ledger.tentative[i]);
            if j < ledger.tentative.len() {
                assert(held.tentative[j] == ledger.tentative[j]);
            }
        }
    }
    if ledger.holds(id) {
        let at = hold_place(ledger.tentative, id) as int;
        let rest = ledger.without_hold(id);
        let from = |i: int| if i < at { i } else { i + 1 };
        assert forall|i: int| 0 <= i < rest.tentative.len() implies 0 < (
        #[trigger] rest.tentative[i]).0 <= rest.issued by {
            assert(rest.tentative[i] == ledger.tentative[from(i)]);
        }
        assert forall|i: int, j: int| 0 <= i < j < rest.tentative.len() implies (
        #[trigger] rest.tentative[i]).0 < (#[trigger] rest.tentative[j]).0 by {
            assert(rest.tentative[i] == ledger.tentative[from(i)]);
            assert(rest.tentative[j] == ledger.tentative[from(j)]);
        }
        match ledger.hold(id) {
            HoldView::BuyNotional { strategy_id, notional } => {
                let total = sum(
                    amount_at(ledger.committed_buy, strategy_key(strategy_id)),
                    notional,
                );
                lemma_stored(ledger.committed_buy, strategy_key(strategy_id), total->0);
            },
            HoldView::SellQuantity { strategy_id, instrument_id, quantity } => {
                let key = holding_key(strategy_id, instrument_id);
                let total = sum(amount_at(ledger.committed_sell, key), quantity);
                lemma_stored(ledger.committed_sell, key, total->0);
            },
        }
    }
}

/// Committing a hold changes nothing of what is left: what was held is now
/// confirmed.
pub proof fn law_commit_keeps_availability(ledger: LedgerView, id: u64)
    requires
        ledger.holds(id),
        ledger.commit_exact(id),
    ensures
        ledger.with_commit(id) is Some,
        forall|s: Seq<char>|
            (#[trigger] ledger.with_commit(id)->0.headroom(s)) == ledger.headroom(s),
        ledger.with_commit(id)->0.account_headroom() == ledger.account_headroom(),
        forall|s: Seq<char>, i: Seq<char>|
            (#[trigger] ledger.with_commit(id)->0.holding_headroom(s, i))
                == ledger.holding_headroom(s, i),
{
    lemma_zero();
    let after = ledger.with_commit(id)->0;
    let at = hold_place(ledger.tentative, id) as int;
    let hold = ledger.hold(id);
    assert forall|count: Count|
        net(#[trigger] parts(after.tentative, count)) == net(parts(ledger.tentative, count))
            - counted(hold, count).units() by {
        assert(parts(after.tentative, count) =~= parts(ledger.tentative, count).remove(at));
        lemma_net_remove(parts(ledger.tentative, count), at);
    }
    match hold {
        HoldView::BuyNotional { strategy_id, notional } => {
            let key = strategy_key(strategy_id);
            let total = sum(amount_at(ledger.committed_buy, key), notional)->0;
            lemma_stored(ledger.committed_buy, key, total);
            lemma_net_stored(ledger.committed_buy, key, total);
            assert forall|s: Seq<char>|
                (#[trigger] after.headroom(s)) == ledger.headroom(s) by {
                if s != strategy_id {
                    assert(strategy_key(s)[0] != key[0]);
                }
            }
        },
        HoldView::SellQuantity { strategy_id, instrument_id, quantity } => {
            let key = holding_key(strategy_id, instrument_id);
            let total = sum(amount_at(ledger.committed_sell, key), quantity)->0;
            lemma_stored(ledger.committed_sell, key, total);
            assert forall|s: Seq<char>, i: Seq<char>|
                (#[trigger] after.holding_headroom(s, i)) == ledger.holding_headroom(s, i) by {
                if s != strategy_id {
                    assert(holding_key(s, i)[0] != key[0]);
                } else if i != instrument_id {
                    assert(holding_key(s, i)[1] != key[1]);
                }
            }
        },
    }
}

/// Giving confirmed notional back restores it to the strategy and to the
/// account, and moves no other strategy.
pub proof fn law_release_committed_restores(
    ledger: LedgerView,
    strategy_id: Seq<char>,
    amount: Amount,
)
    requires
        ledger.release_exact(strategy_id, amount),
        0 <= amount.units() <= amount_at(ledger.committed_buy, strategy_key(strategy_id)).units(),
    ensures
        ledger.with_release(strategy_id, amount) is Some,
        ledger.with_release(strategy_id, amount)->0.headroom(strategy_id) == ledger.headroom(
            strategy_id,
        ) + amount.units(),
        ledger.with_release(strategy_id, amount)->0.account_headroom() == ledger.account_headroom()
            + amount.units(),
        forall|s: Seq<char>|
            s != strategy_id ==> (#[trigger] ledger.with_release(strategy_id, amount)->0.headroom(
                s,
            )) == ledger.headroom(s),
{
    lemma_zero();
    let key = strategy_key(strategy_id);
    let held = amount_at(ledger.committed_buy, key);
    let after = ledger.with_release(strategy_id, amount)->0;
    if place(ledger.committed_buy, key) < ledger.committed_buy.len() {
        let rest = difference(held, amount)->0;
        lemma_sign(rest);
        lemma_stored(ledger.committed_buy, key, at_least_zero(rest));
        lemma_net_stored(ledger.committed_buy, key, at_least_zero(rest));
        assert forall|s: Seq<char>| s != strategy_id implies (#[trigger] after.headroom(s))
            == ledger.headroom(s) by {
            assert(strategy_key(s)[0] != key[0]);
        }
    }
}

/// The answer to a request for buy notional, and what became of the ledger.
pub open spec fn buy_answered(
    before: LedgerView,
    after: LedgerView,
    strategy_id: Seq<char>,
    notional: Amount,
    answer: Option<Result<TentativeId, QuotaError>>,
) -> bool {
    match (before.buy_decision(strategy_id, notional), answer) {
        (None, None) => after == before,
        (
            Some(Decision::OverStrategy(left)),
            Some(Err(QuotaError::StrategyBudget { strategy_id: id, requested, available })),
        ) => id@ == strategy_id && requested == notional && available == left && after == before,
        (
            Some(Decision::OverAccount(left)),
            Some(Err(QuotaError::AccountBudget { requested, available })),
        ) => requested == notional && available == left && after == before,
        (Some(Decision::Held), Some(Ok(id))) => id.value() == before.issued + 1 && after
            == before.with_hold(HoldView::BuyNotional { strategy_id, notional }),
        _ => false,
    }
}

/// The answer to a request for buy notional that reports a spent strategy
/// budget as insufficient, and what became of the ledger.
pub open spec fn budget_answered(
    before: LedgerView,
    after: LedgerView,
    strategy_id: Seq<char>,
    notional: Amount,
    answer: Option<Result<TentativeId, QuotaError>>,
) -> bool {
    match before.buy_decision(strategy_id, notional) {
        Some(Decision::OverStrategy(left)) => answer matches Some(
            Err(QuotaError::InsufficientBudget { strategy_id: id, requested, available }),
        ) && id@ == strategy_id && requested == notional && available == left && after == before,
        _ => buy_answered(before, after, strategy_id, notional, answer),
    }
}

/// The answer refuses a request for more than the strategy's budget has left.
pub open spec fn over_strategy(answer: Option<Result<TentativeId, QuotaError>>) -> bool {
    match answer {
        Some(Err(QuotaError::StrategyBudget { strategy_id, requested, available })) => true,
        Some(Err(QuotaError::InsufficientBudget { strategy_id, requested, available })) => true,
        _ => false,
    }
}

/// The answer to a request for sellable quantity, and what became of the ledger.
pub open spec fn sell_answered(
    before: LedgerView,
    after: LedgerView,
    strategy_id: Seq<char>,
    instrument_id: Seq<char>,
    quantity: Amount,
    answer: Option<Result<TentativeId, QuotaError>>,
) -> bool {
    match (before.sell_decision(strategy_id, instrument_id, quantity), answer) {
        (None, None) => after == before,
        (
            Some(Decision::OverHoldings(left)),
            Some(
                Err(
                    QuotaError::SellableQuantity {
                        strategy_id: s,
                        instrument_id: i,
                        requested,
                        available,
                    },
                ),
            ),
        ) => s@ == strategy_id && i@ == instrument_id && requested == quantity && available == left
            && after == before,
        (Some(Decision::Held), Some(Ok(id))) => id.value() == before.issued + 1 && after
            == before.with_hold(HoldView::SellQuantity { strategy_id, instrument_id, quantity }),
        _ => false,
    }
}

/// The answer to a commit, and what became of the ledger.
pub open spec fn commit_answered(
    before: LedgerView,
    after: LedgerView,
    id: TentativeId,
    answer: Option<Result<(), QuotaError>>,
) -> bool {
    if before.holds(id.value()) {
        match before.with_commit(id.value()) {
            Some(committed) => answer matches Some(Ok(())) && after == committed,
            None => answer is None && after == before,
        }
    } else {
        answer matches Some(Err(QuotaError::UnknownTentative(unknown))) && unknown == id && after
            == before
    }
}

/// The amounts that a commit adds, and their sum, fit at the larger scale.
pub open spec fn commit_fits(ledger: LedgerView, id: u64) -> bool {
    match ledger.hold(id) {
        HoldView::BuyNotional { strategy_id, notional } => {
            let held = amount_at(ledger.committed_buy, strategy_key(strategy_id));
            exact_at(held.units() + notional.units(), held, notional)
        },
        HoldView::SellQuantity { strategy_id, instrument_id, quantity } => {
            let held = amount_at(ledger.committed_sell, holding_key(strategy_id, instrument_id));
            exact_at(held.units() + quantity.units(), held, quantity)
        },
    }
}

/// The confirmed notional, what is given back of it and the difference fit at
/// the larger scale.
pub open spec fn release_fits(ledger: LedgerView, strategy_id: Seq<char>, amount: Amount) -> bool {
    let held = amount_at(ledger.committed_buy, strategy_key(strategy_id));
    exact_at(held.units() - amount.units(), held, amount)
}

// ---------------------------------------------------------------------------
// Ledger
// ---------------------------------------------------------------------------

fn strategy_key_of(strategy_id: &str) -> (r: Vec<String>)
    ensures
        views(r@) == strategy_key(strategy_id@),
{
    let mut r: Vec<String> = Vec::new();
    r.push(strategy_id.to_owned());
    assert(views(r@) =~= strategy_key(strategy_id@));
    r
}

fn holding_key_of(strategy_id: &str, instrument_id: &str) -> (r: Vec<String>)
    ensures
        views(r@) == holding_key(strategy_id@, instrument_id@),
{
    let mut r: Vec<String> = Vec::new();
    r.push(strategy_id.to_owned());
    r.push(instrument_id.to_owned());
    assert(views(r@) =~= holding_key(strategy_id@, instrument_id@));
    r
}

/// What a total over the holds counts.
enum Tally<'a> {
    Strategy(&'a str),
    Account,
    Holding(&'a str, &'a str),
}

impl<'a> Tally<'a> {
    spec fn count(&self) -> Count {
        match *self {
            Tally::Strategy(s) => Count::Strategy(s@),
            Tally::Account => Count::Account,
            Tally::Holding(s, i) => Count::Holding(s@, i@),
        }
    }
}

impl Hold {
    fn counted(&self, tally: &Tally) -> (r: Amount)
        ensures
            r == counted(self@, tally.count()),
    {
        match (self, tally) {
            (Hold::BuyNotional { strategy_id, notional }, Tally::Strategy(s)) => {
                if same(strategy_id.as_str(), s) {
                    *notional
                } else {
                    Amount::zero()
                }
            },
            (Hold::BuyNotional { strategy_id, notional }, Tally::Account) => *notional,
            (
                Hold::SellQuantity { strategy_id, instrument_id, quantity },
                Tally::Holding(s, i),
            ) => {
                if same(strategy_id.as_str(), s) && same(instrument_id.as_str(), i) {
                    *quantity
                } else {
                    Amount::zero()
                }
            },
            _ => Amount::zero(),
        }
    }
}

/// Per-strategy budgets, account total, and sellable-quantity ledger.
#[derive(Debug)]
pub struct QuotaLedger {
    strategy_budgets: Table,
    account_budget: Amount,
    committed_buy: Table,
    committed_sell: Table,
    positions: Table,
    tentative: Vec<(u64, Hold)>,
    next_tentative: u64,
}

impl View for QuotaLedger {
    type V = LedgerView;

    closed spec fn view(&self) -> LedgerView {
        LedgerView {
            budgets: self.strategy_budgets@,
            account_budget: self.account_budget,
            committed_buy: self.committed_buy@,
            committed_sell: self.committed_sell@,
            positions: self.positions@,
            tentative: self.tentative@.map_values(|h: (u64, Hold)| (h.0, h.1@)),
            issued: self.next_tentative,
        }
    }
}

impl Default for QuotaLedger {
    fn default() -> (r: Self)
        ensures
            r@ == LedgerView::empty(),
            r@.valid(),
    {
        let r = QuotaLedger {
            strategy_budgets: Table::new(),
            account_budget: Amount::max(),
            committed_buy: Table::new(),
            committed_sell: Table::new(),
            positions: Table::new(),
            tentative: Vec::new(),
            next_tentative: 0,
        };
        assert(r@ =~= LedgerView::empty());
        r
    }
}

impl QuotaLedger {
    /// Creates an empty ledger; the account is not capped until a budget is set.
    pub fn new() -> (r: Self)
        ensures
            r@ == LedgerView::empty(),
            r@.valid(),
    {
        QuotaLedger::default()
    }

    /// Sets the buy-notional budget for a strategy.
    pub fn set_budget(&mut self, strategy_id: &str, budget: Amount)
        ensures
            final(self)@ == (LedgerView {
                budgets: stored(old(self)@.budgets, strategy_key(strategy_id@), budget),
                ..old(self)@
            }),
            old(self)@.valid() ==> final(self)@.valid(),
    {
        proof {
            lemma_stored(self@.budgets, strategy_key(strategy_id@), budget);
        }
        self.strategy_budgets.put(strategy_key_of(strategy_id), budget);
    }

    /// Sets the account-wide buy-notional total cap.
    pub fn set_account_budget(&mut self, budget: Amount)
        ensures
            final(self)@ == (LedgerView { account_budget: budget, ..old(self)@ }),
            old(self)@.valid() ==> final(self)@.valid(),
    {
        self.account_budget = budget;
    }

    /// Adds up what `tally` counts of the holds.
    fn held(&self, tally: &Tally) -> (r: Option<Amount>)
        ensures
            r == added_up(parts(self@.tentative, tally.count())),
            forall|room: int, scale: nat| #[trigger]
                commensurate(parts(self@.tentative, tally.count()), room, scale) ==> r is Some
                    && r->0.units() == net(parts(self@.tentative, tally.count()))
                    && r->0.scale() <= scale,
    {
        let ghost list = parts(self@.tentative, tally.count());
        let mut so_far: Option<Amount> = Some(Amount::zero());
        proof {
            lemma_zero();
            assert(list.take(0) =~= Seq::<Amount>::empty());
        }
        let mut i: usize = 0;
        while i < self.tentative.len()
            invariant
                i <= self.tentative@.len(),
                list == parts(self@.tentative, tally.count()),
                list.len() == self.tentative@.len(),
                so_far == added_up(list.take(i as int)),
                forall|room: int, scale: nat| #[trigger]
                    commensurate(list, room, scale) ==> so_far is Some && so_far->0.units() == net(
                        list.take(i as int),
                    ) && so_far->0.scale() <= scale,
            decreases self.tentative.len() - i,
        {
            let next = self.tentative[i].1.counted(tally);
            assert(list[i as int] == next);
            so_far = add_next(so_far, next, Ghost(list), Ghost(i as int));
            i = i + 1;
        }
        assert(list.take(i as int) =~= list);
        so_far
    }

    /// Adds up the confirmed buy notional of all strategies.
    fn committed_total(&self) -> (r: Option<Amount>)
        ensures
            r == added_up(amounts(self@.committed_buy)),
            forall|room: int, scale: nat| #[trigger]
                commensurate(amounts(self@.committed_buy), room, scale) ==> r is Some
                    && r->0.units() == net(amounts(self@.committed_buy)) && r->0.scale() <= scale,
    {
        let ghost list = amounts(self@.committed_buy);
        let mut so_far: Option<Amount> = Some(Amount::zero());
        proof {
            lemma_zero();
            assert(list.take(0) =~= Seq::<Amount>::empty());
        }
        let mut i: usize = 0;
        while i < self.committed_buy.len()
            invariant
                i <= self.committed_buy@.len(),
                list == amounts(self.committed_buy@),
                so_far == added_up(list.take(i as int)),
                forall|room: int, scale: nat| #[trigger]
                    commensurate(list, room, scale) ==> so_far is Some && so_far->0.units() == net(
                        list.take(i as int),
                    ) && so_far->0.scale() <= scale,
            decreases self.committed_buy@.len() - i,
        {
            let next = self.committed_buy.amount(i);
            assert(list[i as int] == next);
            so_far = add_next(so_far, next, Ghost(list), Ghost(i as int));
            i = i + 1;
        }
        assert(list.take(i as int) =~= list);
        so_far
    }

    /// Strategy buy notional still available, counting tentative holds; `None`
    /// if it is out of range.
    pub fn checked_available(&self, strategy_id: &str) -> (r: Option<Amount>)
        ensures
            r == self@.available(strategy_id@),
            forall|scale: nat| #[trigger]
                self@.exact_strategy(strategy_id@, scale) ==> r is Some && r->0.units() == floored(
                    self@.headroom(strategy_id@),
                ),
    {
        let key = strategy_key_of(strategy_id);
        let tally = Tally::Strategy(strategy_id);
        let tentative = self.held(&tally);
        subtract(
            self.strategy_budgets.get(&key),
            self.committed_buy.get(&key),
            tentative,
            Ghost(parts(self@.tentative, tally.count())),
        )
    }

    /// Strategy buy notional still available, counting tentative holds.
    pub fn available(&self, strategy_id: &str) -> (r: Amount)
        requires
            self@.available(strategy_id@) is Some,
        ensures
            Some(r) == self@.available(strategy_id@),
            forall|scale: nat| #[trigger]
                self@.exact_strategy(strategy_id@, scale) ==> r.units() == floored(
                    self@.headroom(strategy_id@),
                ),
    {
        self.checked_available(strategy_id).unwrap()
    }

    /// Account buy notional still available across all strategies; `None` if it
    /// is out of range.
    pub fn checked_account_available(&self) -> (r: Option<Amount>)
        ensures
            r == self@.account_available(),
            forall|scale: nat| #[trigger]
                self@.exact_account(scale) ==> r is Some && r->0.units() == floored(
                    self@.account_headroom(),
                ),
    {
        let ghost list = parts(self@.tentative, Count::Account);
        let ghost rows = amounts(self@.committed_buy);
        match self.committed_total() {
            Some(committed) => {
                let tentative = self.held(&Tally::Account);
                let r = subtract(self.account_budget, committed, tentative, Ghost(list));
                assert forall|scale: nat| #[trigger] self@.exact_account(scale) implies r is Some
                    && r->0.units() == floored(self@.account_headroom()) by {
                    assert(commensurate(rows, 0, scale));
                    lemma_gross(rows, rows.len() as int);
                    assert(rows.take(rows.len() as int) =~= rows);
                    lemma_gross(list, 0);
                    let small = gross(list) + magnitude(self.account_budget.units()) + magnitude(
                        committed.units(),
                    );
                    let large = gross(list) + magnitude(self.account_budget.units()) + gross(rows);
                    assert(0 <= small <= large);
                    assert(exact_left_over(self.account_budget, committed, list, scale));
                }
                r
            },
            None => {
                assert forall|scale: nat| #[trigger] self@.exact_account(scale) implies false by {
                    assert(commensurate(rows, 0, scale));
                }
                None
            },
        }
    }

    /// Account buy notional still available across all strategies.
    pub fn account_available(&self) -> (r: Amount)
        requires
            self@.account_available() is Some,
        ensures
            Some(r) == self@.account_available(),
            forall|scale: nat| #[trigger]
                self@.exact_account(scale) ==> r.units() == floored(self@.account_headroom()),
    {
        self.checked_account_available().unwrap()
    }

    /// Sellable quantity for a strategy on an instrument, counting holds; `None`
    /// if it is out of range.
    pub fn checked_sellable(&self, strategy_id: &str, instrument_id: &str) -> (r: Option<Amount>)
        ensures
            r == self@.sellable(strategy_id@, instrument_id@),
            forall|scale: nat| #[trigger]
                self@.exact_holding(strategy_id@, instrument_id@, scale) ==> r is Some
                    && r->0.units() == floored(
                    self@.holding_headroom(strategy_id@, instrument_id@),
                ),
    {
        let key = holding_key_of(strategy_id, instrument_id);
        let tally = Tally::Holding(strategy_id, instrument_id);
        let tentative = self.held(&tally);
        subtract(
            self.positions.get(&key),
            self.committed_sell.get(&key),
            tentative,
            Ghost(parts(self@.tentative, tally.count())),
        )
    }

    /// Sellable quantity for a strategy on an instrument, counting holds.
    pub fn sellable(&self, strategy_id: &str, instrument_id: &str) -> (r: Amount)
        requires
            self@.sellable(strategy_id@, instrument_id@) is Some,
        ensures
            Some(r) == self@.sellable(strategy_id@, instrument_id@),
            forall|scale: nat| #[trigger]
                self@.exact_holding(strategy_id@, instrument_id@, scale) ==> r.units() == floored(
                    self@.holding_headroom(strategy_id@, instrument_id@),
                ),
    {
        self.checked_sellable(strategy_id, instrument_id).unwrap()
    }

    /// Records strategy holdings (the sellable base) from confirmed fills;
    /// `None`, with the ledger unchanged, if the sum is out of range.
    pub fn checked_add_position(
        &mut self,
        strategy_id: &str,
        instrument_id: &str,
        quantity: Amount,
    ) -> (r: Option<()>)
        ensures
            match old(self)@.with_position(strategy_id@, instrument_id@, quantity) {
                Some(after) => r is Some && final(self)@ == after,
                None => r is None && final(self)@ == old(self)@,
            },
            old(self)@.valid() ==> final(self)@.valid(),
    {
        let key = holding_key_of(strategy_id, instrument_id);
        match self.positions.get(&key).checked_add(quantity) {
            Some(total) => {
                proof {
                    lemma_stored(self@.positions, views(key@), total);
                }
                self.positions.put(key, total);
                Some(())
            },
            None => None,
        }
    }

    /// Records strategy holdings (the sellable base) from confirmed fills.
    pub fn add_position(&mut self, strategy_id: &str, instrument_id: &str, quantity: Amount)
        requires
            old(self)@.with_position(strategy_id@, instrument_id@, quantity) is Some,
        ensures
            Some(final(self)@) == old(self)@.with_position(strategy_id@, instrument_id@, quantity),
            old(self)@.valid() ==> final(self)@.valid(),
    {
        let _ = self.checked_add_position(strategy_id, instrument_id, quantity);
    }

    /// Adds a hold under the next token.
    fn insert_tentative(&mut self, hold: Hold) -> (r: TentativeId)
        requires
            old(self)@.issued < u64::MAX,
        ensures
            r.value() == old(self)@.issued + 1,
            final(self)@ == old(self)@.with_hold(hold@),
            old(self)@.valid() ==> final(self)@.valid(),
    {
        let ghost before = self@;
        let ghost view = hold@;
        self.next_tentative = self.next_tentative + 1;
        let id = self.next_tentative;
        self.tentative.push((id, hold));
        assert(self@ =~= before.with_hold(view));
        proof {
            if before.valid() {
                law_operations_keep_validity(before, view, 0, Seq::empty(), zero_amount());
            }
        }
        TentativeId(id)
    }

    /// Atomically checks and tentatively reserves buy notional; `None`, with the
    /// ledger unchanged, if an availability is out of range or the tokens are
    /// used up.
    ///
    /// Both the strategy budget and the account total must cover the request;
    /// either failing refuses the whole hold (no partial holds).
    pub fn checked_try_tentative_buy(&mut self, strategy_id: &str, notional: Amount) -> (r: Option<
        Result<TentativeId, QuotaError>,
    >)
        ensures
            buy_answered(old(self)@, final(self)@, strategy_id@, notional, r),
            forall|scale: nat| #[trigger]
                old(self)@.exact_strategy(strategy_id@, scale) ==> (over_strategy(r)
                    <==> notional.units() > floored(old(self)@.headroom(strategy_id@))),
            forall|scale: nat|
                #![trigger old(self)@.exact_account(scale)]
                old(self)@.exact_strategy(strategy_id@, scale) && old(self)@.exact_account(scale)
                    && old(self)@.issued < u64::MAX ==> r is Some && (r->0 is Ok
                    <==> old(self)@.covers(strategy_id@, notional.units())),
            old(self)@.valid() ==> final(self)@.valid(),
    {
        let strategy_available = match self.checked_available(strategy_id) {
            Some(available) => available,
            None => {
                return None;
            },
        };
        if notional.exceeds(strategy_available) {
            return Some(
                Err(
                    QuotaError::StrategyBudget {
                        strategy_id: strategy_id.to_owned(),
                        requested: notional,
                        available: strategy_available,
                    },
                ),
            );
        }
        let account_available = match self.checked_account_available() {
            Some(available) => available,
            None => {
                return None;
            },
        };
        if notional.exceeds(account_available) {
            return Some(
                Err(QuotaError::AccountBudget { requested: notional, available: account_available }),
            );
        }
        if self.next_tentative == u64::MAX {
            return None;
        }
        Some(
            Ok(
                self.insert_tentative(
                    Hold::BuyNotional { strategy_id: strategy_id.to_owned(), notional },
                ),
            ),
        )
    }

    /// Atomically checks and tentatively reserves buy notional.
    ///
    /// Both the strategy budget and the account total must cover the request;
    /// either failing refuses the whole hold (no partial holds).
    pub fn try_tentative_buy(&mut self, strategy_id: &str, notional: Amount) -> (r: Result<
        TentativeId,
        QuotaError,
    >)
        requires
            old(self)@.buy_decision(strategy_id@, notional) is Some,
        ensures
            buy_answered(old(self)@, final(self)@, strategy_id@, notional, Some(r)),
            forall|scale: nat| #[trigger]
                old(self)@.exact_strategy(strategy_id@, scale) ==> (over_strategy(Some(r))
                    <==> notional.units() > floored(old(self)@.headroom(strategy_id@))),
            forall|scale: nat|
                #![trigger old(self)@.exact_account(scale)]
                old(self)@.exact_strategy(strategy_id@, scale) && old(self)@.exact_account(scale)
                    && old(self)@.issued < u64::MAX ==> (r is Ok <==> old(self)@.covers(
                    strategy_id@,
                    notional.units(),
                )),
            old(self)@.valid() ==> final(self)@.valid(),
    {
        self.checked_try_tentative_buy(strategy_id, notional).unwrap()
    }

    /// Like [`QuotaLedger::checked_try_tentative_buy`], with a refusal for the
    /// strategy's budget reported as [`QuotaError::InsufficientBudget`].
    pub fn checked_try_tentative(&mut self, strategy_id: &str, notional: Amount) -> (r: Option<
        Result<TentativeId, QuotaError>,
    >)
        ensures
            budget_answered(old(self)@, final(self)@, strategy_id@, notional, r),
            forall|scale: nat| #[trigger]
                old(self)@.exact_strategy(strategy_id@, scale) ==> (over_strategy(r)
                    <==> notional.units() > floored(old(self)@.headroom(strategy_id@))),
            forall|scale: nat|
                #![trigger old(self)@.exact_account(scale)]
                old(self)@.exact_strategy(strategy_id@, scale) && old(self)@.exact_account(scale)
                    && old(self)@.issued < u64::MAX ==> r is Some && (r->0 is Ok
                    <==> old(self)@.covers(strategy_id@, notional.units())),
            old(self)@.valid() ==> final(self)@.valid(),
    {
        match self.checked_try_tentative_buy(strategy_id, notional) {
            Some(Err(QuotaError::StrategyBudget { strategy_id, requested, available })) => Some(
                Err(QuotaError::InsufficientBudget { strategy_id, requested, available }),
            ),
            other => other,
        }
    }

    /// Like [`QuotaLedger::try_tentative_buy`], with a refusal for the strategy's
    /// budget reported as [`QuotaError::InsufficientBudget`].
    pub fn try_tentative(&mut self, strategy_id: &str, notional: Amount) -> (r: Result<
        TentativeId,
        QuotaError,
    >)
        requires
            old(self)@.buy_decision(strategy_id@, notional) is Some,
        ensures
            budget_answered(old(self)@, final(self)@, strategy_id@, notional, Some(r)),
            forall|scale: nat| #[trigger]
                old(self)@.exact_strategy(strategy_id@, scale) ==> (over_strategy(Some(r))
                    <==> notional.units() > floored(old(self)@.headroom(strategy_id@))),
            forall|scale: nat|
                #![trigger old(self)@.exact_account(scale)]
                old(self)@.exact_strategy(strategy_id@, scale) && old(self)@.exact_account(scale)
                    && old(self)@.issued < u64::MAX ==> (r is Ok <==> old(self)@.covers(
                    strategy_id@,
                    notional.units(),
                )),
            old(self)@.valid() ==> final(self)@.valid(),
    {
        self.checked_try_tentative(strategy_id, notional).unwrap()
    }

    /// Atomically checks and tentatively reserves sellable quantity; `None`, with
    /// the ledger unchanged, if the availability is out of range or the tokens
    /// are used up.
    pub fn checked_try_tentative_sell(
        &mut self,
        strategy_id: &str,
        instrument_id: &str,
        quantity: Amount,
    ) -> (r: Option<Result<TentativeId, QuotaError>>)
        ensures
            sell_answered(
                old(self)@,
                final(self)@,
                strategy_id@,
                instrument_id@,
                quantity,
                r,
            ),
            forall|scale: nat| #[trigger]
                old(self)@.exact_holding(strategy_id@, instrument_id@, scale) && old(self)@.issued
                    < u64::MAX ==> r is Some && (r->0 is Ok <==> quantity.units() <= floored(
                    old(self)@.holding_headroom(strategy_id@, instrument_id@),
                )),
            old(self)@.valid() ==> final(self)@.valid(),
    {
        let available = match self.checked_sellable(strategy_id, instrument_id) {
            Some(available) => available,
            None => {
                return None;
            },
        };
        if quantity.exceeds(available) {
            return Some(
                Err(
                    QuotaError::SellableQuantity {
                        strategy_id: strategy_id.to_owned(),
                        instrument_id: instrument_id.to_owned(),
                        requested: quantity,
                        available,
                    },
                ),
            );
        }
        if self.next_tentative == u64::MAX {
            return None;
        }
        Some(
            Ok(
                self.insert_tentative(
                    Hold::SellQuantity {
                        strategy_id: strategy_id.to_owned(),
                        instrument_id: instrument_id.to_owned(),
                        quantity,
                    },
                ),
            ),
        )
    }

    /// Atomically checks and tentatively reserves sellable quantity.
    pub fn try_tentative_sell(
        &mut self,
        strategy_id: &str,
        instrument_id: &str,
        quantity: Amount,
    ) -> (r: Result<TentativeId, QuotaError>)
        requires
            old(self)@.sell_decision(strategy_id@, instrument_id@, quantity) is Some,
        ensures
            sell_answered(
                old(self)@,
                final(self)@,
                strategy_id@,
                instrument_id@,
                quantity,
                Some(r),
            ),
            forall|scale: nat| #[trigger]
                old(self)@.exact_holding(strategy_id@, instrument_id@, scale) && old(self)@.issued
                    < u64::MAX ==> (r is Ok <==> quantity.units() <= floored(
                    old(self)@.holding_headroom(strategy_id@, instrument_id@),
                )),
            old(self)@.valid() ==> final(self)@.valid(),
    {
        self.checked_try_tentative_sell(strategy_id, instrument_id, quantity).unwrap()
    }

    fn position_of(&self, id: TentativeId) -> (r: usize)
        ensures
            r == hold_place(self@.tentative, id.value()),
            r <= self.tentative@.len(),
    {
        let mut i: usize = 0;
        while i < self.tentative.len()
            invariant
                i <= self.tentative@.len(),
                self@.tentative.len() == self.tentative@.len(),
                forall|k: int| 0 <= k < i ==> (#[trigger] self@.tentative[k]).0 != id.value(),
            decreases self.tentative.len() - i,
        {
            if self.tentative[i].0 == id.0 {
                proof {
                    lemma_hold_place_is(self@.tentative, id.value(), i as int);
                }
                return i;
            }
            i = i + 1;
        }
        proof {
            lemma_hold_place_is(self@.tentative, id.value(), i as int);
        }
        i
    }

    /// Converts a tentative hold into a confirmed reservation; `None`, with the
    /// ledger unchanged, if the confirmed amount is out of range.
    ///
    /// Where the sum by which the hold is confirmed fits, it is exact (see
    /// [`law_commit_keeps_availability`]).
    pub fn checked_commit(&mut self, id: TentativeId) -> (r: Option<Result<(), QuotaError>>)
        ensures
            commit_answered(old(self)@, final(self)@, id, r),
            old(self)@.holds(id.value()) && commit_fits(old(self)@, id.value())
                ==> old(self)@.commit_exact(id.value()),
            old(self)@.valid() ==> final(self)@.valid(),
    {
        let ghost before = self@;
        let at = self.position_of(id);
        if at == self.tentative.len() {
            return Some(Err(QuotaError::UnknownTentative(id)));
        }
        assert(before.hold(id.value()) == self.tentative@[at as int].1@);
        proof {
            if before.valid() {
                law_operations_keep_validity(
                    before,
                    before.hold(id.value()),
                    id.value(),
                    Seq::empty(),
                    zero_amount(),
                );
            }
        }
        match &self.tentative[at].1 {
            Hold::BuyNotional { strategy_id, notional } => {
                let key = strategy_key_of(strategy_id.as_str());
                match self.committed_buy.get(&key).checked_add(*notional) {
                    Some(total) => {
                        let _ = self.tentative.remove(at);
                        self.committed_buy.put(key, total);
                        assert(self@ =~= before.with_commit(id.value())->0);
                        Some(Ok(()))
                    },
                    None => None,
                }
            },
            Hold::SellQuantity { strategy_id, instrument_id, quantity } => {
                let key = holding_key_of(strategy_id.as_str(), instrument_id.as_str());
                match self.committed_sell.get(&key).checked_add(*quantity) {
                    Some(total) => {
                        let _ = self.tentative.remove(at);
                        self.committed_sell.put(key, total);
                        assert(self@ =~= before.with_commit(id.value())->0);
                        Some(Ok(()))
                    },
                    None => None,
                }
            },
        }
    }

    /// Converts a tentative hold into a confirmed reservation.
    pub fn commit(&mut self, id: TentativeId) -> (r: Result<(), QuotaError>)
        requires
            old(self)@.holds(id.value()) ==> old(self)@.with_commit(id.value()) is Some,
        ensures
            commit_answered(old(self)@, final(self)@, id, Some(r)),
            old(self)@.holds(id.value()) && commit_fits(old(self)@, id.value())
                ==> old(self)@.commit_exact(id.value()),
            old(self)@.valid() ==> final(self)@.valid(),
    {
        self.checked_commit(id).unwrap()
    }

    /// Releases a tentative hold without committing it (pre-commit failure).
    pub fn release_tentative(&mut self, id: TentativeId) -> (r: Result<(), QuotaError>)
        ensures
            match r {
                Ok(()) => old(self)@.holds(id.value()) && final(self)@ == old(self)@.without_hold(
                    id.value(),
                ),
                Err(QuotaError::UnknownTentative(unknown)) => !old(self)@.holds(id.value())
                    && unknown == id && final(self)@ == old(self)@,
                _ => false,
            },
            old(self)@.valid() ==> final(self)@.valid(),
    {
        let ghost before = self@;
        let at = self.position_of(id);
        if at == self.tentative.len() {
            return Err(QuotaError::UnknownTentative(id));
        }
        let _ = self.tentative.remove(at);
        assert(self@ =~= before.without_hold(id.value()));
        proof {
            if before.valid() {
                law_operations_keep_validity(
                    before,
                    before.hold(id.value()),
                    id.value(),
                    Seq::empty(),
                    zero_amount(),
                );
            }
        }
        Ok(())
    }

    /// Releases confirmed buy notional (terminal rejection or cancel); `None`,
    /// with the ledger unchanged, if the difference is out of range.
    ///
    /// Where the difference fits, it is exact (see
    /// [`law_release_committed_restores`]).
    pub fn checked_release_committed(&mut self, strategy_id: &str, amount: Amount) -> (r: Option<()>)
        ensures
            match old(self)@.with_release(strategy_id@, amount) {
                Some(after) => r is Some && final(self)@ == after,
                None => r is None && final(self)@ == old(self)@,
            },
            release_fits(old(self)@, strategy_id@, amount) ==> old(self)@.release_exact(
                strategy_id@,
                amount,
            ),
            old(self)@.valid() ==> final(self)@.valid(),
    {
        let key = strategy_key_of(strategy_id);
        let held = self.committed_buy.get(&key);
        let rest = held.checked_sub(amount);
        if !self.committed_buy.contains(&key) {
            return Some(());
        }
        match rest {
            Some(rest) => {
                proof {
                    lemma_stored(self@.committed_buy, views(key@), at_least_zero(rest));
                }
                self.committed_buy.put(key, rest.or_zero());
                Some(())
            },
            None => None,
        }
    }

    /// Releases confirmed buy notional (terminal rejection or cancel).
    pub fn release_committed(&mut self, strategy_id: &str, amount: Amount)
        requires
            old(self)@.with_release(strategy_id@, amount) is Some,
        ensures
            Some(final(self)@) == old(self)@.with_release(strategy_id@, amount),
            release_fits(old(self)@, strategy_id@, amount) ==> old(self)@.release_exact(
                strategy_id@,
                amount,
            ),
            old(self)@.valid() ==> final(self)@.valid(),
    {
        let _ = self.checked_release_committed(strategy_id, amount);
    }
}

} // verus!
