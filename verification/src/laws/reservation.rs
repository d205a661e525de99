//! Laws of reservations: what is left of budgets and holdings after each operation
//! of the ledger, to the last unit.

use vstd::prelude::*;

use crate::amount::{
    amount_text, exact_at, law_max_amount_is_largest, lemma_sign, lemma_zero, max_amount, pow10,
    Amount, MAX_SCALE,
};
use crate::quota::{
    amounts, counted, holding_key, law_commit_keeps_availability, law_hold_takes_what_it_reserves,
    law_operations_keep_validity, law_release_committed_restores, law_release_undoes_hold,
    law_token_is_good_once, net, parts, strategy_key, Count, HoldView, LedgerView, QuotaError,
    QuotaLedger, TentativeId,
};
use crate::table::{amount_at, lemma_stored};

verus! {

// ---------------------------------------------------------------------------
// Budgets and holdings
// ---------------------------------------------------------------------------

/// A new ledger has nothing: no strategy has a budget, nobody holds anything, and
/// the account is not capped.
pub proof fn law_new_ledger_has_nothing(ledger: QuotaLedger)
    requires
        call_ensures(QuotaLedger::new, (), ledger),
    ensures
        forall|s: Seq<char>| (#[trigger] ledger@.headroom(s)) == 0,
        forall|s: Seq<char>, i: Seq<char>| (#[trigger] ledger@.holding_headroom(s, i)) == 0,
        ledger@.account_headroom() == max_amount().units(),
        ledger@.issued == 0,
        ledger@.valid(),
{
    lemma_zero();
    assert forall|count: Count| net(#[trigger] parts(ledger@.tentative, count)) == 0 by {
        assert(parts(ledger@.tentative, count) =~= Seq::<Amount>::empty());
    }
    assert(amounts(ledger@.committed_buy) =~= Seq::<Amount>::empty());
}

/// A budget counts in full, and for its strategy alone: what a strategy has left
/// differs by as much as the budgets that it is given, and nobody else has more or
/// less.
pub proof fn law_budget_counts_in_full(
    one: &mut QuotaLedger,
    other: &mut QuotaLedger,
    strategy_id: &str,
    budget: Amount,
    other_budget: Amount,
)
    requires
        call_ensures(QuotaLedger::set_budget, (one, strategy_id, budget), ()),
        call_ensures(QuotaLedger::set_budget, (other, strategy_id, other_budget), ()),
        old(one)@ == old(other)@,
    ensures
        final(one)@.headroom(strategy_id@) - final(other)@.headroom(strategy_id@)
            == budget.units() - other_budget.units(),
        forall|s: Seq<char>|
            s != strategy_id@ ==> (#[trigger] final(one)@.headroom(s)) == old(one)@.headroom(s),
        final(one)@.account_headroom() == old(one)@.account_headroom(),
        forall|s: Seq<char>, i: Seq<char>|
            (#[trigger] final(one)@.holding_headroom(s, i)) == old(one)@.holding_headroom(s, i),
{
    let key = strategy_key(strategy_id@);
    lemma_stored(old(one)@.budgets, key, budget);
    lemma_stored(old(one)@.budgets, key, other_budget);
    assert forall|s: Seq<char>| s != strategy_id@ implies (#[trigger] final(one)@.headroom(s))
        == old(one)@.headroom(s) by {
        assert(strategy_key(s)[0] != key[0]);
    }
}

/// The first budget of a strategy is what it has left, if nothing is reserved.
pub proof fn law_first_budget_is_left(
    ledger: QuotaLedger,
    after: &mut QuotaLedger,
    strategy_id: &str,
    budget: Amount,
)
    requires
        call_ensures(QuotaLedger::new, (), ledger),
        call_ensures(QuotaLedger::set_budget, (after, strategy_id, budget), ()),
        old(after)@ == ledger@,
    ensures
        final(after)@.headroom(strategy_id@) == budget.units(),
{
    law_new_ledger_has_nothing(ledger);
    lemma_zero();
    lemma_stored(ledger@.budgets, strategy_key(strategy_id@), budget);
    assert(parts(final(after)@.tentative, Count::Strategy(strategy_id@)) =~= Seq::<
        Amount,
    >::empty());
}

/// The account's cap counts in full, and for the account alone.
pub proof fn law_account_budget_counts_in_full(
    one: &mut QuotaLedger,
    other: &mut QuotaLedger,
    budget: Amount,
    other_budget: Amount,
)
    requires
        call_ensures(QuotaLedger::set_account_budget, (one, budget), ()),
        call_ensures(QuotaLedger::set_account_budget, (other, other_budget), ()),
        old(one)@ == old(other)@,
    ensures
        final(one)@.account_headroom() - final(other)@.account_headroom() == budget.units()
            - other_budget.units(),
        forall|s: Seq<char>| (#[trigger] final(one)@.headroom(s)) == old(one)@.headroom(s),
        forall|s: Seq<char>, i: Seq<char>|
            (#[trigger] final(one)@.holding_headroom(s, i)) == old(one)@.holding_headroom(s, i),
{
}

/// What is added to a strategy's holdings can be sold, by that strategy and of that
/// instrument alone; it is no cash.
pub proof fn law_added_position_can_be_sold(
    ledger: &mut QuotaLedger,
    strategy_id: &str,
    instrument_id: &str,
    quantity: Amount,
    held: Amount,
    total: Option<Amount>,
    r: Option<()>,
)
    requires
        call_ensures(
            QuotaLedger::checked_add_position,
            (ledger, strategy_id, instrument_id, quantity),
            r,
        ),
        held == amount_at(old(ledger)@.positions, holding_key(strategy_id@, instrument_id@)),
        call_ensures(Amount::checked_add, (held, quantity), total),
        exact_at(held.units() + quantity.units(), held, quantity),
    ensures
        r is Some,
        final(ledger)@.holding_headroom(strategy_id@, instrument_id@)
            == old(ledger)@.holding_headroom(strategy_id@, instrument_id@) + quantity.units(),
        forall|s: Seq<char>, i: Seq<char>|
            s != strategy_id@ || i != instrument_id@ ==> (
            #[trigger] final(ledger)@.holding_headroom(s, i)) == old(ledger)@.holding_headroom(
                s,
                i,
            ),
        forall|s: Seq<char>| (#[trigger] final(ledger)@.headroom(s)) == old(ledger)@.headroom(s),
        final(ledger)@.account_headroom() == old(ledger)@.account_headroom(),
{
    let key = holding_key(strategy_id@, instrument_id@);
    lemma_stored(old(ledger)@.positions, key, total->0);
    assert forall|s: Seq<char>, i: Seq<char>|
        s != strategy_id@ || i != instrument_id@ implies (
    #[trigger] final(ledger)@.holding_headroom(s, i)) == old(ledger)@.holding_headroom(s, i) by {
        if s != strategy_id@ {
            assert(holding_key(s, i)[0] != key[0]);
        } else {
            assert(holding_key(s, i)[1] != key[1]);
        }
    }
}

// ---------------------------------------------------------------------------
// Holds
// ---------------------------------------------------------------------------

/// A granted buy takes its notional off the strategy's budget and off the account's,
/// and nothing else; it is granted exactly if both have that much left. One that is
/// refused changes nothing, and the refusal names what was asked for.
pub proof fn law_buy_takes_its_notional(
    ledger: &mut QuotaLedger,
    strategy_id: &str,
    notional: Amount,
    scale: nat,
    r: Option<Result<TentativeId, QuotaError>>,
)
    requires
        call_ensures(QuotaLedger::checked_try_tentative_buy, (ledger, strategy_id, notional), r),
    ensures
        r matches Some(Ok(id)) ==> {
            &&& id.value() == old(ledger)@.issued + 1
            &&& final(ledger)@.issued == id.value()
            &&& final(ledger)@.headroom(strategy_id@) == old(ledger)@.headroom(strategy_id@)
                - notional.units()
            &&& final(ledger)@.account_headroom() == old(ledger)@.account_headroom()
                - notional.units()
            &&& forall|s: Seq<char>|
                s != strategy_id@ ==> (#[trigger] final(ledger)@.headroom(s))
                    == old(ledger)@.headroom(s)
            &&& forall|s: Seq<char>, i: Seq<char>|
                (#[trigger] final(ledger)@.holding_headroom(s, i))
                    == old(ledger)@.holding_headroom(s, i)
        },
        !(r matches Some(Ok(_))) ==> final(ledger)@ == old(ledger)@,
        r matches Some(Err(QuotaError::StrategyBudget { strategy_id: id, requested, available }))
            ==> id@ == strategy_id@ && requested == notional && requested.units()
            > available.units(),
        r matches Some(Err(QuotaError::AccountBudget { requested, available })) ==> requested
            == notional && requested.units() > available.units(),
        old(ledger)@.exact_strategy(strategy_id@, scale) && old(ledger)@.exact_account(scale)
            && old(ledger)@.issued < u64::MAX ==> {
            &&& r is Some
            &&& r->0 is Ok <==> {
                &&& notional.units() <= 0 || notional.units() <= old(ledger)@.headroom(
                    strategy_id@,
                )
                &&& notional.units() <= 0 || notional.units() <= old(ledger)@.account_headroom()
            }
            &&& r->0 matches Err(QuotaError::StrategyBudget { strategy_id: id, requested, available })
                ==> notional.units() > old(ledger)@.headroom(strategy_id@)
        },
{
    let hold = HoldView::BuyNotional { strategy_id: strategy_id@, notional };
    lemma_zero();
    law_hold_takes_what_it_reserves(old(ledger)@, hold);
    if let Some(Ok(id)) = r {
        assert(final(ledger)@.headroom(strategy_id@) == old(ledger)@.headroom(strategy_id@)
            - counted(hold, Count::Strategy(strategy_id@)).units());
        assert forall|s: Seq<char>| s != strategy_id@ implies (
        #[trigger] final(ledger)@.headroom(s)) == old(ledger)@.headroom(s) by {
            assert(final(ledger)@.headroom(s) == old(ledger)@.headroom(s) - counted(
                hold,
                Count::Strategy(s),
            ).units());
        }
    }
}

/// A granted sell takes its quantity off the holdings of its strategy on its
/// instrument, and nothing else: no cash. It is granted exactly if that much is
/// left. One that is refused changes nothing, and the refusal names what was asked
/// for.
pub proof fn law_sell_takes_its_quantity(
    ledger: &mut QuotaLedger,
    strategy_id: &str,
    instrument_id: &str,
    quantity: Amount,
    scale: nat,
    r: Option<Result<TentativeId, QuotaError>>,
)
    requires
        call_ensures(
            QuotaLedger::checked_try_tentative_sell,
            (ledger, strategy_id, instrument_id, quantity),
            r,
        ),
    ensures
        r matches Some(Ok(id)) ==> {
            &&& id.value() == old(ledger)@.issued + 1
            &&& final(ledger)@.issued == id.value()
            &&& final(ledger)@.holding_headroom(strategy_id@, instrument_id@)
                == old(ledger)@.holding_headroom(strategy_id@, instrument_id@) - quantity.units()
            &&& forall|s: Seq<char>, i: Seq<char>|
                s != strategy_id@ || i != instrument_id@ ==> (
                #[trigger] final(ledger)@.holding_headroom(s, i))
                    == old(ledger)@.holding_headroom(s, i)
            &&& forall|s: Seq<char>|
                (#[trigger] final(ledger)@.headroom(s)) == old(ledger)@.headroom(s)
            &&& final(ledger)@.account_headroom() == old(ledger)@.account_headroom()
        },
        !(r matches Some(Ok(_))) ==> final(ledger)@ == old(ledger)@,
        r matches Some(
            Err(
                QuotaError::SellableQuantity {
                    strategy_id: s,
                    instrument_id: i,
                    requested,
                    available,
                },
            ),
        ) ==> s@ == strategy_id@ && i@ == instrument_id@ && requested == quantity
            && requested.units() > available.units(),
        old(ledger)@.exact_holding(strategy_id@, instrument_id@, scale) && old(ledger)@.issued
            < u64::MAX ==> r is Some && (r->0 is Ok <==> quantity.units() <= 0
            || quantity.units() <= old(ledger)@.holding_headroom(strategy_id@, instrument_id@)),
{
    let hold = HoldView::SellQuantity {
        strategy_id: strategy_id@,
        instrument_id: instrument_id@,
        quantity,
    };
    lemma_zero();
    law_hold_takes_what_it_reserves(old(ledger)@, hold);
    if let Some(Ok(id)) = r {
        assert(final(ledger)@.holding_headroom(strategy_id@, instrument_id@)
            == old(ledger)@.holding_headroom(strategy_id@, instrument_id@) - counted(
            hold,
            Count::Holding(strategy_id@, instrument_id@),
        ).units());
        assert forall|s: Seq<char>, i: Seq<char>|
            s != strategy_id@ || i != instrument_id@ implies (
        #[trigger] final(ledger)@.holding_headroom(s, i)) == old(ledger)@.holding_headroom(s, i) by {
            assert(final(ledger)@.holding_headroom(s, i) == old(ledger)@.holding_headroom(s, i)
                - counted(hold, Count::Holding(s, i)).units());
        }
    }
}

/// What a strategy, the account and a holding have left is told as it is, and as
/// nothing where more is reserved than there is.
pub proof fn law_availability_is_what_is_left(
    ledger: QuotaLedger,
    strategy_id: &str,
    instrument_id: &str,
    scale: nat,
    strategy: Option<Amount>,
    account: Option<Amount>,
    holding: Option<Amount>,
)
    requires
        call_ensures(QuotaLedger::checked_available, (&ledger, strategy_id), strategy),
        call_ensures(QuotaLedger::checked_account_available, (&ledger,), account),
        call_ensures(
            QuotaLedger::checked_sellable,
            (&ledger, strategy_id, instrument_id),
            holding,
        ),
    ensures
        ledger@.exact_strategy(strategy_id@, scale) ==> strategy is Some && strategy->0.units()
            == (if ledger@.headroom(strategy_id@) >= 0 {
            ledger@.headroom(strategy_id@)
        } else {
            0
        }),
        ledger@.exact_account(scale) ==> account is Some && account->0.units() == (
        if ledger@.account_headroom() >= 0 {
            ledger@.account_headroom()
        } else {
            0
        }),
        ledger@.exact_holding(strategy_id@, instrument_id@, scale) ==> holding is Some
            && holding->0.units() == (if ledger@.holding_headroom(strategy_id@, instrument_id@)
            >= 0 {
            ledger@.holding_headroom(strategy_id@, instrument_id@)
        } else {
            0
        }),
{
}

/// A buy that is held and then released leaves everything as it was: nobody has
/// more or less left than before the hold.
pub proof fn law_released_buy_leaves_no_trace(
    ledger: &mut QuotaLedger,
    later: &mut QuotaLedger,
    strategy_id: &str,
    notional: Amount,
    id: TentativeId,
    r: Result<(), QuotaError>,
)
    requires
        old(ledger)@.valid(),
        call_ensures(
            QuotaLedger::checked_try_tentative_buy,
            (ledger, strategy_id, notional),
            Some(Ok::<TentativeId, QuotaError>(id)),
        ),
        old(later)@ == final(ledger)@,
        call_ensures(QuotaLedger::release_tentative, (later, id), r),
    ensures
        r is Ok,
        forall|s: Seq<char>| (#[trigger] final(later)@.headroom(s)) == old(ledger)@.headroom(s),
        final(later)@.account_headroom() == old(ledger)@.account_headroom(),
        forall|s: Seq<char>, i: Seq<char>|
            (#[trigger] final(later)@.holding_headroom(s, i)) == old(ledger)@.holding_headroom(
                s,
                i,
            ),
        final(later)@.issued == id.value(),
{
    let hold = HoldView::BuyNotional { strategy_id: strategy_id@, notional };
    law_release_undoes_hold(old(ledger)@, hold);
    assert(final(later)@ == (LedgerView { issued: id.value(), ..old(ledger)@ }));
}

/// A buy that is held and then confirmed stays taken: the strategy and the account
/// have less left by its notional, as while it was held, and nobody else does. Its
/// token is used up.
pub proof fn law_confirmed_buy_stays_taken(
    ledger: &mut QuotaLedger,
    later: &mut QuotaLedger,
    strategy_id: &str,
    notional: Amount,
    id: TentativeId,
    committed: Amount,
    total: Option<Amount>,
    r: Option<Result<(), QuotaError>>,
)
    requires
        old(ledger)@.valid(),
        call_ensures(
            QuotaLedger::checked_try_tentative_buy,
            (ledger, strategy_id, notional),
            Some(Ok::<TentativeId, QuotaError>(id)),
        ),
        old(later)@ == final(ledger)@,
        call_ensures(QuotaLedger::checked_commit, (later, id), r),
        committed == amount_at(old(ledger)@.committed_buy, strategy_key(strategy_id@)),
        call_ensures(Amount::checked_add, (committed, notional), total),
        exact_at(committed.units() + notional.units(), committed, notional),
    ensures
        r matches Some(Ok(())),
        final(later)@.headroom(strategy_id@) == old(ledger)@.headroom(strategy_id@)
            - notional.units(),
        final(later)@.account_headroom() == old(ledger)@.account_headroom() - notional.units(),
        forall|s: Seq<char>|
            s != strategy_id@ ==> (#[trigger] final(later)@.headroom(s)) == old(ledger)@.headroom(
                s,
            ),
        forall|s: Seq<char>, i: Seq<char>|
            (#[trigger] final(later)@.holding_headroom(s, i)) == old(ledger)@.holding_headroom(
                s,
                i,
            ),
        !final(later)@.holds(id.value()),
{
    let hold = HoldView::BuyNotional { strategy_id: strategy_id@, notional };
    law_release_undoes_hold(old(ledger)@, hold);
    law_buy_takes_its_notional(
        ledger,
        strategy_id,
        notional,
        0,
        Some(Ok::<TentativeId, QuotaError>(id)),
    );
    let held = old(later)@;
    assert(held.hold(id.value()) == hold);
    law_commit_keeps_availability(held, id.value());
    law_operations_keep_validity(
        old(ledger)@,
        hold,
        id.value(),
        Seq::empty(),
        notional,
    );
    law_token_is_good_once(held, id.value());
}

/// A sell that is held and then released leaves everything as it was; one that is held
/// and then confirmed stays taken, off the holdings alone.
pub proof fn law_held_sell_is_released_or_confirmed(
    ledger: &mut QuotaLedger,
    released: &mut QuotaLedger,
    confirmed: &mut QuotaLedger,
    strategy_id: &str,
    instrument_id: &str,
    quantity: Amount,
    id: TentativeId,
    committed: Amount,
    total: Option<Amount>,
    r: Result<(), QuotaError>,
    c: Option<Result<(), QuotaError>>,
)
    requires
        old(ledger)@.valid(),
        call_ensures(
            QuotaLedger::checked_try_tentative_sell,
            (ledger, strategy_id, instrument_id, quantity),
            Some(Ok::<TentativeId, QuotaError>(id)),
        ),
        old(released)@ == final(ledger)@,
        call_ensures(QuotaLedger::release_tentative, (released, id), r),
        old(confirmed)@ == final(ledger)@,
        call_ensures(QuotaLedger::checked_commit, (confirmed, id), c),
        committed == amount_at(
            old(ledger)@.committed_sell,
            holding_key(strategy_id@, instrument_id@),
        ),
        call_ensures(Amount::checked_add, (committed, quantity), total),
        exact_at(committed.units() + quantity.units(), committed, quantity),
    ensures
        r is Ok,
        c matches Some(Ok(())),
        forall|s: Seq<char>, i: Seq<char>|
            (#[trigger] final(released)@.holding_headroom(s, i)) == old(ledger)@.holding_headroom(
                s,
                i,
            ),
        final(confirmed)@.holding_headroom(strategy_id@, instrument_id@)
            == old(ledger)@.holding_headroom(strategy_id@, instrument_id@) - quantity.units(),
        forall|s: Seq<char>, i: Seq<char>|
            s != strategy_id@ || i != instrument_id@ ==> (
            #[trigger] final(confirmed)@.holding_headroom(s, i)) == old(ledger)@.holding_headroom(
                s,
                i,
            ),
        forall|s: Seq<char>| (#[trigger] final(released)@.headroom(s)) == old(ledger)@.headroom(s),
        forall|s: Seq<char>| (#[trigger] final(confirmed)@.headroom(s)) == old(ledger)@.headroom(s),
        final(released)@.account_headroom() == old(ledger)@.account_headroom(),
        final(confirmed)@.account_headroom() == old(ledger)@.account_headroom(),
{
    let hold = HoldView::SellQuantity {
        strategy_id: strategy_id@,
        instrument_id: instrument_id@,
        quantity,
    };
    law_release_undoes_hold(old(ledger)@, hold);
    law_sell_takes_its_quantity(
        ledger,
        strategy_id,
        instrument_id,
        quantity,
        0,
        Some(Ok::<TentativeId, QuotaError>(id)),
    );
    let held = old(confirmed)@;
    assert(held.hold(id.value()) == hold);
    law_commit_keeps_availability(held, id.value());
    assert(final(released)@ == (LedgerView { issued: id.value(), ..old(ledger)@ }));
    assert forall|s: Seq<char>, i: Seq<char>|
        s != strategy_id@ || i != instrument_id@ implies (
    #[trigger] final(confirmed)@.holding_headroom(s, i)) == old(ledger)@.holding_headroom(
        s,
        i,
    ) by {
        assert(final(confirmed)@.holding_headroom(s, i) == held.holding_headroom(s, i));
        assert(held.holding_headroom(s, i) == old(ledger)@.holding_headroom(s, i));
    }
}

/// Confirmed notional that is given back is left again, to the strategy and to the
/// account, and to nobody else.
pub proof fn law_notional_given_back_is_left_again(
    ledger: &mut QuotaLedger,
    strategy_id: &str,
    amount: Amount,
    committed: Amount,
    rest: Option<Amount>,
    r: Option<()>,
)
    requires
        call_ensures(QuotaLedger::checked_release_committed, (ledger, strategy_id, amount), r),
        committed == amount_at(old(ledger)@.committed_buy, strategy_key(strategy_id@)),
        0 <= amount.units() <= committed.units(),
        call_ensures(Amount::checked_sub, (committed, amount), rest),
        exact_at(committed.units() - amount.units(), committed, amount),
    ensures
        r is Some,
        final(ledger)@.headroom(strategy_id@) == old(ledger)@.headroom(strategy_id@)
            + amount.units(),
        final(ledger)@.account_headroom() == old(ledger)@.account_headroom() + amount.units(),
        forall|s: Seq<char>|
            s != strategy_id@ ==> (#[trigger] final(ledger)@.headroom(s)) == old(ledger)@.headroom(
                s,
            ),
        forall|s: Seq<char>, i: Seq<char>|
            (#[trigger] final(ledger)@.holding_headroom(s, i)) == old(ledger)@.holding_headroom(
                s,
                i,
            ),
{
    law_release_committed_restores(old(ledger)@, strategy_id@, amount);
    let after = old(ledger)@.with_release(strategy_id@, amount)->0;
    assert forall|s: Seq<char>, i: Seq<char>|
        (#[trigger] final(ledger)@.holding_headroom(s, i)) == old(ledger)@.holding_headroom(
        s,
        i,
    ) by {
        assert(after.positions == old(ledger)@.positions);
        assert(after.committed_sell == old(ledger)@.committed_sell);
        assert(after.tentative == old(ledger)@.tentative);
    }
}

/// A request that is refused is told what it asked for and what is available: to the
/// strategy, if that is too little, or else to the account; and nothing is held.
pub proof fn law_refusals_tell_what_is_available(
    ledger: &mut QuotaLedger,
    before: QuotaLedger,
    strategy_id: &str,
    notional: Amount,
    available: Option<Amount>,
    account_available: Option<Amount>,
    answer: Option<Result<TentativeId, QuotaError>>,
)
    requires
        call_ensures(QuotaLedger::checked_try_tentative, (ledger, strategy_id, notional), answer)
            || call_ensures(
            QuotaLedger::checked_try_tentative_buy,
            (ledger, strategy_id, notional),
            answer,
        ),
        before == *old(ledger),
        before@.issued < u64::MAX,
        call_ensures(QuotaLedger::checked_available, (&before, strategy_id), available),
        call_ensures(QuotaLedger::checked_account_available, (&before,), account_available),
        available is Some,
        account_available is Some,
    ensures
        answer matches Some(Err(QuotaError::InsufficientBudget {
            strategy_id: id,
            requested,
            available: left,
        })) ==> id@ == strategy_id@ && requested == notional && left == available->0,
        answer matches Some(Err(QuotaError::StrategyBudget {
            strategy_id: id,
            requested,
            available: left,
        })) ==> id@ == strategy_id@ && requested == notional && left == available->0,
        answer matches Some(Err(QuotaError::AccountBudget { requested, available: left }))
            ==> requested == notional && left == account_available->0 && notional.units()
            <= available->0.units(),
        answer matches Some(Ok(id)) <==> notional.units() <= available->0.units()
            && notional.units() <= account_available->0.units(),
        !(answer matches Some(Ok(id))) ==> final(ledger)@ == old(ledger)@,
{
}

/// A refusal says what was asked for and what is left, in this order, and of whom.
pub proof fn law_refusals_say_what_is_left(error: QuotaError, text: String)
    requires
        call_ensures(QuotaError::message, (&error,), text),
    ensures
        error matches QuotaError::StrategyBudget { strategy_id, requested, available } ==> text@
            == "strategy budget for "@ + strategy_id@ + (": requested "@ + amount_text(requested)
            + ", available "@ + amount_text(available)),
        error matches QuotaError::InsufficientBudget { strategy_id, requested, available } ==> text@
            == "strategy budget for "@ + strategy_id@ + (": requested "@ + amount_text(requested)
            + ", available "@ + amount_text(available)),
        error matches QuotaError::AccountBudget { requested, available } ==> text@
            == "account budget"@ + (": requested "@ + amount_text(requested) + ", available "@
            + amount_text(available)),
        error matches QuotaError::SellableQuantity {
            strategy_id,
            instrument_id,
            requested,
            available,
        } ==> text@ == "sellable quantity for "@ + strategy_id@ + " on "@ + instrument_id@ + (
        ": requested "@ + amount_text(requested) + ", available "@ + amount_text(available)),
{
}

// ---------------------------------------------------------------------------
// Amounts
// ---------------------------------------------------------------------------

/// An amount is its number over the power of ten of its places; zero is nothing, and no
/// amount is above the largest.
pub proof fn law_amounts_count_what_they_say(
    num: i64,
    scale: u32,
    amount: Amount,
    zero: Amount,
    max: Amount,
)
    requires
        call_ensures(Amount::new, (num, scale), amount),
        scale <= MAX_SCALE,
        call_ensures(Amount::zero, (), zero),
        call_ensures(Amount::max, (), max),
        amount.in_range(),
    ensures
        amount.units() * pow10(scale as nat) == num * pow10(MAX_SCALE as nat),
        zero.units() == 0,
        amount.units() <= max.units(),
{
    lemma_zero();
    law_max_amount_is_largest(amount);
    lemma_pow10_add((MAX_SCALE - scale) as nat, scale as nat);
    let a = pow10((MAX_SCALE - scale) as nat) as int;
    let b = pow10(scale as nat) as int;
    assert((num * a) * b == num * (a * b)) by (nonlinear_arith);
}

/// Powers of ten multiply.
proof fn lemma_pow10_add(a: nat, b: nat)
    ensures
        pow10(a + b) == pow10(a) * pow10(b),
    decreases a,
{
    if a == 0 {
        assert(pow10(0) * pow10(b) == pow10(b)) by (nonlinear_arith)
            requires
                pow10(0) == 1,
        ;
    } else {
        lemma_pow10_add((a - 1) as nat, b);
        let x = pow10((a - 1) as nat) as int;
        let y = pow10(b) as int;
        assert(10 * (x * y) == (10 * x) * y) by (nonlinear_arith);
        assert(pow10((a + b) as nat) == 10 * pow10((a - 1 + b) as nat));
    }
}

/// A rest below zero counts as nothing, and any other rest as it is, down to its
/// decimal places.
pub proof fn law_rest_is_never_below_zero(a: Amount, r: Amount)
    requires
        a.in_range(),
        call_ensures(Amount::or_zero, (a,), r),
    ensures
        r.units() == (if a.units() >= 0 {
            a.units()
        } else {
            0
        }),
        a.units() >= 0 ==> r == a,
{
    lemma_sign(a);
}

} // verus!
