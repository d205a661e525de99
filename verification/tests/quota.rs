//! Quota ledger: budgets, account total, holdings and the life of a hold.

use orderhub::amount::Amount;
use orderhub::quota::{QuotaError, QuotaLedger};

fn amount(n: i64) -> Amount {
    Amount::new(n, 0)
}

#[test]
fn m1_q2_tentative_commit_and_release_lifecycle() {
    let mut ledger = QuotaLedger::new();
    ledger.set_budget("ORDERHUB-S001", amount(100));

    let t1 = ledger.try_tentative("ORDERHUB-S001", amount(60)).unwrap();
    assert_eq!(ledger.available("ORDERHUB-S001"), amount(40));
    assert_eq!(
        ledger.try_tentative("ORDERHUB-S001", amount(50)).unwrap_err(),
        QuotaError::InsufficientBudget {
            strategy_id: "ORDERHUB-S001".to_string(),
            requested: amount(50),
            available: amount(40),
        }
    );

    // Pre-commit failure releases the hold
    let t2 = ledger.try_tentative("ORDERHUB-S001", amount(40)).unwrap();
    ledger.release_tentative(t2).unwrap();
    assert_eq!(ledger.available("ORDERHUB-S001"), amount(40));

    // Durable commit converts tentative to committed
    ledger.commit(t1).unwrap();
    assert_eq!(ledger.available("ORDERHUB-S001"), amount(40));
    assert!(ledger.release_tentative(t1).is_err(), "already committed");

    // Terminal rejection releases the confirmed reservation
    ledger.release_committed("ORDERHUB-S001", amount(60));
    assert_eq!(ledger.available("ORDERHUB-S001"), amount(100));
}

#[test]
fn m2_quota_r02_account_total_binds_all_strategies() {
    let mut ledger = QuotaLedger::new();
    ledger.set_budget("S-A", amount(100));
    ledger.set_budget("S-B", amount(100));
    // Account total 150 while each strategy alone could spend 100.
    ledger.set_account_budget(amount(150));

    // Strategy A spends 100 (within its own budget and the account total).
    let a = ledger.try_tentative_buy("S-A", amount(100)).unwrap();
    ledger.commit(a).unwrap();

    // Strategy B has its own budget but the account is exhausted.
    let err = ledger.try_tentative_buy("S-B", amount(60)).unwrap_err();
    assert!(matches!(err, QuotaError::AccountBudget { .. }));
    assert_eq!(ledger.account_available(), amount(50));

    // Releasing A's committed reservation restores account capacity.
    ledger.release_committed("S-A", amount(100));
    let b = ledger.try_tentative_buy("S-B", amount(50)).unwrap();
    ledger.commit(b).unwrap();
}

#[test]
fn m2_quota_sell_reserves_holdings_not_cash() {
    let mut ledger = QuotaLedger::new();
    ledger.set_budget("S-A", amount(1000));
    ledger.add_position("S-A", "AAPL.XNAS", amount(10));

    // Selling without holdings is refused regardless of cash budget.
    let err = ledger
        .try_tentative_sell("S-A", "MSFT.XNAS", amount(1))
        .unwrap_err();
    assert!(matches!(err, QuotaError::SellableQuantity { .. }));

    // Selling within holdings reserves quantity, not cash.
    let hold = ledger
        .try_tentative_sell("S-A", "AAPL.XNAS", amount(6))
        .unwrap();
    assert_eq!(ledger.sellable("S-A", "AAPL.XNAS"), amount(4));
    assert_eq!(
        ledger.available("S-A"),
        amount(1000),
        "sell holds do not consume buy budget"
    );

    // A second sell beyond the remainder is refused while the first is held.
    assert!(
        ledger
            .try_tentative_sell("S-A", "AAPL.XNAS", amount(5))
            .is_err()
    );

    // Commit converts the hold; a release path frees quantity again.
    ledger.commit(hold).unwrap();
    assert_eq!(ledger.sellable("S-A", "AAPL.XNAS"), amount(4));
}

#[test]
fn competing_buys_for_one_budget_admit_exactly_one() {
    let mut ledger = QuotaLedger::new();
    ledger.set_budget("ORDERHUB-S001", amount(100));
    let outcomes = [
        ledger.try_tentative("ORDERHUB-S001", amount(60)).is_ok(),
        ledger.try_tentative("ORDERHUB-S001", amount(60)).is_ok(),
    ];
    assert_eq!(outcomes, [true, false]);
    assert_eq!(ledger.available("ORDERHUB-S001"), amount(40));
}

#[test]
fn a_budget_can_be_spent_to_the_last_cent_and_no_further() {
    let mut ledger = QuotaLedger::new();
    ledger.set_budget("S", Amount::new(10000, 2));
    ledger.try_tentative_buy("S", Amount::new(9999, 2)).unwrap();
    assert_eq!(ledger.available("S"), Amount::new(1, 2));
    assert!(ledger.try_tentative_buy("S", Amount::new(11, 3)).is_err());
    ledger.try_tentative_buy("S", Amount::new(10, 3)).unwrap();
    assert_eq!(ledger.available("S"), Amount::zero());
}

#[test]
fn an_unknown_strategy_has_nothing_to_spend() {
    let mut ledger = QuotaLedger::new();
    assert_eq!(ledger.available("nobody"), Amount::zero());
    assert!(ledger.try_tentative_buy("nobody", amount(1)).is_err());
    assert!(ledger.try_tentative_buy("nobody", Amount::zero()).is_ok());
    assert_eq!(ledger.account_available(), Amount::max());
}

#[test]
fn a_rest_of_zero_keeps_its_decimal_places() {
    let mut ledger = QuotaLedger::new();
    ledger.set_budget("S-A", Amount::new(10000, 2));
    ledger.try_tentative_buy("S-A", amount(100)).unwrap();
    assert_eq!(ledger.available("S-A").to_text(), "0.00");
    let refused = ledger.try_tentative_buy("S-A", amount(1)).unwrap_err();
    assert_eq!(
        refused.message(),
        "strategy budget for S-A: requested 1, available 0.00"
    );
    // One that would be below zero has none.
    ledger.set_budget("S-A", Amount::new(9999, 2));
    assert_eq!(ledger.available("S-A").to_text(), "0");
    ledger.add_position("S-A", "AAPL.XNAS", Amount::new(15, 1));
    ledger.try_tentative_sell("S-A", "AAPL.XNAS", Amount::new(15, 1)).unwrap();
    assert_eq!(ledger.sellable("S-A", "AAPL.XNAS").to_text(), "0.0");
}

#[test]
fn refusals_say_what_was_requested_and_what_is_left() {
    let mut ledger = QuotaLedger::new();
    ledger.set_budget("S-A", Amount::new(1050, 2));
    let strategy = ledger.try_tentative_buy("S-A", amount(11)).unwrap_err();
    assert_eq!(
        strategy.message(),
        "strategy budget for S-A: requested 11, available 10.50"
    );
    let insufficient = ledger.try_tentative("S-A", amount(11)).unwrap_err();
    assert_eq!(
        insufficient.message(),
        "strategy budget for S-A: requested 11, available 10.50"
    );
    ledger.set_account_budget(amount(5));
    let account = ledger.try_tentative_buy("S-A", amount(6)).unwrap_err();
    assert_eq!(account.message(), "account budget: requested 6, available 5");
    let sell = ledger
        .try_tentative_sell("S-A", "AAPL.XNAS", Amount::new(15, 1))
        .unwrap_err();
    assert_eq!(
        sell.message(),
        "sellable quantity for S-A on AAPL.XNAS: requested 1.5, available 0"
    );
    let id = ledger.try_tentative_buy("S-A", amount(1)).unwrap();
    ledger.commit(id).unwrap();
    let unknown = ledger.commit(id).unwrap_err();
    assert_eq!(unknown, QuotaError::UnknownTentative(id));
    assert_eq!(unknown.message(), "unknown tentative reservation 1");
}

#[test]
fn a_refusal_leaves_the_ledger_unchanged() {
    let mut ledger = QuotaLedger::new();
    ledger.set_budget("S-A", amount(100));
    ledger.set_account_budget(amount(40));
    assert!(ledger.try_tentative_buy("S-A", amount(50)).is_err());
    assert_eq!(ledger.available("S-A"), amount(100));
    assert_eq!(ledger.account_available(), amount(40));
}

#[test]
fn confirmed_notional_is_given_back_down_to_zero_at_most() {
    let mut ledger = QuotaLedger::new();
    ledger.set_budget("S", amount(100));
    ledger.release_committed("S", amount(10));
    assert_eq!(ledger.available("S"), amount(100));
    let id = ledger.try_tentative_buy("S", amount(30)).unwrap();
    ledger.commit(id).unwrap();
    ledger.release_committed("S", amount(500));
    assert_eq!(ledger.available("S"), amount(100));
}

#[test]
fn holdings_add_up_by_strategy_and_instrument() {
    let mut ledger = QuotaLedger::new();
    ledger.add_position("S", "AAPL.GOX", Amount::new(15, 1));
    ledger.add_position("S", "AAPL.GOX", Amount::new(25, 1));
    ledger.add_position("S", "IBM.GOX", amount(7));
    assert_eq!(ledger.sellable("S", "AAPL.GOX"), amount(4));
    assert_eq!(ledger.sellable("S", "IBM.GOX"), amount(7));
    assert_eq!(ledger.sellable("T", "AAPL.GOX"), Amount::zero());
}

#[test]
fn amounts_out_of_range_are_reported_and_change_nothing() {
    let mut ledger = QuotaLedger::new();
    ledger.add_position("S", "X.GOX", Amount::max());
    assert!(ledger.checked_add_position("S", "X.GOX", Amount::max()).is_none());
    assert_eq!(ledger.sellable("S", "X.GOX"), Amount::max());

    ledger.set_budget("S", Amount::max());
    let id = ledger.try_tentative_buy("S", Amount::max()).unwrap();
    ledger.commit(id).unwrap();
    ledger.set_budget("T", Amount::max());
    ledger.set_account_budget(Amount::max());
    assert_eq!(ledger.checked_account_available(), Some(Amount::zero()));
    assert!(ledger.checked_available("S").is_some());
    assert!(ledger.checked_sellable("S", "X.GOX").is_some());
    assert!(matches!(
        ledger.checked_try_tentative_buy("T", amount(1)),
        Some(Err(QuotaError::AccountBudget { .. }))
    ));
    assert!(matches!(ledger.checked_try_tentative("S", amount(1)), Some(Err(_))));
    assert!(matches!(
        ledger.checked_try_tentative_sell("S", "X.GOX", amount(1)),
        Some(Ok(_))
    ));
    assert!(ledger.checked_release_committed("S", amount(-1)).is_none());
    assert_eq!(ledger.available("S"), Amount::zero());
}

#[test]
fn holdings_can_be_sold_out_and_no_further() {
    let mut ledger = QuotaLedger::new();
    ledger.add_position("S", "X.GOX", Amount::max());
    let all = ledger.try_tentative_sell("S", "X.GOX", Amount::max()).unwrap();
    assert!(matches!(ledger.checked_commit(all), Some(Ok(()))));
    assert!(matches!(ledger.checked_commit(all), Some(Err(QuotaError::UnknownTentative(_)))));
    assert_eq!(ledger.sellable("S", "X.GOX"), Amount::zero());
    assert!(ledger.try_tentative_sell("S", "X.GOX", Amount::new(1, 28)).is_err());
    let none = ledger.try_tentative_sell("S", "Y.GOX", amount(0)).unwrap();
    ledger.release_tentative(none).unwrap();
    assert!(ledger.release_tentative(none).is_err());
}

#[test]
fn amounts_compare_and_print_by_value_and_scale() {
    assert_eq!(Amount::new(150, 2), Amount::new(15, 1));
    assert!(Amount::new(151, 2).exceeds(Amount::new(15, 1)));
    assert!(!Amount::new(15, 1).exceeds(Amount::new(150, 2)));
    assert_eq!(Amount::new(-5, 3).to_text(), "-0.005");
    assert_eq!(Amount::new(15000, 2).to_text(), "150.00");
    assert_eq!(Amount::zero().to_text(), "0");
    assert_eq!(Amount::max().to_text(), "79228162514264337593543950335");
    assert!(Amount::new(1, 28).is_positive());
    assert_eq!(Amount::new(-1, 0).or_zero(), Amount::zero());
}

#[test]
fn amounts_add_subtract_and_multiply_exactly() {
    let a = Amount::new(15025, 2);
    let b = Amount::new(1, 3);
    assert_eq!(a.checked_add(b).unwrap().to_text(), "150.251");
    assert_eq!(a.checked_sub(b).unwrap().to_text(), "150.249");
    assert_eq!(a.checked_mul(Amount::new(10, 0)).unwrap().to_text(), "1502.50");
    assert!(Amount::max().checked_add(Amount::new(1, 0)).is_none());
    assert!(Amount::max().checked_mul(Amount::new(2, 0)).is_none());
    assert!(Amount::new(-1, 0).checked_sub(Amount::max()).is_none());
}

#[test]
fn amounts_are_read_from_text() {
    assert_eq!(Amount::parse("150.00").unwrap().to_text(), "150.00");
    assert_eq!(Amount::parse("-0.5").unwrap(), Amount::new(-5, 1));
    assert!(Amount::parse("abc").is_err());
    assert!(!Amount::parse("").unwrap_err().is_empty());
}
