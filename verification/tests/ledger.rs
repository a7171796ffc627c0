use kitties::erc20::{Erc20, Error, Event, SetAllowance, Transfer};

#[test]
fn create_contract_works() {
    let erc20 = Erc20::new(1, 1000);
    assert_eq!(erc20.total_supply(), 1000);
}

#[test]
fn new_ledger_credits_creator() {
    let erc20 = Erc20::new(1, 1000);
    assert_eq!(erc20.balance_of(1), 1000);
    assert_eq!(erc20.balance_of(2), 0);
    assert_eq!(erc20.allowance(1, 2), 0);
}

#[test]
fn transfer_moves_balance_and_records_event() {
    let mut erc20 = Erc20::new(1, 1000);
    assert_eq!(erc20.transfer(1, 2, 300), Ok(()));
    assert_eq!(erc20.balance_of(1), 700);
    assert_eq!(erc20.balance_of(2), 300);
    assert_eq!(
        erc20.events().as_slice(),
        &[Event::Transfer(Transfer { from: 1, to: 2, value: 300 })]
    );
}

#[test]
fn transfer_beyond_balance_fails() {
    let mut erc20 = Erc20::new(1, 1000);
    assert_eq!(erc20.transfer(1, 2, 1001), Err(Error::InSufficientBalance));
    assert_eq!(erc20.balance_of(1), 1000);
    assert_eq!(erc20.balance_of(2), 0);
}

#[test]
fn allowance_set_and_spent() {
    let mut erc20 = Erc20::new(1, 1000);
    assert_eq!(erc20.set_allowance(1, 2, 400), Ok(()));
    assert_eq!(erc20.allowance(1, 2), 400);
    assert_eq!(
        erc20.events().as_slice(),
        &[Event::SetAllowance(SetAllowance { owner: 1, spender: 2, value: 400 })]
    );

    // account 2 spends 150 of it, moving funds from 1 to 3
    assert_eq!(erc20.transfer_from(2, 1, 3, 150), Ok(()));
    assert_eq!(erc20.balance_of(1), 850);
    assert_eq!(erc20.balance_of(3), 150);
    assert_eq!(erc20.allowance(1, 2), 250);
}

#[test]
fn transfer_from_beyond_allowance_fails() {
    let mut erc20 = Erc20::new(1, 1000);
    assert_eq!(erc20.set_allowance(1, 2, 100), Ok(()));
    assert_eq!(
        erc20.transfer_from(2, 1, 3, 150),
        Err(Error::InSufficientAllowance)
    );
    assert_eq!(erc20.balance_of(1), 1000);
    assert_eq!(erc20.allowance(1, 2), 100);
}

#[test]
fn burn_shrinks_supply() {
    let mut erc20 = Erc20::new(1, 1000);
    assert_eq!(erc20.burn(1, 400), Ok(()));
    assert_eq!(erc20.balance_of(1), 600);
    assert_eq!(erc20.total_supply(), 600);
    assert_eq!(erc20.burn(1, 601), Err(Error::InSufficientBalance));
}

#[test]
fn issue_grows_supply_for_issuer_only() {
    let mut erc20 = Erc20::new(1, 1000);
    assert_eq!(erc20.issue(2, 50), Err(Error::IssuePermissionDenied));
    assert_eq!(erc20.issue(1, 50), Ok(()));
    assert_eq!(erc20.total_supply(), 1050);
    assert_eq!(erc20.balance_of(1), 1050);
}
