//! The five operations exercised end to end: one registry per test,
//! accounts 1 and 2 well funded, account 3 short of one stake.

use kitties::Config;
use kitties::CounterSeed;
use kitties::Error;
use kitties::Ledger;
use kitties::Pallet;

const STAKE: u128 = 10_000;

fn new_test_pallet() -> Pallet<CounterSeed> {
    let mut ledger = Ledger::new(1);
    ledger.deposit(1, 10_000_000);
    ledger.deposit(2, 10_000_000);
    ledger.deposit(3, 9_000);
    Pallet::new(Config { stake_amount: STAKE }, ledger, CounterSeed::new(0))
}

#[test]
fn create_works() {
    let mut pallet = new_test_pallet();
    assert!(pallet.create(1).is_ok());
    assert_eq!(pallet.next_kitty_id(), 1);
    assert_eq!(pallet.kitty_owner(0), Some(1));
}

#[test]
fn create_failed_when_kittyid_overflow() {
    let mut pallet = new_test_pallet();
    pallet.set_next_kitty_id(u32::MAX);
    assert_eq!(pallet.create(1), Err(Error::KittyIdOverflow));
}

#[test]
fn create_failed_when_not_enough_balance_for_staking() {
    let mut pallet = new_test_pallet();
    assert_eq!(pallet.create(3), Err(Error::NotEnoughBalance));
}

#[test]
fn transfer_works() {
    let mut pallet = new_test_pallet();
    assert!(pallet.create(1).is_ok());
    assert!(pallet.transfer(1, 0, 2).is_ok());
    assert_eq!(pallet.kitty_owner(0), Some(2));
}

#[test]
fn transfer_failed_when_not_owner() {
    let mut pallet = new_test_pallet();
    assert!(pallet.create(1).is_ok());
    assert_eq!(pallet.transfer(2, 0, 3), Err(Error::NotOwner));
}

#[test]
fn transfer_failed_when_new_owner_not_enough_balance() {
    let mut pallet = new_test_pallet();
    assert!(pallet.create(1).is_ok());
    assert_eq!(pallet.transfer(1, 0, 3), Err(Error::NotEnoughBalance));
}

#[test]
fn breed_works() {
    let mut pallet = new_test_pallet();
    assert!(pallet.create(1).is_ok());
    assert!(pallet.create(2).is_ok());
    assert!(pallet.breed(1, 0, 1).is_ok());
    assert_eq!(pallet.next_kitty_id(), 3);
}

#[test]
fn breed_failed_when_invalid_kitty_id() {
    let mut pallet = new_test_pallet();
    assert!(pallet.create(1).is_ok());
    assert!(pallet.create(2).is_ok());
    assert_eq!(pallet.breed(1, 0, 3), Err(Error::InvalidKittyId));
}

#[test]
fn breed_failed_when_same_parent() {
    let mut pallet = new_test_pallet();
    assert!(pallet.create(1).is_ok());
    assert!(pallet.create(2).is_ok());
    assert_eq!(pallet.breed(1, 0, 0), Err(Error::SameKittyId));
}

#[test]
fn breed_failed_when_not_enough_balance_for_staking() {
    let mut pallet = new_test_pallet();
    assert!(pallet.create(1).is_ok());
    assert!(pallet.create(2).is_ok());
    assert_eq!(pallet.breed(3, 0, 1), Err(Error::NotEnoughBalance));
}

#[test]
fn sell_works() {
    let mut pallet = new_test_pallet();
    assert!(pallet.create(1).is_ok());
    let price: u128 = 1_500;
    assert!(pallet.sell(1, 0, Some(price)).is_ok());
    assert_eq!(pallet.kitties_list_for_sales(0), Some(price));
}

#[test]
fn sell_failed_when_not_owner() {
    let mut pallet = new_test_pallet();
    assert!(pallet.create(1).is_ok());
    let price: u128 = 1_500;
    assert_eq!(pallet.sell(3, 0, Some(price)), Err(Error::NotOwner));
}

#[test]
fn buy_works() {
    let mut pallet = new_test_pallet();
    assert!(pallet.create(1).is_ok());
    let price: u128 = 1_500;
    assert!(pallet.sell(1, 0, Some(price)).is_ok());
    assert!(pallet.buy(2, 0).is_ok());
    assert_eq!(pallet.kitty_owner(0), Some(2));
}

#[test]
fn buy_failed_when_buyer_is_owner() {
    let mut pallet = new_test_pallet();
    assert!(pallet.create(1).is_ok());
    let price: u128 = 1_500;
    assert!(pallet.sell(1, 0, Some(price)).is_ok());
    assert_eq!(pallet.buy(1, 0), Err(Error::NoBuySelf));
}

#[test]
fn buy_failed_when_not_for_sale() {
    let mut pallet = new_test_pallet();
    assert!(pallet.create(1).is_ok());
    assert!(pallet.sell(1, 0, None).is_ok());
    assert_eq!(pallet.buy(2, 0), Err(Error::NotForSale));
}

#[test]
fn buy_failed_when_not_enough_balance() {
    let mut pallet = new_test_pallet();
    assert!(pallet.create(1).is_ok());
    assert!(pallet.sell(1, 0, Some(1_500)).is_ok());
    assert_eq!(pallet.buy(3, 0), Err(Error::NotEnoughBalance));
}
