//! Scenario and boundary tests: the stake escrow bookkeeping, the
//! crossover algorithm on concrete values, the event log, and the
//! ledger's own refusal rules.

use kitties::Config;
use kitties::CounterSeed;
use kitties::Error;
use kitties::Event;
use kitties::Ledger;
use kitties::LedgerError;
use kitties::Pallet;
use kitties::genome::cross;
use kitties::randomness::derive_genome;

const STAKE: u128 = 10_000;

fn funded_pallet(balances: &[(u64, u128)], existential_deposit: u128) -> Pallet<CounterSeed> {
    let mut ledger = Ledger::new(existential_deposit);
    for (account, amount) in balances {
        ledger.deposit(*account, *amount);
    }
    Pallet::new(Config { stake_amount: STAKE }, ledger, CounterSeed::new(7))
}

#[test]
fn cross_with_all_ones_selector_returns_first_parent() {
    let a: [u8; 16] = [0x12; 16];
    let b: [u8; 16] = [0xCD; 16];
    assert_eq!(cross(&a, &b, &[0xFF; 16]), a);
}

#[test]
fn cross_with_all_zeros_selector_returns_second_parent() {
    let a: [u8; 16] = [0x12; 16];
    let b: [u8; 16] = [0xCD; 16];
    assert_eq!(cross(&a, &b, &[0x00; 16]), b);
}

#[test]
fn cross_mixes_bit_by_bit() {
    let a: [u8; 16] = [0xF0; 16];
    let b: [u8; 16] = [0x0F; 16];
    let sel: [u8; 16] = [0xAA; 16];
    // (0xF0 & 0xAA) | (0x0F & 0x55) == 0xA0 | 0x05
    assert_eq!(cross(&a, &b, &sel), [0xA5; 16]);
}

#[test]
fn derived_genome_is_not_the_seed() {
    let seed: [u8; 16] = [0x11; 16];
    let genome = derive_genome(&seed, 1, 0);
    assert_ne!(genome, seed);
    let again = derive_genome(&seed, 1, 0);
    assert_eq!(genome, again);
}

#[test]
fn create_assigns_id_zero_and_reserves_stake() {
    let mut pallet = funded_pallet(&[(1, 1_000_000)], 1);
    assert_eq!(pallet.create(1), Ok(0));
    assert_eq!(pallet.kitty_owner(0), Some(1));
    assert_eq!(pallet.reserved_balance_of(1), STAKE);
    assert_eq!(pallet.free_balance_of(1), 1_000_000 - STAKE);
    assert_eq!(pallet.next_kitty_id(), 1);
    assert!(pallet.kitties(0).is_some());
    let events = pallet.events();
    assert_eq!(events[events.len() - 1], Event::KittyCreated(1, 0));
}

#[test]
fn breed_assigns_next_id_to_caller() {
    let mut pallet = funded_pallet(&[(1, 1_000_000), (2, 1_000_000)], 1);
    assert_eq!(pallet.create(1), Ok(0));
    assert_eq!(pallet.create(2), Ok(1));
    assert_eq!(pallet.breed(1, 0, 1), Ok(2));
    assert_eq!(pallet.kitty_owner(2), Some(1));
    assert_eq!(pallet.next_kitty_id(), 3);
    assert_eq!(pallet.reserved_balance_of(1), 2 * STAKE);
    let child = pallet.kitties(2).unwrap();
    let events = pallet.events();
    assert_eq!(events[events.len() - 1], Event::KittyBred(1, 2, child));
}

#[test]
fn buy_moves_ownership_listing_stake_and_payment() {
    let price: u128 = 1_500;
    let mut pallet = funded_pallet(&[(1, 1_000_000), (2, 1_000_000)], 1);
    assert_eq!(pallet.create(1), Ok(0));
    assert!(pallet.sell(1, 0, Some(price)).is_ok());
    assert!(pallet.buy(2, 0).is_ok());
    assert_eq!(pallet.kitty_owner(0), Some(2));
    assert_eq!(pallet.kitties_list_for_sales(0), None);
    assert_eq!(pallet.reserved_balance_of(1), 0);
    assert_eq!(pallet.reserved_balance_of(2), STAKE);
    assert_eq!(pallet.free_balance_of(1), 1_000_000 - STAKE + STAKE + price);
    assert_eq!(pallet.free_balance_of(2), 1_000_000 - STAKE - price);
    let events = pallet.events();
    assert_eq!(events[events.len() - 1], Event::KittyTransferred(1, 2, 0));
}

#[test]
fn buy_not_for_sale_changes_nothing() {
    let mut pallet = funded_pallet(&[(1, 1_000_000), (2, 1_000_000)], 1);
    assert_eq!(pallet.create(1), Ok(0));
    assert!(pallet.sell(1, 0, None).is_ok());
    let events_before = pallet.events().len();
    assert_eq!(pallet.buy(2, 0), Err(Error::NotForSale));
    assert_eq!(pallet.kitty_owner(0), Some(1));
    assert_eq!(pallet.reserved_balance_of(1), STAKE);
    assert_eq!(pallet.reserved_balance_of(2), 0);
    assert_eq!(pallet.free_balance_of(2), 1_000_000);
    assert_eq!(pallet.events().len(), events_before);
}

#[test]
fn create_below_stake_changes_nothing() {
    let mut pallet = funded_pallet(&[(9, STAKE - 1)], 1);
    assert_eq!(pallet.create(9), Err(Error::NotEnoughBalance));
    assert_eq!(pallet.next_kitty_id(), 0);
    assert!(pallet.kitties(0).is_none());
    assert_eq!(pallet.reserved_balance_of(9), 0);
    assert_eq!(pallet.free_balance_of(9), STAKE - 1);
    assert_eq!(pallet.events().len(), 0);
}

#[test]
fn create_with_exact_stake_succeeds() {
    let mut pallet = funded_pallet(&[(9, STAKE)], 1);
    assert_eq!(pallet.create(9), Ok(0));
    assert_eq!(pallet.free_balance_of(9), 0);
    assert_eq!(pallet.reserved_balance_of(9), STAKE);
}

#[test]
fn create_on_full_counter_charges_nobody() {
    let mut pallet = funded_pallet(&[(1, 1_000_000)], 1);
    pallet.set_next_kitty_id(u32::MAX);
    assert_eq!(pallet.create(1), Err(Error::KittyIdOverflow));
    assert_eq!(pallet.next_kitty_id(), u32::MAX);
    assert_eq!(pallet.reserved_balance_of(1), 0);
    assert_eq!(pallet.free_balance_of(1), 1_000_000);
}

#[test]
fn buy_with_exactly_price_plus_stake_is_refused() {
    let price: u128 = 1_500;
    let mut pallet = funded_pallet(&[(1, 1_000_000), (4, price + STAKE)], 1);
    assert_eq!(pallet.create(1), Ok(0));
    assert!(pallet.sell(1, 0, Some(price)).is_ok());
    assert_eq!(pallet.buy(4, 0), Err(Error::NotEnoughBalance));
    assert_eq!(pallet.kitty_owner(0), Some(1));
    assert_eq!(pallet.free_balance_of(4), price + STAKE);
    assert_eq!(pallet.reserved_balance_of(4), 0);
}

#[test]
fn buy_with_one_above_price_plus_stake_succeeds() {
    let price: u128 = 1_500;
    let mut pallet = funded_pallet(&[(1, 1_000_000), (4, price + STAKE + 1)], 1);
    assert_eq!(pallet.create(1), Ok(0));
    assert!(pallet.sell(1, 0, Some(price)).is_ok());
    assert!(pallet.buy(4, 0).is_ok());
    assert_eq!(pallet.kitty_owner(0), Some(4));
    assert_eq!(pallet.free_balance_of(4), 1);
    assert_eq!(pallet.reserved_balance_of(4), STAKE);
}

#[test]
fn buy_rolls_back_when_payment_would_kill_buyer() {
    // With an existential deposit of 2, a buyer one unit above price plus
    // stake passes the balance check but the payment would leave it at 1.
    let price: u128 = 1_500;
    let mut pallet = funded_pallet(&[(1, 1_000_000), (5, price + STAKE + 1)], 2);
    assert_eq!(pallet.create(1), Ok(0));
    assert!(pallet.sell(1, 0, Some(price)).is_ok());
    let events_before = pallet.events().len();
    assert_eq!(pallet.buy(5, 0), Err(Error::TransferFailed));
    assert_eq!(pallet.kitty_owner(0), Some(1));
    assert_eq!(pallet.kitties_list_for_sales(0), Some(price));
    assert_eq!(pallet.free_balance_of(5), price + STAKE + 1);
    assert_eq!(pallet.reserved_balance_of(5), 0);
    assert_eq!(pallet.reserved_balance_of(1), STAKE);
    assert_eq!(pallet.events().len(), events_before);
}

#[test]
fn transfer_moves_the_stake_with_the_asset() {
    let mut pallet = funded_pallet(&[(1, 1_000_000), (2, 1_000_000)], 1);
    assert_eq!(pallet.create(1), Ok(0));
    assert!(pallet.transfer(1, 0, 2).is_ok());
    assert_eq!(pallet.reserved_balance_of(1), 0);
    assert_eq!(pallet.reserved_balance_of(2), STAKE);
    assert_eq!(pallet.free_balance_of(1), 1_000_000);
    assert_eq!(pallet.free_balance_of(2), 1_000_000 - STAKE);
    let events = pallet.events();
    assert_eq!(events[events.len() - 1], Event::KittyTransferred(1, 2, 0));
}

#[test]
fn transfer_to_self_changes_no_balance() {
    let mut pallet = funded_pallet(&[(1, 1_000_000)], 1);
    assert_eq!(pallet.create(1), Ok(0));
    assert!(pallet.transfer(1, 0, 1).is_ok());
    assert_eq!(pallet.kitty_owner(0), Some(1));
    assert_eq!(pallet.reserved_balance_of(1), STAKE);
    assert_eq!(pallet.free_balance_of(1), 1_000_000 - STAKE);
}

#[test]
fn sell_emits_listing_event_and_overwrites() {
    let mut pallet = funded_pallet(&[(1, 1_000_000)], 1);
    assert_eq!(pallet.create(1), Ok(0));
    assert!(pallet.sell(1, 0, Some(9)).is_ok());
    assert!(pallet.sell(1, 0, Some(11)).is_ok());
    assert_eq!(pallet.kitties_list_for_sales(0), Some(11));
    let events = pallet.events();
    assert_eq!(events[events.len() - 1], Event::KittyInSell(1, 0, Some(11)));
}

#[test]
fn lookups_outside_the_record_return_nothing() {
    let mut pallet = funded_pallet(&[(1, 1_000_000)], 1);
    assert!(pallet.kitties(0).is_none());
    assert!(pallet.kitty_owner(0).is_none());
    assert_eq!(pallet.kitties_list_for_sales(0), None);
    assert_eq!(pallet.create(1), Ok(0));
    assert!(pallet.kitty_owner(1).is_none());
}

#[test]
fn ledger_reserve_refuses_short_free_balance() {
    let mut ledger = Ledger::new(1);
    ledger.deposit(1, 5);
    assert_eq!(ledger.reserve(1, 6), Err(LedgerError::InsufficientFree));
    assert_eq!(ledger.free_balance(1), 5);
    assert!(ledger.reserve(1, 5).is_ok());
    assert_eq!(ledger.reserved_balance(1), 5);
}

#[test]
fn ledger_transfer_keeps_the_payer_alive() {
    let mut ledger = Ledger::new(10);
    ledger.deposit(1, 100);
    ledger.deposit(2, 50);
    assert_eq!(ledger.transfer(1, 2, 95), Err(LedgerError::WouldKillPayer));
    assert_eq!(ledger.transfer(1, 2, 200), Err(LedgerError::InsufficientFree));
    assert!(ledger.transfer(1, 2, 90).is_ok());
    assert_eq!(ledger.free_balance(1), 10);
    assert_eq!(ledger.free_balance(2), 140);
}

#[test]
fn ledger_transfer_respects_recipient_minimum_and_overflow() {
    let mut ledger = Ledger::new(10);
    ledger.deposit(1, 100);
    assert_eq!(ledger.transfer(1, 2, 5), Err(LedgerError::RecipientBelowMinimum));
    let mut full = Ledger::new(0);
    full.deposit(1, 100);
    full.deposit(2, u128::MAX - 10);
    assert_eq!(full.transfer(1, 2, 20), Err(LedgerError::BalanceOverflow));
}
