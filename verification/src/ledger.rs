//! An in-memory ledger of fungible balances: one free and one reserved
//! amount per account. It offers the reserve / unreserve / transfer
//! primitives that the asset operations stake and pay through, with the
//! rules a minimum-balance-keeping ledger enforces: a transfer may not
//! drive the payer below the existential deposit, and a recipient must end
//! up at or above it.

use std::collections::HashMap;
use vstd::prelude::*;

verus! {

broadcast use vstd::std_specs::hash::group_hash_axioms;

/// The balances of one account: the freely spendable part and the part
/// reserved (bonded) against it.
#[derive(Clone, Copy, PartialEq, Eq, Debug)]
pub struct AccountData {
    pub free: u128,
    pub reserved: u128,
}

/// Why a ledger primitive refused to move funds.
#[derive(Clone, Copy, PartialEq, Eq, Debug, Structural)]
pub enum LedgerError {
    /// The payer's free balance is smaller than the amount asked for.
    InsufficientFree,
    /// The move would leave the payer's free balance below the
    /// existential deposit.
    WouldKillPayer,
    /// The move would leave the recipient's total balance below the
    /// existential deposit.
    RecipientBelowMinimum,
    /// The recipient's balance would exceed the largest representable
    /// amount.
    BalanceOverflow,
}

/// Per-account balances with a fixed existential deposit.
pub struct Ledger {
    existential_deposit: u128,
    accounts: HashMap<u64, AccountData>,
}

impl Ledger {
    /// The minimum total balance an account must keep to stay alive.
    pub closed spec fn ed(&self) -> u128 {
        self.existential_deposit
    }

    /// The free balance of an account; an account never seen holds zero.
    pub closed spec fn free_of(&self, a: u64) -> u128 {
        if self.accounts@.contains_key(a) {
            self.accounts@[a].free
        } else {
            0
        }
    }

    /// The reserved balance of an account; an account never seen holds zero.
    pub closed spec fn reserved_of(&self, a: u64) -> u128 {
        if self.accounts@.contains_key(a) {
            self.accounts@[a].reserved
        } else {
            0
        }
    }

    /// Every account's total balance is representable, so moving funds
    /// between the free and the reserved part can never overflow.
    pub closed spec fn wf(&self) -> bool {
        forall|a: u64|
            #![trigger self.free_of(a)]
            self.free_of(a) + self.reserved_of(a) <= u128::MAX
    }

    /// An empty ledger: no account holds anything.
    pub fn new(existential_deposit: u128) -> (r: Ledger)
        ensures
            r.wf(),
            r.ed() == existential_deposit,
            forall|a: u64| r.free_of(a) == 0 && r.reserved_of(a) == 0,
    {
        Ledger { existential_deposit, accounts: HashMap::new() }
    }

    /// Add `amount` to an account's free balance (issuance for setting up
    /// a ledger; not one of the transactional primitives).
    pub fn deposit(&mut self, a: u64, amount: u128)
        requires
            old(self).wf(),
            old(self).free_of(a) + old(self).reserved_of(a) + amount <= u128::MAX,
        ensures
            final(self).wf(),
            final(self).ed() == old(self).ed(),
            final(self).free_of(a) == old(self).free_of(a) + amount,
            final(self).reserved_of(a) == old(self).reserved_of(a),
            forall|b: u64|
                b != a ==> final(self).free_of(b) == old(self).free_of(b)
                    && final(self).reserved_of(b) == old(self).reserved_of(b),
    {
        let entry = self.lookup(a);
        let updated = AccountData { free: entry.free + amount, reserved: entry.reserved };
        self.accounts.insert(a, updated);
        proof {
            assert forall|b: u64| #[trigger] self.free_of(b) + self.reserved_of(b)
                <= u128::MAX by {
                assert(old(self).free_of(b) + old(self).reserved_of(b) <= u128::MAX);
            }
        }
    }

    /// The free balance of `a`.
    pub fn free_balance(&self, a: u64) -> (r: u128)
        ensures
            r == self.free_of(a),
    {
        self.lookup(a).free
    }

    /// The reserved balance of `a`.
    pub fn reserved_balance(&self, a: u64) -> (r: u128)
        ensures
            r == self.reserved_of(a),
    {
        self.lookup(a).reserved
    }

    /// Move `amount` from the free to the reserved balance of `a`.
    /// Fails, moving nothing, exactly when the free balance is too small.
    pub fn reserve(&mut self, a: u64, amount: u128) -> (r: Result<(), LedgerError>)
        requires
            old(self).wf(),
        ensures
            final(self).wf(),
            final(self).ed() == old(self).ed(),
            r is Ok <==> old(self).free_of(a) >= amount,
            r is Ok ==> final(self).free_of(a) == old(self).free_of(a) - amount
                && final(self).reserved_of(a) == old(self).reserved_of(a) + amount,
            r is Err ==> *final(self) == *old(self) && r == Err::<(), LedgerError>(
                LedgerError::InsufficientFree,
            ),
            forall|b: u64|
                b != a ==> final(self).free_of(b) == old(self).free_of(b)
                    && final(self).reserved_of(b) == old(self).reserved_of(b),
    {
        let entry = self.lookup(a);
        if entry.free < amount {
            return Err(LedgerError::InsufficientFree);
        }
        let updated = AccountData { free: entry.free - amount, reserved: entry.reserved + amount };
        self.accounts.insert(a, updated);
        proof {
            assert forall|b: u64| #[trigger] self.free_of(b) + self.reserved_of(b)
                <= u128::MAX by {
                assert(old(self).free_of(b) + old(self).reserved_of(b) <= u128::MAX);
            }
        }
        Ok(())
    }

    /// Move back from the reserved to the free balance of `a` as much of
    /// `amount` as is actually reserved; return how much moved.
    pub fn unreserve(&mut self, a: u64, amount: u128) -> (moved: u128)
        requires
            old(self).wf(),
        ensures
            final(self).wf(),
            final(self).ed() == old(self).ed(),
            moved == if old(self).reserved_of(a) < amount {
                old(self).reserved_of(a)
            } else {
                amount
            },
            final(self).free_of(a) == old(self).free_of(a) + moved,
            final(self).reserved_of(a) == old(self).reserved_of(a) - moved,
            forall|b: u64|
                b != a ==> final(self).free_of(b) == old(self).free_of(b)
                    && final(self).reserved_of(b) == old(self).reserved_of(b),
    {
        let entry = self.lookup(a);
        let moved: u128 = if entry.reserved < amount {
            entry.reserved
        } else {
            amount
        };
        let updated = AccountData { free: entry.free + moved, reserved: entry.reserved - moved };
        self.accounts.insert(a, updated);
        proof {
            assert forall|b: u64| #[trigger] self.free_of(b) + self.reserved_of(b)
                <= u128::MAX by {
                assert(old(self).free_of(b) + old(self).reserved_of(b) <= u128::MAX);
            }
        }
        moved
    }

    /// Whether `transfer` of `amount` from `from` to `to` succeeds on this
    /// ledger state.
    pub open spec fn can_transfer(&self, from: u64, to: u64, amount: u128) -> bool {
        &&& self.free_of(from) >= amount
        &&& self.free_of(from) - amount >= self.ed()
        &&& from != to ==> self.free_of(to) + self.reserved_of(to) + amount <= u128::MAX
        &&& from != to ==> self.free_of(to) + self.reserved_of(to) + amount >= self.ed()
    }

    /// Pay `amount` of free balance from `from` to `to`, keeping the payer
    /// alive: the payer's free balance may not fall below the existential
    /// deposit, and the recipient's total must end at or above it. Fails,
    /// moving nothing, exactly when one of those rules would break.
    pub fn transfer(&mut self, from: u64, to: u64, amount: u128) -> (r: Result<(), LedgerError>)
        requires
            old(self).wf(),
        ensures
            final(self).wf(),
            final(self).ed() == old(self).ed(),
            r is Ok <==> old(self).can_transfer(from, to, amount),
            r is Err ==> *final(self) == *old(self),
            r is Ok && from != to ==> final(self).free_of(from) == old(self).free_of(from) - amount
                && final(self).free_of(to) == old(self).free_of(to) + amount,
            r is Ok && from == to ==> final(self).free_of(from) == old(self).free_of(from),
            final(self).reserved_of(from) == old(self).reserved_of(from),
            final(self).reserved_of(to) == old(self).reserved_of(to),
            forall|b: u64|
                b != from && b != to ==> final(self).free_of(b) == old(self).free_of(b)
                    && final(self).reserved_of(b) == old(self).reserved_of(b),
    {
        let payer = self.lookup(from);
        if payer.free < amount {
            return Err(LedgerError::InsufficientFree);
        }
        if payer.free - amount < self.existential_deposit {
            return Err(LedgerError::WouldKillPayer);
        }
        if from == to {
            return Ok(());
        }
        let recipient = self.lookup(to);
        if amount > u128::MAX - recipient.free || recipient.free + amount > u128::MAX
            - recipient.reserved {
            return Err(LedgerError::BalanceOverflow);
        }
        if recipient.free + recipient.reserved + amount < self.existential_deposit {
            return Err(LedgerError::RecipientBelowMinimum);
        }
        let paid = AccountData { free: payer.free - amount, reserved: payer.reserved };
        self.accounts.insert(from, paid);
        let received = AccountData { free: recipient.free + amount, reserved: recipient.reserved };
        self.accounts.insert(to, received);
        proof {
            assert forall|b: u64| #[trigger] self.free_of(b) + self.reserved_of(b)
                <= u128::MAX by {
                assert(old(self).free_of(b) + old(self).reserved_of(b) <= u128::MAX);
            }
        }
        Ok(())
    }

    /// The stored balances of `a`, defaulting to all-zero.
    fn lookup(&self, a: u64) -> (r: AccountData)
        ensures
            r.free == self.free_of(a),
            r.reserved == self.reserved_of(a),
    {
        match self.accounts.get(&a) {
            Some(entry) => *entry,
            None => AccountData { free: 0, reserved: 0 },
        }
    }
}

} // verus!
