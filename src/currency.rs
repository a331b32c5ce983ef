use std::collections::HashMap;
use vstd::prelude::*;

use crate::locks::{find_frozen, find_lock, frozen_in, lemma_push, lemma_without, lock_in, remove_entries};
use crate::types::{AccountId, Balance, CurrencyError, LockId};

verus! {

broadcast use vstd::std_specs::hash::group_hash_axioms;

/// The collateral system that stashes lock and voters reserve against.
///
/// The spec functions describe the collateral state of each account; each
/// operation states how it changes them, and that it changes nothing of any
/// other account.
pub trait Currency: Sized {
    /// The smallest amount an account may hold.
    spec fn min_balance(&self) -> Balance;

    /// The free balance of `who`.
    spec fn free_of(&self, who: AccountId) -> Balance;

    /// The amount of the lock `id` on `who`, zero where there is none.
    spec fn lock_of(&self, who: AccountId, id: LockId) -> Balance;

    /// The amount currently reserved from `who`.
    spec fn reserved_of(&self, who: AccountId) -> Balance;

    /// The number of consumer references registered on `who`.
    spec fn consumers_of(&self, who: AccountId) -> nat;

    /// Whether `who` can register one more consumer reference.
    spec fn can_take_consumer(&self, who: AccountId) -> bool;

    /// The error a consumer registration on `who` fails with, where it fails.
    spec fn consumer_error(&self, who: AccountId) -> CurrencyError;

    /// Whether `amount` can be reserved from `who`.
    spec fn reservable(&self, who: AccountId, amount: Balance) -> bool;

    /// The error a reservation of `amount` from `who` fails with, where it fails.
    spec fn reserve_error(&self, who: AccountId, amount: Balance) -> CurrencyError;

    fn minimum_balance(&self) -> (r: Balance)
        ensures
            r == self.min_balance(),
    ;

    fn free_balance(&self, who: AccountId) -> (r: Balance)
        ensures
            r == self.free_of(who),
    ;

    /// Whether `amount` can be reserved from `who`, without reserving it.
    fn can_reserve(&self, who: AccountId, amount: Balance) -> (r: bool)
        ensures
            r == self.reservable(who, amount),
    ;

    /// Places the lock `id` of `amount` on `who`, replacing any earlier lock
    /// of that identifier.
    fn set_lock(&mut self, id: LockId, who: AccountId, amount: Balance)
        ensures
            final(self).lock_of(who, id) == amount,
            forall|j: LockId| j != id ==> #[trigger] final(self).lock_of(who, j) == old(self).lock_of(who, j),
            final(self).free_of(who) == old(self).free_of(who),
            final(self).reserved_of(who) == old(self).reserved_of(who),
            final(self).consumers_of(who) == old(self).consumers_of(who),
            final(self).min_balance() == old(self).min_balance(),
            forall|x: AccountId| x != who ==> #[trigger] final(self).free_of(x) == old(self).free_of(x),
            forall|x: AccountId, j: LockId|
                x != who ==> #[trigger] final(self).lock_of(x, j) == old(self).lock_of(x, j),
            forall|x: AccountId|
                x != who ==> #[trigger] final(self).reserved_of(x) == old(self).reserved_of(x),
            forall|x: AccountId|
                x != who ==> #[trigger] final(self).consumers_of(x) == old(self).consumers_of(x),
            forall|x: AccountId|
                x != who ==> #[trigger] final(self).can_take_consumer(x) == old(
                    self,
                ).can_take_consumer(x),
            forall|x: AccountId|
                x != who ==> #[trigger] final(self).consumer_error(x) == old(self).consumer_error(x),
            forall|x: AccountId, m: Balance|
                x != who ==> #[trigger] final(self).reservable(x, m) == old(self).reservable(x, m),
            forall|x: AccountId, m: Balance|
                x != who ==> #[trigger] final(self).reserve_error(x, m) == old(self).reserve_error(
                    x,
                    m,
                ),
    ;

    /// Removes the lock `id` on `who`.
    fn remove_lock(&mut self, id: LockId, who: AccountId)
        ensures
            final(self).lock_of(who, id) == 0,
            forall|j: LockId| j != id ==> #[trigger] final(self).lock_of(who, j) == old(self).lock_of(who, j),
            final(self).free_of(who) == old(self).free_of(who),
            final(self).reserved_of(who) == old(self).reserved_of(who),
            final(self).consumers_of(who) == old(self).consumers_of(who),
            final(self).min_balance() == old(self).min_balance(),
            forall|x: AccountId| x != who ==> #[trigger] final(self).free_of(x) == old(self).free_of(x),
            forall|x: AccountId, j: LockId|
                x != who ==> #[trigger] final(self).lock_of(x, j) == old(self).lock_of(x, j),
            forall|x: AccountId|
                x != who ==> #[trigger] final(self).reserved_of(x) == old(self).reserved_of(x),
            forall|x: AccountId|
                x != who ==> #[trigger] final(self).consumers_of(x) == old(self).consumers_of(x),
            forall|x: AccountId|
                x != who ==> #[trigger] final(self).can_take_consumer(x) == old(
                    self,
                ).can_take_consumer(x),
            forall|x: AccountId|
                x != who ==> #[trigger] final(self).consumer_error(x) == old(self).consumer_error(x),
            forall|x: AccountId, m: Balance|
                x != who ==> #[trigger] final(self).reservable(x, m) == old(self).reservable(x, m),
            forall|x: AccountId, m: Balance|
                x != who ==> #[trigger] final(self).reserve_error(x, m) == old(self).reserve_error(
                    x,
                    m,
                ),
    ;

    /// Moves `amount` of the free balance of `who` into its reserve.
    fn reserve(&mut self, who: AccountId, amount: Balance) -> (r: Result<(), CurrencyError>)
        ensures
            r is Ok <==> old(self).reservable(who, amount),
            r is Err ==> r == Err::<(), CurrencyError>(old(self).reserve_error(who, amount))
                && *final(self) == *old(self),
            r is Ok ==> {
                &&& amount <= old(self).free_of(who)
                &&& old(self).reserved_of(who) + amount <= Balance::MAX
                &&& final(self).free_of(who) == old(self).free_of(who) - amount
                &&& final(self).reserved_of(who) == old(self).reserved_of(who) + amount
                &&& forall|j: LockId| #[trigger] final(self).lock_of(who, j) == old(self).lock_of(who, j)
                &&& final(self).consumers_of(who) == old(self).consumers_of(who)
            },
            final(self).min_balance() == old(self).min_balance(),
            forall|x: AccountId| x != who ==> #[trigger] final(self).free_of(x) == old(self).free_of(x),
            forall|x: AccountId, j: LockId|
                x != who ==> #[trigger] final(self).lock_of(x, j) == old(self).lock_of(x, j),
            forall|x: AccountId|
                x != who ==> #[trigger] final(self).reserved_of(x) == old(self).reserved_of(x),
            forall|x: AccountId|
                x != who ==> #[trigger] final(self).consumers_of(x) == old(self).consumers_of(x),
            forall|x: AccountId|
                x != who ==> #[trigger] final(self).can_take_consumer(x) == old(
                    self,
                ).can_take_consumer(x),
            forall|x: AccountId|
                x != who ==> #[trigger] final(self).consumer_error(x) == old(self).consumer_error(x),
            forall|x: AccountId, m: Balance|
                x != who ==> #[trigger] final(self).reservable(x, m) == old(self).reservable(x, m),
            forall|x: AccountId, m: Balance|
                x != who ==> #[trigger] final(self).reserve_error(x, m) == old(self).reserve_error(
                    x,
                    m,
                ),
    ;

    /// Moves up to `amount` of the reserve of `who` back to its free
    /// balance, which saturates at the top of the balance range.
    fn unreserve(&mut self, who: AccountId, amount: Balance)
        ensures
            final(self).reserved_of(who) == old(self).reserved_of(who) - unreserved(
                old(self).reserved_of(who),
                amount,
            ),
            final(self).free_of(who) == saturated(
                old(self).free_of(who) + unreserved(old(self).reserved_of(who), amount),
            ),
            forall|j: LockId| #[trigger] final(self).lock_of(who, j) == old(self).lock_of(who, j),
            final(self).consumers_of(who) == old(self).consumers_of(who),
            final(self).min_balance() == old(self).min_balance(),
            forall|x: AccountId| x != who ==> #[trigger] final(self).free_of(x) == old(self).free_of(x),
            forall|x: AccountId, j: LockId|
                x != who ==> #[trigger] final(self).lock_of(x, j) == old(self).lock_of(x, j),
            forall|x: AccountId|
                x != who ==> #[trigger] final(self).reserved_of(x) == old(self).reserved_of(x),
            forall|x: AccountId|
                x != who ==> #[trigger] final(self).consumers_of(x) == old(self).consumers_of(x),
            forall|x: AccountId|
                x != who ==> #[trigger] final(self).can_take_consumer(x) == old(
                    self,
                ).can_take_consumer(x),
            forall|x: AccountId|
                x != who ==> #[trigger] final(self).consumer_error(x) == old(self).consumer_error(x),
            forall|x: AccountId, m: Balance|
                x != who ==> #[trigger] final(self).reservable(x, m) == old(self).reservable(x, m),
            forall|x: AccountId, m: Balance|
                x != who ==> #[trigger] final(self).reserve_error(x, m) == old(self).reserve_error(
                    x,
                    m,
                ),
    ;

    /// Registers one more consumer reference on `who`.
    fn inc_consumers(&mut self, who: AccountId) -> (r: Result<(), CurrencyError>)
        ensures
            r is Ok <==> old(self).can_take_consumer(who),
            r is Err ==> r == Err::<(), CurrencyError>(old(self).consumer_error(who))
                && *final(self) == *old(self),
            r is Ok ==> {
                &&& final(self).consumers_of(who) == old(self).consumers_of(who) + 1
                &&& final(self).free_of(who) == old(self).free_of(who)
                &&& forall|j: LockId| #[trigger] final(self).lock_of(who, j) == old(self).lock_of(who, j)
                &&& final(self).reserved_of(who) == old(self).reserved_of(who)
            },
            final(self).min_balance() == old(self).min_balance(),
            forall|x: AccountId| x != who ==> #[trigger] final(self).free_of(x) == old(self).free_of(x),
            forall|x: AccountId, j: LockId|
                x != who ==> #[trigger] final(self).lock_of(x, j) == old(self).lock_of(x, j),
            forall|x: AccountId|
                x != who ==> #[trigger] final(self).reserved_of(x) == old(self).reserved_of(x),
            forall|x: AccountId|
                x != who ==> #[trigger] final(self).consumers_of(x) == old(self).consumers_of(x),
            forall|x: AccountId|
                x != who ==> #[trigger] final(self).can_take_consumer(x) == old(
                    self,
                ).can_take_consumer(x),
            forall|x: AccountId|
                x != who ==> #[trigger] final(self).consumer_error(x) == old(self).consumer_error(x),
            forall|x: AccountId, m: Balance|
                x != who ==> #[trigger] final(self).reservable(x, m) == old(self).reservable(x, m),
            forall|x: AccountId, m: Balance|
                x != who ==> #[trigger] final(self).reserve_error(x, m) == old(self).reserve_error(
                    x,
                    m,
                ),
    ;

    /// Releases one consumer reference on `who`, where it has any.
    fn dec_consumers(&mut self, who: AccountId)
        ensures
            final(self).consumers_of(who) == if old(self).consumers_of(who) > 0 {
                (old(self).consumers_of(who) - 1) as nat
            } else {
                0
            },
            final(self).free_of(who) == old(self).free_of(who),
            forall|j: LockId| #[trigger] final(self).lock_of(who, j) == old(self).lock_of(who, j),
            final(self).reserved_of(who) == old(self).reserved_of(who),
            final(self).min_balance() == old(self).min_balance(),
            forall|x: AccountId| x != who ==> #[trigger] final(self).free_of(x) == old(self).free_of(x),
            forall|x: AccountId, j: LockId|
                x != who ==> #[trigger] final(self).lock_of(x, j) == old(self).lock_of(x, j),
            forall|x: AccountId|
                x != who ==> #[trigger] final(self).reserved_of(x) == old(self).reserved_of(x),
            forall|x: AccountId|
                x != who ==> #[trigger] final(self).consumers_of(x) == old(self).consumers_of(x),
            forall|x: AccountId|
                x != who ==> #[trigger] final(self).can_take_consumer(x) == old(
                    self,
                ).can_take_consumer(x),
            forall|x: AccountId|
                x != who ==> #[trigger] final(self).consumer_error(x) == old(self).consumer_error(x),
            forall|x: AccountId, m: Balance|
                x != who ==> #[trigger] final(self).reservable(x, m) == old(self).reservable(x, m),
            forall|x: AccountId, m: Balance|
                x != who ==> #[trigger] final(self).reserve_error(x, m) == old(self).reserve_error(
                    x,
                    m,
                ),
    ;
}

/// The part of a reserve of `reserved` that an unreserve of `amount` moves.
pub open spec fn unreserved(reserved: Balance, amount: Balance) -> Balance {
    if amount <= reserved {
        amount
    } else {
        reserved
    }
}

/// `x`, or the top of the balance range where `x` lies above it.
pub open spec fn saturated(x: int) -> Balance {
    if x <= Balance::MAX {
        x as Balance
    } else {
        Balance::MAX
    }
}

/// `b` agrees with `a` on the minimum balance and on everything about every
/// account but `who`.
pub open spec fn kept_except<C: Currency>(a: C, b: C, who: AccountId) -> bool {
    &&& b.min_balance() == a.min_balance()
    &&& forall|x: AccountId| x != who ==> #[trigger] b.free_of(x) == a.free_of(x)
    &&& forall|x: AccountId, j: LockId| x != who ==> #[trigger] b.lock_of(x, j) == a.lock_of(x, j)
    &&& forall|x: AccountId| x != who ==> #[trigger] b.reserved_of(x) == a.reserved_of(x)
    &&& forall|x: AccountId| x != who ==> #[trigger] b.consumers_of(x) == a.consumers_of(x)
    &&& forall|x: AccountId|
        x != who ==> #[trigger] b.can_take_consumer(x) == a.can_take_consumer(x)
    &&& forall|x: AccountId| x != who ==> #[trigger] b.consumer_error(x) == a.consumer_error(x)
    &&& forall|x: AccountId, m: Balance|
        x != who ==> #[trigger] b.reservable(x, m) == a.reservable(x, m)
    &&& forall|x: AccountId, m: Balance|
        x != who ==> #[trigger] b.reserve_error(x, m) == a.reserve_error(x, m)
}

/// Two changes that each keep everything but `who` keep it together.
pub proof fn lemma_kept_except_trans<C: Currency>(a: C, b: C, c: C, who: AccountId)
    requires
        kept_except(a, b, who),
        kept_except(b, c, who),
    ensures
        kept_except(a, c, who),
{
}

/// The collateral record of one account.
#[derive(Debug, Clone, Copy, PartialEq, Eq, Structural)]
pub struct Account {
    pub free: Balance,
    pub reserved: Balance,
    pub consumers: u32,
}

/// An in-memory collateral system.
///
/// An account exists once it has been endowed. Every lock applies to all
/// withdrawal reasons, so a reservation may not dip into the part of the
/// free balance that the largest lock on the account holds.
pub struct Ledger {
    minimum: Balance,
    max_consumers: u32,
    accounts: HashMap<AccountId, Account>,
    locks: Vec<(AccountId, LockId, Balance)>,
}

impl Ledger {
    /// The account records.
    pub closed spec fn accounts(&self) -> Map<AccountId, Account> {
        self.accounts@
    }

    /// The locks as (account, identifier, amount) entries.
    pub closed spec fn locks(&self) -> Seq<(AccountId, LockId, Balance)> {
        self.locks@
    }

    /// The largest lock on `who`.
    pub open spec fn frozen(&self, who: AccountId) -> Balance {
        frozen_in(self.locks(), who)
    }

    /// The record of `who`, all zero where it does not exist.
    pub open spec fn account(&self, who: AccountId) -> Account {
        if self.accounts().contains_key(who) {
            self.accounts()[who]
        } else {
            Account { free: 0, reserved: 0, consumers: 0 }
        }
    }

    pub closed spec fn minimum_spec(&self) -> Balance {
        self.minimum
    }

    pub closed spec fn max_consumers_spec(&self) -> u32 {
        self.max_consumers
    }

    /// A ledger with no accounts, the given minimum balance and consumer ceiling.
    pub fn new(minimum: Balance, max_consumers: u32) -> (r: Ledger)
        ensures
            r.accounts() == Map::<AccountId, Account>::empty(),
            r.minimum_spec() == minimum,
            r.max_consumers_spec() == max_consumers,
            forall|w: AccountId, j: LockId| #[trigger] r.lock_of(w, j) == 0,
    {
        Ledger { minimum, max_consumers, accounts: HashMap::new(), locks: Vec::new() }
    }

    fn get(&self, who: AccountId) -> (r: Account)
        ensures
            r == self.account(who),
    {
        match self.accounts.get(&who) {
            Some(a) => *a,
            None => Account { free: 0, reserved: 0, consumers: 0 },
        }
    }

    /// Sets the free balance of `who`, creating the account where needed.
    /// The amount is capped so that free and reserved funds stay in range.
    pub fn endow(&mut self, who: AccountId, amount: Balance)
        ensures
            final(self).minimum_spec() == old(self).minimum_spec(),
            final(self).max_consumers_spec() == old(self).max_consumers_spec(),
            final(self).locks() == old(self).locks(),
            final(self).accounts() == old(self).accounts().insert(
                who,
                Account {
                    free: if amount <= Balance::MAX - old(self).account(who).reserved {
                        amount
                    } else {
                        (Balance::MAX - old(self).account(who).reserved) as Balance
                    },
                    ..old(self).account(who)
                },
            ),
    {
        let acc = self.get(who);
        let room = Balance::MAX - acc.reserved;
        let free = if amount <= room {
            amount
        } else {
            room
        };
        self.accounts.insert(who, Account { free, ..acc });
    }

    /// The collateral record of `who`.
    pub fn account_of(&self, who: AccountId) -> (r: Account)
        ensures
            r == self.account(who),
    {
        self.get(who)
    }

    /// The amount of the lock `id` on `who`, zero where there is none.
    pub fn lock(&self, who: AccountId, id: LockId) -> (r: Balance)
        ensures
            r == lock_in(self.locks(), who, id),
    {
        find_lock(&self.locks, who, id)
    }
}

impl Currency for Ledger {
    open spec fn min_balance(&self) -> Balance {
        self.minimum_spec()
    }

    open spec fn free_of(&self, who: AccountId) -> Balance {
        self.account(who).free
    }

    open spec fn lock_of(&self, who: AccountId, id: LockId) -> Balance {
        lock_in(self.locks(), who, id)
    }

    open spec fn reserved_of(&self, who: AccountId) -> Balance {
        self.account(who).reserved
    }

    open spec fn consumers_of(&self, who: AccountId) -> nat {
        self.account(who).consumers as nat
    }

    open spec fn can_take_consumer(&self, who: AccountId) -> bool {
        self.accounts().contains_key(who) && self.account(who).consumers < self.max_consumers_spec()
    }

    open spec fn consumer_error(&self, who: AccountId) -> CurrencyError {
        if !self.accounts().contains_key(who) {
            CurrencyError::NoProviders
        } else {
            CurrencyError::TooManyConsumers
        }
    }

    open spec fn reservable(&self, who: AccountId, amount: Balance) -> bool {
        self.accounts().contains_key(who) && amount <= self.account(who).free
            && self.account(who).free - amount >= self.frozen(who)
            && self.account(who).reserved + amount <= Balance::MAX
    }

    open spec fn reserve_error(&self, who: AccountId, amount: Balance) -> CurrencyError {
        if self.accounts().contains_key(who) && amount <= self.account(who).free
            && self.account(who).reserved + amount <= Balance::MAX {
            CurrencyError::LiquidityRestrictions
        } else {
            CurrencyError::InsufficientBalance
        }
    }

    fn minimum_balance(&self) -> (r: Balance) {
        self.minimum
    }

    fn free_balance(&self, who: AccountId) -> (r: Balance) {
        self.get(who).free
    }

    fn can_reserve(&self, who: AccountId, amount: Balance) -> (r: bool) {
        if !self.accounts.contains_key(&who) {
            return false;
        }
        let acc = self.get(who);
        let frozen = find_frozen(&self.locks, who);
        amount <= acc.free && acc.free - amount >= frozen && amount <= Balance::MAX - acc.reserved
    }

    fn set_lock(&mut self, id: LockId, who: AccountId, amount: Balance) {
        let ghost before = self.locks@;
        let mut rest = remove_entries(&self.locks, who, id);
        let ghost kept = rest@;
        rest.push((who, id, amount));
        self.locks = rest;
        proof {
            assert forall|x: AccountId, j: LockId| #[trigger] lock_in(self.locks@, x, j) == if x == who
                && j == id {
                amount
            } else {
                lock_in(before, x, j)
            } by {
                lemma_without(before, who, id, x, j);
                lemma_push(kept, (who, id, amount), x, j);
            }
            assert forall|x: AccountId| x != who implies #[trigger] frozen_in(self.locks@, x)
                == frozen_in(before, x) by {
                lemma_without(before, who, id, x, id);
                lemma_push(kept, (who, id, amount), x, id);
            }
        }
    }

    fn remove_lock(&mut self, id: LockId, who: AccountId) {
        let ghost before = self.locks@;
        self.locks = remove_entries(&self.locks, who, id);
        proof {
            assert forall|x: AccountId, j: LockId| #[trigger] lock_in(self.locks@, x, j) == if x == who
                && j == id {
                0
            } else {
                lock_in(before, x, j)
            } by {
                lemma_without(before, who, id, x, j);
            }
            assert forall|x: AccountId| x != who implies #[trigger] frozen_in(self.locks@, x)
                == frozen_in(before, x) by {
                lemma_without(before, who, id, x, id);
            }
        }
    }

    fn reserve(&mut self, who: AccountId, amount: Balance) -> (r: Result<(), CurrencyError>) {
        if !self.accounts.contains_key(&who) {
            return Err(CurrencyError::InsufficientBalance);
        }
        let acc = self.get(who);
        if amount > acc.free || amount > Balance::MAX - acc.reserved {
            return Err(CurrencyError::InsufficientBalance);
        }
        if acc.free - amount < find_frozen(&self.locks, who) {
            return Err(CurrencyError::LiquidityRestrictions);
        }
        self.accounts.insert(
            who,
            Account { free: acc.free - amount, reserved: acc.reserved + amount, ..acc },
        );
        Ok(())
    }

    fn unreserve(&mut self, who: AccountId, amount: Balance) {
        if !self.accounts.contains_key(&who) {
            return ;
        }
        let acc = self.get(who);
        let actual = if amount <= acc.reserved {
            amount
        } else {
            acc.reserved
        };
        let free = if actual <= Balance::MAX - acc.free {
            acc.free + actual
        } else {
            Balance::MAX
        };
        self.accounts.insert(who, Account { free, reserved: acc.reserved - actual, ..acc });
    }

    fn inc_consumers(&mut self, who: AccountId) -> (r: Result<(), CurrencyError>) {
        if !self.accounts.contains_key(&who) {
            return Err(CurrencyError::NoProviders);
        }
        let acc = self.get(who);
        if acc.consumers >= self.max_consumers {
            return Err(CurrencyError::TooManyConsumers);
        }
        self.accounts.insert(who, Account { consumers: acc.consumers + 1, ..acc });
        Ok(())
    }

    fn dec_consumers(&mut self, who: AccountId) {
        if !self.accounts.contains_key(&who) {
            return ;
        }
        let acc = self.get(who);
        if acc.consumers > 0 {
            self.accounts.insert(who, Account { consumers: acc.consumers - 1, ..acc });
        }
    }
}

} // verus!
