use std::collections::HashMap;
use vstd::prelude::*;

use crate::currency::{Currency, kept_except, saturated, unreserved};
use crate::selection::{
    distinct_accounts, lemma_select_from_candidates, lemma_select_len, select, select_heaviest,
};
use crate::stake::{
    account_index, accounts_unique, delegated, has_account, has_pair,
    lemma_accounts_unique_push, lemma_accounts_unique_remove, lemma_delegated_nonneg,
    lemma_delegated_push, lemma_delegated_remove, lemma_pairs_unique_push,
    lemma_pairs_unique_remove, pair_index, pairs_unique,
};
use crate::types::{AccountId, Balance, Error, Event, LockId};

verus! {

broadcast use vstd::std_specs::hash::group_hash_axioms;

/// The identifier of the lock that bonding places: the bytes of "staking ".
pub const STAKING_ID: LockId = 0x7374_616b_696e_6720;

/// The ledger state seen as plain values.
pub struct PalletView {
    /// Bonded stashes with their bonded amounts, in the order they bonded.
    pub stashes: Seq<(AccountId, Balance)>,
    /// Live delegations as (voter, target, amount), in the order they were made.
    pub delegations: Seq<(AccountId, AccountId, Balance)>,
    /// The aggregate stake record of each target that has ever been voted for.
    pub stake: Map<AccountId, Balance>,
    /// The smallest validator set that may be produced.
    pub minimum: u32,
    /// The largest validator set that may be produced.
    pub maximum: u32,
}

impl PalletView {
    /// The aggregate stake delegated to `target`, zero where it has no record.
    pub open spec fn aggregate(self, target: AccountId) -> Balance {
        if self.stake.contains_key(target) {
            self.stake[target]
        } else {
            0
        }
    }

    /// `a` has a live stash record.
    pub open spec fn is_stash(self, a: AccountId) -> bool {
        has_account(self.stashes, a)
    }

    /// `voter` has a live delegation to `target`.
    pub open spec fn has_vote(self, voter: AccountId, target: AccountId) -> bool {
        has_pair(self.delegations, voter, target)
    }

    /// Every target's aggregate stake is the sum of the live delegations naming it.
    pub open spec fn stake_consistent(self) -> bool {
        forall|t: AccountId| #[trigger] self.aggregate(t) == delegated(self.delegations, t)
    }

    /// The bounds on the validator set size are ordered and positive.
    pub open spec fn bounds_valid(self) -> bool {
        0 < self.minimum <= self.maximum
    }

    /// The ledger invariants.
    pub open spec fn wf(self) -> bool {
        &&& accounts_unique(self.stashes)
        &&& pairs_unique(self.delegations)
        &&& self.stake_consistent()
        &&& self.bounds_valid()
    }

    /// The candidates of a new validator set: each stash with its bonded
    /// amount plus the stake delegated to it.
    pub open spec fn candidates(self) -> Seq<(AccountId, u128)> {
        self.stashes.map_values(
            |p: (AccountId, Balance)| (p.0, (p.1 + self.aggregate(p.0)) as u128),
        )
    }

    /// The outcome of selection: no change while there are fewer stashes than
    /// the minimum, else the heaviest candidates, at most the maximum of them.
    pub open spec fn selection(self) -> Option<Seq<AccountId>> {
        if self.stashes.len() < self.minimum {
            None
        } else {
            Some(select(self.candidates(), self.maximum as nat))
        }
    }
}

/// The stake ledgers and validator-set bounds.
pub struct Pallet {
    bonded: Vec<(AccountId, Balance)>,
    user_staked: Vec<(AccountId, AccountId, Balance)>,
    staked: HashMap<AccountId, Balance>,
    minimum_validator_count: u32,
    maximum_validator_count: u32,
}

impl View for Pallet {
    type V = PalletView;

    closed spec fn view(&self) -> PalletView {
        PalletView {
            stashes: self.bonded@,
            delegations: self.user_staked@,
            stake: self.staked@,
            minimum: self.minimum_validator_count,
            maximum: self.maximum_validator_count,
        }
    }
}

/// `v1`, `c1` are `v0`, `c0` after `stash` bonded and locked `locked`.
pub open spec fn bond_step<C: Currency>(
    v0: PalletView,
    c0: C,
    v1: PalletView,
    c1: C,
    stash: AccountId,
    locked: Balance,
) -> bool {
    &&& v1 == (PalletView { stashes: v0.stashes.push((stash, locked)), ..v0 })
    &&& c1.lock_of(stash, STAKING_ID) == locked
    &&& forall|j: LockId| j != STAKING_ID ==> #[trigger] c1.lock_of(stash, j) == c0.lock_of(stash, j)
    &&& c1.consumers_of(stash) == c0.consumers_of(stash) + 1
    &&& c1.free_of(stash) == c0.free_of(stash)
    &&& c1.reserved_of(stash) == c0.reserved_of(stash)
    &&& kept_except(c0, c1, stash)
}

/// `v1`, `c1` are `v0`, `c0` after the stash `stash` unbonded.
pub open spec fn unbond_step<C: Currency>(
    v0: PalletView,
    c0: C,
    v1: PalletView,
    c1: C,
    stash: AccountId,
) -> bool {
    &&& v1 == (PalletView {
        stashes: v0.stashes.remove(account_index(v0.stashes, stash)),
        ..v0
    })
    &&& c1.lock_of(stash, STAKING_ID) == 0
    &&& forall|j: LockId| j != STAKING_ID ==> #[trigger] c1.lock_of(stash, j) == c0.lock_of(stash, j)
    &&& c1.consumers_of(stash) == if c0.consumers_of(stash) > 0 {
        (c0.consumers_of(stash) - 1) as nat
    } else {
        0
    }
    &&& c1.free_of(stash) == c0.free_of(stash)
    &&& c1.reserved_of(stash) == c0.reserved_of(stash)
    &&& kept_except(c0, c1, stash)
}

/// `v1`, `c1` are `v0`, `c0` after `voter` delegated `value` to `target`.
pub open spec fn vote_step<C: Currency>(
    v0: PalletView,
    c0: C,
    v1: PalletView,
    c1: C,
    voter: AccountId,
    target: AccountId,
    value: Balance,
) -> bool {
    &&& v0.aggregate(target) + value <= Balance::MAX
    &&& v1 == (PalletView {
        delegations: v0.delegations.push((voter, target, value)),
        stake: v0.stake.insert(target, (v0.aggregate(target) + value) as Balance),
        ..v0
    })
    &&& value <= c0.free_of(voter)
    &&& c1.free_of(voter) == c0.free_of(voter) - value
    &&& c1.reserved_of(voter) == c0.reserved_of(voter) + value
    &&& forall|j: LockId| #[trigger] c1.lock_of(voter, j) == c0.lock_of(voter, j)
    &&& c1.consumers_of(voter) == c0.consumers_of(voter)
    &&& kept_except(c0, c1, voter)
}

/// The outcome of an unvote from `voter` on `target` in `v0`, `c0`: without
/// such a delegation, success with nothing changed; with one, its removal,
/// its amount taken off the target's aggregate stake and unreserved.
pub open spec fn unvote_result<C: Currency>(
    v0: PalletView,
    c0: C,
    v1: PalletView,
    c1: C,
    voter: AccountId,
    target: AccountId,
    r: Result<Option<Event>, Error>,
) -> bool {
    if !v0.has_vote(voter, target) {
        &&& r == Ok::<Option<Event>, Error>(None)
        &&& v1 == v0
        &&& c1 == c0
    } else {
        let i = pair_index(v0.delegations, voter, target);
        let amount = v0.delegations[i].2;
        &&& r == Ok::<Option<Event>, Error>(Some(Event::Unvoted(voter, target)))
        &&& amount <= v0.aggregate(target)
        &&& v1 == (PalletView {
            delegations: v0.delegations.remove(i),
            stake: v0.stake.insert(target, (v0.aggregate(target) - amount) as Balance),
            ..v0
        })
        &&& c1.reserved_of(voter) == c0.reserved_of(voter) - unreserved(
            c0.reserved_of(voter),
            amount,
        )
        &&& c1.free_of(voter) == saturated(
            c0.free_of(voter) + unreserved(c0.reserved_of(voter), amount),
        )
        &&& forall|j: LockId| #[trigger] c1.lock_of(voter, j) == c0.lock_of(voter, j)
        &&& c1.consumers_of(voter) == c0.consumers_of(voter)
        &&& kept_except(c0, c1, voter)
    }
}

/// The amount a bond of `value` locks on an account with `free` balance.
pub open spec fn bond_amount(value: Balance, free: Balance) -> Balance {
    if value <= free {
        value
    } else {
        free
    }
}

impl Pallet {
    /// An empty ledger with the given validator-set bounds; fails with
    /// `InvalidNumberOfValidators` unless `0 < minimum <= maximum`.
    pub fn new(minimum: u32, maximum: u32) -> (r: Result<Pallet, Error>)
        ensures
            0 < minimum <= maximum ==> (r matches Ok(p) && p@ == (PalletView {
                stashes: Seq::empty(),
                delegations: Seq::empty(),
                stake: Map::empty(),
                minimum,
                maximum,
            }) && p@.wf()),
            !(0 < minimum <= maximum) ==> r == Err::<Pallet, Error>(Error::InvalidNumberOfValidators),
    {
        if minimum == 0 || minimum > maximum {
            return Err(Error::InvalidNumberOfValidators);
        }
        let p = Pallet {
            bonded: Vec::new(),
            user_staked: Vec::new(),
            staked: HashMap::new(),
            minimum_validator_count: minimum,
            maximum_validator_count: maximum,
        };
        proof {
            assert forall|t: AccountId| #[trigger] p@.aggregate(t) == delegated(p@.delegations, t) by {
            }
        }
        Ok(p)
    }

    fn find_stash(&self, a: AccountId) -> (r: Option<usize>)
        requires
            accounts_unique(self@.stashes),
        ensures
            r is None <==> !self@.is_stash(a),
            r matches Some(i) ==> i == account_index(self@.stashes, a) && i < self@.stashes.len()
                && self@.stashes[i as int].0 == a,
    {
        let mut i: usize = 0;
        while i < self.bonded.len()
            invariant
                i <= self.bonded@.len(),
                accounts_unique(self@.stashes),
                forall|j: int| 0 <= j < i ==> #[trigger] self.bonded@[j].0 != a,
            decreases self.bonded@.len() - i,
        {
            if self.bonded[i].0 == a {
                proof {
                    let k = account_index(self@.stashes, a);
                    assert(self@.stashes[i as int].0 == a);
                    assert(0 <= k < self@.stashes.len() && self@.stashes[k].0 == a);
                    if k < i as int {
                        assert(self@.stashes[k].0 != self@.stashes[i as int].0);
                    } else if k > i as int {
                        assert(self@.stashes[i as int].0 != self@.stashes[k].0);
                    }
                }
                return Some(i);
            }
            i += 1;
        }
        None
    }

    fn find_vote(&self, voter: AccountId, target: AccountId) -> (r: Option<usize>)
        requires
            pairs_unique(self@.delegations),
        ensures
            r is None <==> !self@.has_vote(voter, target),
            r matches Some(i) ==> i == pair_index(self@.delegations, voter, target) && i
                < self@.delegations.len() && self@.delegations[i as int].0 == voter
                && self@.delegations[i as int].1 == target,
    {
        let mut i: usize = 0;
        while i < self.user_staked.len()
            invariant
                i <= self.user_staked@.len(),
                pairs_unique(self@.delegations),
                forall|j: int|
                    0 <= j < i ==> !(#[trigger] self.user_staked@[j].0 == voter
                        && self.user_staked@[j].1 == target),
            decreases self.user_staked@.len() - i,
        {
            if self.user_staked[i].0 == voter && self.user_staked[i].1 == target {
                proof {
                    let k = pair_index(self@.delegations, voter, target);
                    let d = self@.delegations;
                    assert(d[i as int].0 == voter && d[i as int].1 == target);
                    assert(0 <= k < d.len() && d[k].0 == voter && d[k].1 == target);
                    if k < i as int {
                        assert((d[k].0, d[k].1) != (d[i as int].0, d[i as int].1));
                    } else if k > i as int {
                        assert((d[i as int].0, d[i as int].1) != (d[k].0, d[k].1));
                    }
                }
                return Some(i);
            }
            i += 1;
        }
        None
    }

    fn stake_of(&self, target: AccountId) -> (r: Balance)
        ensures
            r == self@.aggregate(target),
    {
        match self.staked.get(&target) {
            Some(x) => *x,
            None => 0,
        }
    }

    /// Bonds `stash` with `value`, locking `value` or the whole free balance
    /// of `stash` where that is less.
    pub fn bond<C: Currency>(&mut self, currency: &mut C, stash: AccountId, value: Balance) -> (r:
        Result<Event, Error>)
        requires
            old(self)@.wf(),
        ensures
            final(self)@.wf(),
            old(self)@.is_stash(stash) ==> r == Err::<Event, Error>(Error::AlreadyBonded),
            !old(self)@.is_stash(stash) && value < old(currency).min_balance() ==> r == Err::<
                Event,
                Error,
            >(Error::InsufficientBond),
            !old(self)@.is_stash(stash) && value >= old(currency).min_balance()
                && !old(currency).can_take_consumer(stash) ==> r == Err::<Event, Error>(
                Error::BadState,
            ),
            r is Err ==> final(self)@ == old(self)@ && *final(currency) == *old(currency),
            !old(self)@.is_stash(stash) && value >= old(currency).min_balance()
                && old(currency).can_take_consumer(stash) ==> {
                let locked = bond_amount(value, old(currency).free_of(stash));
                &&& r == Ok::<Event, Error>(Event::Bonded(stash, locked))
                &&& bond_step(old(self)@, *old(currency), final(self)@, *final(currency), stash, locked)
            },
    {
        if self.find_stash(stash).is_some() {
            return Err(Error::AlreadyBonded);
        }
        if value < currency.minimum_balance() {
            return Err(Error::InsufficientBond);
        }
        if currency.inc_consumers(stash).is_err() {
            return Err(Error::BadState);
        }
        let free = currency.free_balance(stash);
        let locked = if value <= free {
            value
        } else {
            free
        };
        currency.set_lock(STAKING_ID, stash, locked);
        self.bonded.push((stash, locked));
        proof {
            assert(self@.stashes == old(self)@.stashes.push((stash, locked)));
            lemma_accounts_unique_push(old(self)@.stashes, (stash, locked));
            assert forall|t: AccountId| #[trigger] self@.aggregate(t) == delegated(self@.delegations, t) by {
                assert(old(self)@.aggregate(t) == delegated(old(self)@.delegations, t));
            }
        }
        Ok(Event::Bonded(stash, locked))
    }

    /// Unbonds `stash`, removing its record and its lock.
    pub fn unbond<C: Currency>(&mut self, currency: &mut C, stash: AccountId) -> (r: Result<
        Event,
        Error,
    >)
        requires
            old(self)@.wf(),
        ensures
            final(self)@.wf(),
            !old(self)@.is_stash(stash) ==> r == Err::<Event, Error>(Error::NotStash)
                && final(self)@ == old(self)@ && *final(currency) == *old(currency),
            old(self)@.is_stash(stash) ==> r == Ok::<Event, Error>(Event::Unbonded(stash))
                && unbond_step(old(self)@, *old(currency), final(self)@, *final(currency), stash),
    {
        let i = match self.find_stash(stash) {
            Some(i) => i,
            None => {
                return Err(Error::NotStash);
            },
        };
        self.bonded.remove(i);
        currency.remove_lock(STAKING_ID, stash);
        currency.dec_consumers(stash);
        proof {
            assert(self@.stashes == old(self)@.stashes.remove(i as int));
            lemma_accounts_unique_remove(old(self)@.stashes, i as int);
            assert forall|t: AccountId| #[trigger] self@.aggregate(t) == delegated(self@.delegations, t) by {
                assert(old(self)@.aggregate(t) == delegated(old(self)@.delegations, t));
            }
        }
        Ok(Event::Unbonded(stash))
    }

    /// Delegates `value` from `voter` to `target`, reserving it from the
    /// voter's balance.
    ///
    /// A reservation that fails is reported as it is. The aggregate stake of
    /// `target` must stay within the balance range: a vote that could be
    /// reserved but would carry it past that fails with `StakeOverflow`, and
    /// nothing is reserved.
    pub fn vote<C: Currency>(
        &mut self,
        currency: &mut C,
        voter: AccountId,
        target: AccountId,
        value: Balance,
    ) -> (r: Result<Event, Error>)
        requires
            old(self)@.wf(),
        ensures
            final(self)@.wf(),
            old(self)@.has_vote(voter, target) ==> r == Err::<Event, Error>(Error::AlreadyVoted),
            !old(self)@.has_vote(voter, target) && !old(currency).reservable(voter, value) ==> r
                == Err::<Event, Error>(Error::Currency(old(currency).reserve_error(voter, value))),
            !old(self)@.has_vote(voter, target) && old(currency).reservable(voter, value)
                && old(self)@.aggregate(target) + value > Balance::MAX ==> r == Err::<Event, Error>(
                Error::StakeOverflow,
            ),
            r is Err ==> final(self)@ == old(self)@ && *final(currency) == *old(currency),
            !old(self)@.has_vote(voter, target) && old(currency).reservable(voter, value)
                && old(self)@.aggregate(target) + value <= Balance::MAX ==> {
                &&& r == Ok::<Event, Error>(Event::Voted(voter, target, value))
                &&& vote_step(
                    old(self)@,
                    *old(currency),
                    final(self)@,
                    *final(currency),
                    voter,
                    target,
                    value,
                )
            },
    {
        if self.find_vote(voter, target).is_some() {
            return Err(Error::AlreadyVoted);
        }
        let stake = self.stake_of(target);
        if value > Balance::MAX - stake && currency.can_reserve(voter, value) {
            return Err(Error::StakeOverflow);
        }
        match currency.reserve(voter, value) {
            Ok(()) => {},
            Err(e) => {
                return Err(Error::Currency(e));
            },
        }
        self.user_staked.push((voter, target, value));
        self.staked.insert(target, stake + value);
        proof {
            let d0 = old(self)@.delegations;
            let x = (voter, target, value);
            assert(self@.delegations == d0.push(x));
            lemma_pairs_unique_push(d0, x);
            assert forall|t: AccountId| #[trigger] self@.aggregate(t) == delegated(
                self@.delegations,
                t,
            ) by {
                lemma_delegated_push(d0, x, t);
                assert(old(self)@.aggregate(t) == delegated(d0, t));
            }
        }
        Ok(Event::Voted(voter, target, value))
    }

    /// Withdraws the delegation from `voter` to `target`, if there is one,
    /// and returns its amount to the voter's free balance. Without such a
    /// delegation nothing changes and no event is emitted.
    pub fn unvote<C: Currency>(&mut self, currency: &mut C, voter: AccountId, target: AccountId) -> (r:
        Result<Option<Event>, Error>)
        requires
            old(self)@.wf(),
        ensures
            final(self)@.wf(),
            unvote_result(
                old(self)@,
                *old(currency),
                final(self)@,
                *final(currency),
                voter,
                target,
                r,
            ),
    {
        let i = match self.find_vote(voter, target) {
            Some(i) => i,
            None => {
                return Ok(None);
            },
        };
        let ghost d0 = old(self)@.delegations;
        let (_, _, amount) = self.user_staked.remove(i);
        currency.unreserve(voter, amount);
        let stake = self.stake_of(target);
        proof {
            lemma_delegated_remove(d0, i as int, target);
            lemma_delegated_nonneg(d0.remove(i as int), target);
            assert(old(self)@.aggregate(target) == delegated(d0, target));
        }
        self.staked.insert(target, stake - amount);
        proof {
            assert(self@.delegations == d0.remove(i as int));
            lemma_pairs_unique_remove(d0, i as int);
            assert forall|t: AccountId| #[trigger] self@.aggregate(t) == delegated(
                self@.delegations,
                t,
            ) by {
                lemma_delegated_remove(d0, i as int, t);
                assert(old(self)@.aggregate(t) == delegated(d0, t));
            }
        }
        Ok(Some(Event::Unvoted(voter, target)))
    }

    /// Sets the smallest validator set size; fails with
    /// `InvalidNumberOfValidators` when `value` is zero or above the maximum.
    pub fn set_minimum_validator_count(&mut self, value: u32) -> (r: Result<(), Error>)
        requires
            old(self)@.wf(),
        ensures
            final(self)@.wf(),
            value == 0 || value > old(self)@.maximum ==> r == Err::<(), Error>(
                Error::InvalidNumberOfValidators,
            ) && final(self)@ == old(self)@,
            0 < value <= old(self)@.maximum ==> r == Ok::<(), Error>(()) && final(self)@ == (
            PalletView { minimum: value, ..old(self)@ }),
    {
        if value == 0 || value > self.maximum_validator_count {
            return Err(Error::InvalidNumberOfValidators);
        }
        self.minimum_validator_count = value;
        proof {
            assert forall|t: AccountId| #[trigger] self@.aggregate(t) == delegated(
                self@.delegations,
                t,
            ) by {
                assert(old(self)@.aggregate(t) == delegated(old(self)@.delegations, t));
            }
        }
        Ok(())
    }

    /// Sets the largest validator set size; fails with
    /// `InvalidNumberOfValidators` when `value` is below the minimum.
    pub fn set_maximum_validator_count(&mut self, value: u32) -> (r: Result<(), Error>)
        requires
            old(self)@.wf(),
        ensures
            final(self)@.wf(),
            value < old(self)@.minimum ==> r == Err::<(), Error>(Error::InvalidNumberOfValidators)
                && final(self)@ == old(self)@,
            value >= old(self)@.minimum ==> r == Ok::<(), Error>(()) && final(self)@ == (
            PalletView { maximum: value, ..old(self)@ }),
    {
        if value < self.minimum_validator_count {
            return Err(Error::InvalidNumberOfValidators);
        }
        self.maximum_validator_count = value;
        proof {
            assert forall|t: AccountId| #[trigger] self@.aggregate(t) == delegated(
                self@.delegations,
                t,
            ) by {
                assert(old(self)@.aggregate(t) == delegated(old(self)@.delegations, t));
            }
        }
        Ok(())
    }

    /// Selects the validator set for a new epoch: `None` (keep the current
    /// set) while there are fewer stashes than the minimum, else the stashes
    /// by descending bonded plus delegated stake, earlier stashes first among
    /// equals, at most the maximum of them.
    pub fn new_session(&self, _new_index: u32) -> (r: Option<Vec<AccountId>>)
        requires
            self@.wf(),
        ensures
            r is None <==> self@.selection() is None,
            r matches Some(v) ==> self@.selection() == Some(v@),
            r matches Some(v) ==> self@.minimum <= v@.len() <= self@.maximum,
            r matches Some(v) ==> v@.no_duplicates(),
            r matches Some(v) ==> forall|k: int| 0 <= k < v@.len() ==> self@.is_stash(#[trigger] v@[k]),
    {
        if self.bonded.len() < self.minimum_validator_count as usize {
            return None;
        }
        let mut candidates: Vec<(AccountId, u128)> = Vec::new();
        let mut i: usize = 0;
        while i < self.bonded.len()
            invariant
                i <= self.bonded@.len(),
                candidates@ == self@.candidates().take(i as int),
            decreases self.bonded@.len() - i,
        {
            let (a, b) = self.bonded[i];
            let weight = b as u128 + self.stake_of(a) as u128;
            candidates.push((a, weight));
            proof {
                assert(candidates@ =~= self@.candidates().take(i + 1));
            }
            i += 1;
        }
        proof {
            assert(candidates@ =~= self@.candidates());
        }
        let winners = select_heaviest(candidates, self.maximum_validator_count);
        proof {
            let cands = self@.candidates();
            let sel = select(cands, self@.maximum as nat);
            lemma_select_len(cands, self@.maximum as nat);
            lemma_select_from_candidates(cands, self@.maximum as nat);
            assert(distinct_accounts(cands)) by {
                assert forall|a: int, b: int| 0 <= a < b < cands.len() implies #[trigger] cands[a].0
                    != #[trigger] cands[b].0 by {
                    assert(self@.stashes[a].0 != self@.stashes[b].0);
                }
            }
            assert forall|k: int| 0 <= k < sel.len() implies self@.is_stash(#[trigger] sel[k]) by {
                let j = choose|j: int| 0 <= j < cands.len() && cands[j].0 == sel[k];
                assert(self@.stashes[j].0 == sel[k]);
            }
        }
        Some(winners)
    }

    /// The bonded amount of `stash`, if it is a stash.
    pub fn bonded(&self, stash: AccountId) -> (r: Option<Balance>)
        requires
            self@.wf(),
        ensures
            r is None <==> !self@.is_stash(stash),
            r matches Some(b) ==> b == self@.stashes[account_index(self@.stashes, stash)].1,
    {
        match self.find_stash(stash) {
            Some(i) => Some(self.bonded[i].1),
            None => None,
        }
    }

    /// The amount `voter` delegated to `target`, if it has such a delegation.
    pub fn user_staked(&self, voter: AccountId, target: AccountId) -> (r: Option<Balance>)
        requires
            self@.wf(),
        ensures
            r is None <==> !self@.has_vote(voter, target),
            r matches Some(b) ==> b == self@.delegations[pair_index(
                self@.delegations,
                voter,
                target,
            )].2,
    {
        match self.find_vote(voter, target) {
            Some(i) => Some(self.user_staked[i].2),
            None => None,
        }
    }

    /// The aggregate stake record of `target`, if it has ever been voted for.
    pub fn staked(&self, target: AccountId) -> (r: Option<Balance>)
        ensures
            r == if self@.stake.contains_key(target) {
                Some(self@.stake[target])
            } else {
                None::<Balance>
            },
    {
        match self.staked.get(&target) {
            Some(x) => Some(*x),
            None => None,
        }
    }

    /// The smallest validator set size.
    pub fn minimum_validator_count(&self) -> (r: u32)
        ensures
            r == self@.minimum,
    {
        self.minimum_validator_count
    }

    /// The largest validator set size.
    pub fn maximum_validator_count(&self) -> (r: u32)
        ensures
            r == self@.maximum,
    {
        self.maximum_validator_count
    }
}

} // verus!
