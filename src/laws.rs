use vstd::prelude::*;

use crate::currency::{Currency, kept_except, lemma_kept_except_trans};
use crate::pallet::{STAKING_ID, bond_step, unbond_step, unvote_result, vote_step, PalletView};
use crate::stake::{account_index, pair_index};
use crate::types::{AccountId, Balance, Error, Event, LockId};

verus! {

/// Bonding an account that is not a stash and then unbonding it leaves the
/// ledger as it was, the account no stash, its staking lock removed, its
/// other locks, balances and consumer count as they were, and every other
/// account untouched. An account that held no staking lock before holds
/// exactly the locks it held before.
pub proof fn lemma_bond_unbond_round_trip<C: Currency>(
    v0: PalletView,
    c0: C,
    v1: PalletView,
    c1: C,
    v2: PalletView,
    c2: C,
    stash: AccountId,
    locked: Balance,
)
    requires
        v0.wf(),
        !v0.is_stash(stash),
        bond_step(v0, c0, v1, c1, stash, locked),
        unbond_step(v1, c1, v2, c2, stash),
    ensures
        v2 == v0,
        !v2.is_stash(stash),
        c2.lock_of(stash, STAKING_ID) == 0,
        forall|j: LockId| j != STAKING_ID ==> #[trigger] c2.lock_of(stash, j) == c0.lock_of(stash, j),
        c0.lock_of(stash, STAKING_ID) == 0 ==> forall|j: LockId| #[trigger] c2.lock_of(stash, j)
            == c0.lock_of(stash, j),
        c2.consumers_of(stash) == c0.consumers_of(stash),
        c2.free_of(stash) == c0.free_of(stash),
        c2.reserved_of(stash) == c0.reserved_of(stash),
        kept_except(c0, c2, stash),
{
    lemma_kept_except_trans(c0, c1, c2, stash);
    let n = v0.stashes.len() as int;
    assert(v1.stashes[n].0 == stash);
    let k = account_index(v1.stashes, stash);
    if k < n {
        assert(v0.stashes[k].0 == stash);
    }
    assert(v1.stashes.remove(n) =~= v0.stashes);
    assert(v2.stashes =~= v0.stashes);
}

/// Voting and then withdrawing that vote restores the target's aggregate
/// stake, the delegations and the voter's free and reserved balances, and
/// leaves its lock, its consumer count and every other account untouched.
pub proof fn lemma_vote_unvote_round_trip<C: Currency>(
    v0: PalletView,
    c0: C,
    v1: PalletView,
    c1: C,
    v2: PalletView,
    c2: C,
    voter: AccountId,
    target: AccountId,
    value: Balance,
    r: Result<Option<Event>, Error>,
)
    requires
        v0.wf(),
        !v0.has_vote(voter, target),
        vote_step(v0, c0, v1, c1, voter, target, value),
        unvote_result(v1, c1, v2, c2, voter, target, r),
    ensures
        r == Ok::<Option<Event>, Error>(Some(Event::Unvoted(voter, target))),
        v2.aggregate(target) == v0.aggregate(target),
        forall|t: AccountId| #[trigger] v2.aggregate(t) == v0.aggregate(t),
        v2.delegations == v0.delegations,
        !v2.has_vote(voter, target),
        c2.reserved_of(voter) == c0.reserved_of(voter),
        c2.free_of(voter) == c0.free_of(voter),
        forall|j: LockId| #[trigger] c2.lock_of(voter, j) == c0.lock_of(voter, j),
        c2.consumers_of(voter) == c0.consumers_of(voter),
        kept_except(c0, c2, voter),
{
    lemma_kept_except_trans(c0, c1, c2, voter);
    let n = v0.delegations.len() as int;
    assert(v1.delegations[n].0 == voter && v1.delegations[n].1 == target);
    assert(v1.has_vote(voter, target));
    let k = pair_index(v1.delegations, voter, target);
    if k < n {
        assert(v0.delegations[k].0 == voter && v0.delegations[k].1 == target);
    }
    assert(v1.delegations.remove(n) =~= v0.delegations);
    assert(v2.delegations =~= v0.delegations);
}

/// Withdrawing a vote a second time, after a first withdrawal succeeded,
/// succeeds and changes nothing.
pub proof fn lemma_unvote_idempotent<C: Currency>(
    v0: PalletView,
    c0: C,
    v1: PalletView,
    c1: C,
    v2: PalletView,
    c2: C,
    voter: AccountId,
    target: AccountId,
    r1: Result<Option<Event>, Error>,
    r2: Result<Option<Event>, Error>,
)
    requires
        v0.wf(),
        unvote_result(v0, c0, v1, c1, voter, target, r1),
        unvote_result(v1, c1, v2, c2, voter, target, r2),
    ensures
        r1 is Ok,
        r2 == Ok::<Option<Event>, Error>(None),
        v2 == v1,
        c2 == c1,
{
    if v0.has_vote(voter, target) {
        let i = pair_index(v0.delegations, voter, target);
        let d = v1.delegations;
        if v1.has_vote(voter, target) {
            let j = pair_index(d, voter, target);
            let jj = if j < i { j } else { j + 1 };
            assert(d[j] == v0.delegations[jj]);
            assert((v0.delegations[i].0, v0.delegations[i].1) == (
            v0.delegations[jj].0, v0.delegations[jj].1));
            if i < jj {
                assert((v0.delegations[i].0, v0.delegations[i].1) != (
                v0.delegations[jj].0, v0.delegations[jj].1));
            } else {
                assert((v0.delegations[jj].0, v0.delegations[jj].1) != (
                v0.delegations[i].0, v0.delegations[i].1));
            }
        }
    }
}

} // verus!
