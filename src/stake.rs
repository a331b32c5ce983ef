use vstd::prelude::*;

use crate::types::{AccountId, Balance};

verus! {

/// No two records of `s` belong to the same account.
pub open spec fn accounts_unique(s: Seq<(AccountId, Balance)>) -> bool {
    forall|i: int, j: int| 0 <= i < j < s.len() ==> #[trigger] s[i].0 != #[trigger] s[j].0
}

/// No two delegations of `d` share their voter and their target.
pub open spec fn pairs_unique(d: Seq<(AccountId, AccountId, Balance)>) -> bool {
    forall|i: int, j: int|
        0 <= i < j < d.len() ==> (#[trigger] d[i].0, d[i].1) != (#[trigger] d[j].0, d[j].1)
}

/// Some record of `s` belongs to `a`.
pub open spec fn has_account(s: Seq<(AccountId, Balance)>, a: AccountId) -> bool {
    exists|i: int| 0 <= i < s.len() && #[trigger] s[i].0 == a
}

/// The position of the record of `a` in `s`.
pub open spec fn account_index(s: Seq<(AccountId, Balance)>, a: AccountId) -> int {
    choose|i: int| 0 <= i < s.len() && #[trigger] s[i].0 == a
}

/// Some delegation of `d` goes from `voter` to `target`.
pub open spec fn has_pair(
    d: Seq<(AccountId, AccountId, Balance)>,
    voter: AccountId,
    target: AccountId,
) -> bool {
    exists|i: int| 0 <= i < d.len() && #[trigger] d[i].0 == voter && d[i].1 == target
}

/// The position of the delegation from `voter` to `target` in `d`.
pub open spec fn pair_index(
    d: Seq<(AccountId, AccountId, Balance)>,
    voter: AccountId,
    target: AccountId,
) -> int {
    choose|i: int| 0 <= i < d.len() && #[trigger] d[i].0 == voter && d[i].1 == target
}

/// The sum of the amounts of the delegations of `d` that name `target`.
pub open spec fn delegated(d: Seq<(AccountId, AccountId, Balance)>, target: AccountId) -> int
    decreases d.len(),
{
    if d.len() == 0 {
        0
    } else {
        delegated(d.drop_last(), target) + if d.last().1 == target {
            d.last().2 as int
        } else {
            0
        }
    }
}

pub proof fn lemma_delegated_nonneg(d: Seq<(AccountId, AccountId, Balance)>, target: AccountId)
    ensures
        delegated(d, target) >= 0,
    decreases d.len(),
{
    if d.len() > 0 {
        lemma_delegated_nonneg(d.drop_last(), target);
    }
}

pub proof fn lemma_delegated_push(
    d: Seq<(AccountId, AccountId, Balance)>,
    x: (AccountId, AccountId, Balance),
    target: AccountId,
)
    ensures
        delegated(d.push(x), target) == delegated(d, target) + if x.1 == target {
            x.2 as int
        } else {
            0
        },
{
    assert(d.push(x).drop_last() =~= d);
}

pub proof fn lemma_delegated_remove(
    d: Seq<(AccountId, AccountId, Balance)>,
    i: int,
    target: AccountId,
)
    requires
        0 <= i < d.len(),
    ensures
        delegated(d.remove(i), target) == delegated(d, target) - if d[i].1 == target {
            d[i].2 as int
        } else {
            0
        },
    decreases d.len(),
{
    if i == d.len() - 1 {
        assert(d.remove(i) =~= d.drop_last());
    } else {
        let t = d.drop_last();
        lemma_delegated_remove(t, i, target);
        assert(d.remove(i).drop_last() =~= t.remove(i));
        assert(d.remove(i).last() == d.last());
    }
}

pub proof fn lemma_accounts_unique_push(s: Seq<(AccountId, Balance)>, x: (AccountId, Balance))
    requires
        accounts_unique(s),
        !has_account(s, x.0),
    ensures
        accounts_unique(s.push(x)),
{
    let t = s.push(x);
    assert forall|i: int, j: int| 0 <= i < j < t.len() implies #[trigger] t[i].0 != #[trigger] t[j].0 by {
        if j == s.len() {
            assert(s[i].0 == t[i].0);
        } else {
            assert(s[i].0 != s[j].0);
        }
    }
}

pub proof fn lemma_accounts_unique_remove(s: Seq<(AccountId, Balance)>, k: int)
    requires
        accounts_unique(s),
        0 <= k < s.len(),
    ensures
        accounts_unique(s.remove(k)),
{
    let t = s.remove(k);
    assert forall|i: int, j: int| 0 <= i < j < t.len() implies #[trigger] t[i].0 != #[trigger] t[j].0 by {
        let a = if i < k { i } else { i + 1 };
        let b = if j < k { j } else { j + 1 };
        assert(t[i] == s[a] && t[j] == s[b]);
        assert(s[a].0 != s[b].0);
    }
}

pub proof fn lemma_pairs_unique_push(
    d: Seq<(AccountId, AccountId, Balance)>,
    x: (AccountId, AccountId, Balance),
)
    requires
        pairs_unique(d),
        !has_pair(d, x.0, x.1),
    ensures
        pairs_unique(d.push(x)),
{
    let t = d.push(x);
    assert forall|i: int, j: int| 0 <= i < j < t.len() implies (#[trigger] t[i].0, t[i].1) != (
    #[trigger] t[j].0, t[j].1) by {
        if j == d.len() {
            assert(d[i].0 == t[i].0);
        } else {
            assert((d[i].0, d[i].1) != (d[j].0, d[j].1));
        }
    }
}

pub proof fn lemma_pairs_unique_remove(d: Seq<(AccountId, AccountId, Balance)>, k: int)
    requires
        pairs_unique(d),
        0 <= k < d.len(),
    ensures
        pairs_unique(d.remove(k)),
{
    let t = d.remove(k);
    assert forall|i: int, j: int| 0 <= i < j < t.len() implies (#[trigger] t[i].0, t[i].1) != (
    #[trigger] t[j].0, t[j].1) by {
        let a = if i < k { i } else { i + 1 };
        let b = if j < k { j } else { j + 1 };
        assert(t[i] == d[a] && t[j] == d[b]);
        assert((d[a].0, d[a].1) != (d[b].0, d[b].1));
    }
}

} // verus!
