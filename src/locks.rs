use vstd::prelude::*;

use crate::types::{AccountId, Balance, LockId};

verus! {

/// The amount of the lock `id` on `who` in `s`: the latest entry for them, or zero.
pub open spec fn lock_in(s: Seq<(AccountId, LockId, Balance)>, who: AccountId, id: LockId) -> Balance
    decreases s.len(),
{
    if s.len() == 0 {
        0
    } else if s.last().0 == who && s.last().1 == id {
        s.last().2
    } else {
        lock_in(s.drop_last(), who, id)
    }
}

/// The largest amount of any entry of `s` on `who`, or zero.
pub open spec fn frozen_in(s: Seq<(AccountId, LockId, Balance)>, who: AccountId) -> Balance
    decreases s.len(),
{
    if s.len() == 0 {
        0
    } else {
        let rest = frozen_in(s.drop_last(), who);
        if s.last().0 == who && s.last().2 > rest {
            s.last().2
        } else {
            rest
        }
    }
}

/// `s` without its entries for the lock `id` on `who`.
pub open spec fn without(s: Seq<(AccountId, LockId, Balance)>, who: AccountId, id: LockId) -> Seq<
    (AccountId, LockId, Balance),
>
    decreases s.len(),
{
    if s.len() == 0 {
        s
    } else {
        let rest = without(s.drop_last(), who, id);
        if s.last().0 == who && s.last().1 == id {
            rest
        } else {
            rest.push(s.last())
        }
    }
}

pub proof fn lemma_without(
    s: Seq<(AccountId, LockId, Balance)>,
    who: AccountId,
    id: LockId,
    x: AccountId,
    j: LockId,
)
    ensures
        lock_in(without(s, who, id), x, j) == if x == who && j == id {
            0
        } else {
            lock_in(s, x, j)
        },
        x != who ==> frozen_in(without(s, who, id), x) == frozen_in(s, x),
    decreases s.len(),
{
    if s.len() > 0 {
        let rest = without(s.drop_last(), who, id);
        lemma_without(s.drop_last(), who, id, x, j);
        if !(s.last().0 == who && s.last().1 == id) {
            assert(rest.push(s.last()).drop_last() =~= rest);
        }
    }
}

pub proof fn lemma_push(
    s: Seq<(AccountId, LockId, Balance)>,
    e: (AccountId, LockId, Balance),
    x: AccountId,
    j: LockId,
)
    ensures
        lock_in(s.push(e), x, j) == if x == e.0 && j == e.1 {
            e.2
        } else {
            lock_in(s, x, j)
        },
        x != e.0 ==> frozen_in(s.push(e), x) == frozen_in(s, x),
{
    assert(s.push(e).drop_last() =~= s);
}

/// The entries of `s` but those for the lock `id` on `who`.
pub fn remove_entries(s: &Vec<(AccountId, LockId, Balance)>, who: AccountId, id: LockId) -> (r: Vec<
    (AccountId, LockId, Balance),
>)
    ensures
        r@ == without(s@, who, id),
{
    let mut out: Vec<(AccountId, LockId, Balance)> = Vec::new();
    let mut k: usize = 0;
    while k < s.len()
        invariant
            k <= s@.len(),
            out@ == without(s@.take(k as int), who, id),
        decreases s@.len() - k,
    {
        let e = s[k];
        proof {
            assert(s@.take(k + 1).drop_last() =~= s@.take(k as int));
        }
        if !(e.0 == who && e.1 == id) {
            out.push(e);
        }
        k += 1;
    }
    proof {
        assert(s@.take(s@.len() as int) =~= s@);
    }
    out
}

/// The amount of the lock `id` on `who` in `s`.
pub fn find_lock(s: &Vec<(AccountId, LockId, Balance)>, who: AccountId, id: LockId) -> (r: Balance)
    ensures
        r == lock_in(s@, who, id),
{
    let mut k: usize = s.len();
    proof {
        assert(s@.take(s@.len() as int) =~= s@);
    }
    while k > 0
        invariant
            k <= s@.len(),
            lock_in(s@, who, id) == lock_in(s@.take(k as int), who, id),
        decreases k,
    {
        let e = s[k - 1];
        proof {
            assert(s@.take(k as int).drop_last() =~= s@.take(k - 1));
        }
        if e.0 == who && e.1 == id {
            return e.2;
        }
        k -= 1;
    }
    0
}

/// The largest lock on `who` in `s`.
pub fn find_frozen(s: &Vec<(AccountId, LockId, Balance)>, who: AccountId) -> (r: Balance)
    ensures
        r == frozen_in(s@, who),
{
    let mut r: Balance = 0;
    let mut k: usize = 0;
    while k < s.len()
        invariant
            k <= s@.len(),
            r == frozen_in(s@.take(k as int), who),
        decreases s@.len() - k,
    {
        let e = s[k];
        proof {
            assert(s@.take(k + 1).drop_last() =~= s@.take(k as int));
        }
        if e.0 == who && e.2 > r {
            r = e.2;
        }
        k += 1;
    }
    proof {
        assert(s@.take(s@.len() as int) =~= s@);
    }
    r
}

} // verus!
