use vstd::prelude::*;

use crate::types::AccountId;

verus! {

/// Position `i` holds a candidate of greatest weight in `s`, and every
/// earlier candidate weighs strictly less.
pub open spec fn is_first_heaviest(s: Seq<(AccountId, u128)>, i: int) -> bool {
    &&& 0 <= i < s.len()
    &&& forall|j: int| 0 <= j < s.len() ==> #[trigger] s[j].1 <= s[i].1
    &&& forall|j: int| 0 <= j < i ==> #[trigger] s[j].1 < s[i].1
}

/// The position of the earliest candidate of greatest weight.
pub open spec fn first_heaviest(s: Seq<(AccountId, u128)>) -> int {
    choose|i: int| is_first_heaviest(s, i)
}

/// The accounts of the `count` heaviest candidates, heaviest first; among
/// candidates of equal weight the earlier one comes first.
///
/// This is the candidate list sorted by descending weight with a stable sort,
/// cut after `count` entries.
pub open spec fn select(s: Seq<(AccountId, u128)>, count: nat) -> Seq<AccountId>
    decreases count,
{
    if count == 0 || s.len() == 0 {
        Seq::empty()
    } else {
        let i = first_heaviest(s);
        seq![s[i].0] + select(s.remove(i), (count - 1) as nat)
    }
}

proof fn lemma_first_heaviest_unique(s: Seq<(AccountId, u128)>, i: int, j: int)
    requires
        is_first_heaviest(s, i),
        is_first_heaviest(s, j),
    ensures
        i == j,
{
    if i < j {
        assert(s[i].1 < s[j].1);
        assert(s[j].1 <= s[i].1);
    } else if j < i {
        assert(s[j].1 < s[i].1);
        assert(s[i].1 <= s[j].1);
    }
}

/// The selection holds `count` accounts, or every candidate where there are fewer.
pub proof fn lemma_select_len(s: Seq<(AccountId, u128)>, count: nat)
    ensures
        select(s, count).len() == if count <= s.len() {
            count
        } else {
            s.len()
        },
    decreases count,
{
    if count > 0 && s.len() > 0 {
        lemma_first_heaviest_exists(s);
        lemma_select_len(s.remove(first_heaviest(s)), (count - 1) as nat);
    }
}

/// A non-empty candidate list has an earliest heaviest candidate.
proof fn lemma_first_heaviest_exists(s: Seq<(AccountId, u128)>)
    requires
        s.len() > 0,
    ensures
        is_first_heaviest(s, first_heaviest(s)),
    decreases s.len(),
{
    if s.len() == 1 {
        assert(is_first_heaviest(s, 0));
    } else {
        let t = s.drop_last();
        lemma_first_heaviest_exists(t);
        let j = first_heaviest(t);
        let n = s.len() - 1;
        if s[n].1 > s[j].1 {
            assert forall|k: int| 0 <= k < s.len() implies #[trigger] s[k].1 <= s[n].1 by {
                if k < n {
                    assert(t[k].1 <= t[j].1);
                }
            }
            assert forall|k: int| 0 <= k < n implies #[trigger] s[k].1 < s[n].1 by {
                assert(t[k].1 <= t[j].1);
            }
            assert(is_first_heaviest(s, n));
        } else {
            assert forall|k: int| 0 <= k < s.len() implies #[trigger] s[k].1 <= s[j].1 by {
                if k < n {
                    assert(t[k].1 <= t[j].1);
                }
            }
            assert forall|k: int| 0 <= k < j implies #[trigger] s[k].1 < s[j].1 by {
                assert(t[k].1 < t[j].1);
            }
            assert(is_first_heaviest(s, j));
        }
    }
}

/// Finds the earliest candidate of greatest weight.
fn first_heaviest_index(s: &Vec<(AccountId, u128)>) -> (r: usize)
    requires
        s@.len() > 0,
    ensures
        r == first_heaviest(s@),
        is_first_heaviest(s@, r as int),
{
    let mut best: usize = 0;
    let mut i: usize = 1;
    while i < s.len()
        invariant
            1 <= i <= s@.len(),
            0 <= best < i,
            forall|j: int| 0 <= j < i ==> #[trigger] s@[j].1 <= s@[best as int].1,
            forall|j: int| 0 <= j < best ==> #[trigger] s@[j].1 < s@[best as int].1,
        decreases s@.len() - i,
    {
        if s[i].1 > s[best].1 {
            best = i;
        }
        i += 1;
    }
    proof {
        assert(is_first_heaviest(s@, best as int));
        lemma_first_heaviest_exists(s@);
        lemma_first_heaviest_unique(s@, best as int, first_heaviest(s@));
    }
    best
}

/// Picks the accounts of the `count` heaviest candidates, heaviest first,
/// keeping the candidates' order among equal weights.
pub fn select_heaviest(candidates: Vec<(AccountId, u128)>, count: u32) -> (r: Vec<AccountId>)
    ensures
        r@ == select(candidates@, count as nat),
{
    let ghost all = candidates@;
    let mut rest = candidates;
    let mut out: Vec<AccountId> = Vec::new();
    let mut k: u32 = 0;
    while k < count && rest.len() > 0
        invariant
            k <= count,
            out@ + select(rest@, (count - k) as nat) == select(all, count as nat),
        decreases count - k,
    {
        let i = first_heaviest_index(&rest);
        let ghost before = rest@;
        let item = rest.remove(i);
        proof {
            assert(select(before, (count - k) as nat) == seq![item.0] + select(
                rest@,
                (count - k - 1) as nat,
            ));
            assert(out@.push(item.0) + select(rest@, (count - k - 1) as nat) =~= out@ + select(
                before,
                (count - k) as nat,
            ));
        }
        out.push(item.0);
        k += 1;
    }
    proof {
        assert(select(rest@, (count - k) as nat) =~= Seq::<AccountId>::empty());
        assert(out@ + Seq::<AccountId>::empty() =~= out@);
    }
    out
}

/// No two candidates of `s` share an account.
pub open spec fn distinct_accounts(s: Seq<(AccountId, u128)>) -> bool {
    forall|i: int, j: int| 0 <= i < j < s.len() ==> #[trigger] s[i].0 != #[trigger] s[j].0
}

/// Every selected account is the account of a candidate, and where the
/// candidates' accounts are distinct, so are the selected ones.
pub proof fn lemma_select_from_candidates(s: Seq<(AccountId, u128)>, count: nat)
    ensures
        forall|k: int|
            0 <= k < select(s, count).len() ==> exists|j: int|
                0 <= j < s.len() && s[j].0 == #[trigger] select(s, count)[k],
        distinct_accounts(s) ==> select(s, count).no_duplicates(),
    decreases count,
{
    if count > 0 && s.len() > 0 {
        lemma_first_heaviest_exists(s);
        let i = first_heaviest(s);
        let t = s.remove(i);
        let c = (count - 1) as nat;
        lemma_select_from_candidates(t, c);
        let sel = select(s, count);
        let tail = select(t, c);
        assert(sel == seq![s[i].0] + tail);
        assert forall|k: int| 0 <= k < sel.len() implies exists|j: int|
            0 <= j < s.len() && s[j].0 == #[trigger] sel[k] by {
            if k == 0 {
                assert(s[i].0 == sel[0]);
            } else {
                assert(sel[k] == tail[k - 1]);
                let j = choose|j: int| 0 <= j < t.len() && t[j].0 == tail[k - 1];
                let jj = if j < i { j } else { j + 1 };
                assert(s[jj].0 == sel[k]);
            }
        }
        if distinct_accounts(s) {
            assert(distinct_accounts(t)) by {
                assert forall|a: int, b: int| 0 <= a < b < t.len() implies #[trigger] t[a].0
                    != #[trigger] t[b].0 by {
                    let aa = if a < i { a } else { a + 1 };
                    let bb = if b < i { b } else { b + 1 };
                    assert(s[aa].0 != s[bb].0);
                }
            }
            assert forall|x: int, y: int| 0 <= x < y < sel.len() implies sel[x] != sel[y] by {
                if x == 0 {
                    assert(sel[y] == tail[y - 1]);
                    let j = choose|j: int| 0 <= j < t.len() && t[j].0 == tail[y - 1];
                    let jj = if j < i { j } else { j + 1 };
                    assert(s[jj].0 == sel[y]);
                    if jj < i {
                        assert(s[jj].0 != s[i].0);
                    } else {
                        assert(s[i].0 != s[jj].0);
                    }
                } else {
                    assert(sel[x] == tail[x - 1] && sel[y] == tail[y - 1]);
                }
            }
        }
    }
}

} // verus!
