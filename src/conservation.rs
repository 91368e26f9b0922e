//! Conservation of shares: a pool's outstanding shares, and a farm's boosted
//! shares, stay equal to what their owners hold.
use vstd::prelude::*;

verus! {

/// The sum of a list of holdings.
pub open spec fn total(s: Seq<nat>) -> nat
    decreases s.len(),
{
    if s.len() == 0 {
        0
    } else {
        total(s.drop_last()) + s.last()
    }
}

/// Replacing one holding changes the sum by the difference.
pub proof fn lemma_total_update(s: Seq<nat>, k: int, v: nat)
    requires
        0 <= k < s.len(),
    ensures
        total(s.update(k, v)) + s[k] == total(s) + v,
    decreases s.len(),
{
    let t = s.update(k, v);
    if k == s.len() - 1 {
        assert(t.drop_last() =~= s.drop_last());
    } else {
        lemma_total_update(s.drop_last(), k, v);
        assert(t.drop_last() =~= s.drop_last().update(k, v));
    }
}

/// A pool's shares and one owner's holding changed by the same count.
pub open spec fn moves_together(
    pool_before: nat,
    pool_after: nat,
    held_before: nat,
    held_after: nat,
) -> bool {
    pool_after + held_before == pool_before + held_after
}

/// Pool conservation: where a pool's outstanding shares equal the sum of
/// its owners' holdings, an operation that moves one owner's holding and
/// the pool's shares together (as deposit, withdraw, borrow and repay state
/// in their contracts) keeps them equal.
pub proof fn lemma_pool_shares_conserved(
    holdings: Seq<nat>,
    owner: int,
    pool_shares_before: nat,
    pool_shares_after: nat,
    held_after: nat,
)
    requires
        0 <= owner < holdings.len(),
        total(holdings) == pool_shares_before,
        moves_together(pool_shares_before, pool_shares_after, holdings[owner], held_after),
    ensures
        total(holdings.update(owner, held_after)) == pool_shares_after,
{
    lemma_total_update(holdings, owner, held_after);
}

/// Pool conservation across owners: moving shares from one owner to another
/// (as liquidation moves collateral to the liquidator) leaves the pool's
/// shares equal to the sum of holdings.
pub proof fn lemma_shares_transfer_conserved(holdings: Seq<nat>, from: int, to: int, shares: nat)
    requires
        0 <= from < holdings.len(),
        0 <= to < holdings.len(),
        from != to,
        shares <= holdings[from],
    ensures
        total(
            holdings.update(from, (holdings[from] - shares) as nat).update(
                to,
                holdings[to] + shares,
            ),
        ) == total(holdings),
{
    let h1 = holdings.update(from, (holdings[from] - shares) as nat);
    lemma_total_update(holdings, from, (holdings[from] - shares) as nat);
    lemma_total_update(h1, to, holdings[to] + shares);
}

/// Farm closure: where a farm reward's boosted shares equal the sum of its
/// accounts' boosted shares, settling one account at new boosted shares (as
/// `settle_boosted_shares` does) keeps them equal.
pub proof fn lemma_boosted_shares_conserved(
    boosted: Seq<nat>,
    account: int,
    farm_boosted_before: nat,
    new_boosted: nat,
)
    requires
        0 <= account < boosted.len(),
        total(boosted) == farm_boosted_before,
    ensures
        total(boosted.update(account, new_boosted)) == farm_boosted_before - boosted[account]
            + new_boosted,
{
    lemma_total_update(boosted, account, new_boosted);
}

} // verus!
