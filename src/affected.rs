//! The farms that actions touch, which must be re-settled after them.
use vstd::prelude::*;

use crate::account::Account;
use crate::actions::{Action, AssetAmount, Contract};
use crate::farm::FarmId;

verus! {

/// The supply farm of each asset amount's token.
pub open spec fn supplied_farms(s: Seq<AssetAmount>) -> Seq<FarmId> {
    s.map_values(|aa: AssetAmount| FarmId::Supplied(aa.token_id))
}

/// The borrow farm of each asset amount's token.
pub open spec fn borrowed_farms(s: Seq<AssetAmount>) -> Seq<FarmId> {
    s.map_values(|aa: AssetAmount| FarmId::Borrowed(aa.token_id))
}

/// The farms an action touches on the acting account: the supply farm of a
/// withdrawn asset, both farms of a borrowed or repaid asset, and in a
/// liquidation the supply farm of every asset repaid with or taken. Moving
/// shares between supplied and collateral leaves the farms' shares as they
/// are.
pub open spec fn own_farms(a: Action) -> Seq<FarmId> {
    match a {
        Action::Withdraw(aa) => seq![FarmId::Supplied(aa.token_id)],
        Action::IncreaseCollateral(_) => seq![],
        Action::DecreaseCollateral(_) => seq![],
        Action::Borrow(aa) => seq![FarmId::Supplied(aa.token_id), FarmId::Borrowed(aa.token_id)],
        Action::Repay(aa) => seq![FarmId::Supplied(aa.token_id), FarmId::Borrowed(aa.token_id)],
        Action::Liquidate { account_id, in_assets, out_assets } => supplied_farms(in_assets@)
            + supplied_farms(out_assets@),
    }
}

/// The farms a liquidation touches on its target: the borrow farm of every
/// debt repaid and the supply farm of every collateral taken.
pub open spec fn target_farms(in_assets: Seq<AssetAmount>, out_assets: Seq<AssetAmount>) -> Seq<FarmId> {
    borrowed_farms(in_assets) + supplied_farms(out_assets)
}

/// The farms the first `k` actions touch on the acting account, in order.
pub open spec fn batch_farms(actions: Seq<Action>, k: nat) -> Seq<FarmId>
    decreases k,
{
    if k == 0 {
        seq![]
    } else {
        batch_farms(actions, (k - 1) as nat) + own_farms(actions[k - 1])
    }
}

/// The farms the first `k` actions touch on liquidated accounts, each with
/// the account's id.
pub open spec fn batch_targets(actions: Seq<Action>, k: nat) -> Seq<(String, FarmId)>
    decreases k,
{
    if k == 0 {
        seq![]
    } else {
        batch_targets(actions, (k - 1) as nat) + match actions[k - 1] {
            Action::Liquidate { account_id, in_assets, out_assets } => target_farms(
                in_assets@,
                out_assets@,
            ).map_values(|f: FarmId| (account_id, f)),
            _ => seq![],
        }
    }
}

/// The supply or borrow farm of each asset amount's token.
pub fn farms_of(assets: &Vec<AssetAmount>, borrowed: bool) -> (r: Vec<FarmId>)
    ensures
        r@ == if borrowed {
            borrowed_farms(assets@)
        } else {
            supplied_farms(assets@)
        },
{
    let mut r: Vec<FarmId> = Vec::new();
    let mut k: usize = 0;
    while k < assets.len()
        invariant
            k <= assets@.len(),
            r@ == if borrowed {
                borrowed_farms(assets@.take(k as int))
            } else {
                supplied_farms(assets@.take(k as int))
            },
        decreases assets@.len() - k,
    {
        let t = assets[k].token_id.clone();
        if borrowed {
            r.push(FarmId::Borrowed(t));
        } else {
            r.push(FarmId::Supplied(t));
        }
        k = k + 1;
        proof {
            if borrowed {
                assert(r@ =~= borrowed_farms(assets@.take(k as int)));
            } else {
                assert(r@ =~= supplied_farms(assets@.take(k as int)));
            }
        }
    }
    assert(assets@.take(k as int) =~= assets@);
    r
}

/// Appends `b` to `a`.
pub fn concat_farms(a: Vec<FarmId>, b: Vec<FarmId>) -> (r: Vec<FarmId>)
    ensures
        r@ == a@ + b@,
{
    let mut r = a;
    let ghost a0 = r@;
    let mut k: usize = 0;
    while k < b.len()
        invariant
            k <= b@.len(),
            r@ == a0 + b@.take(k as int),
        decreases b@.len() - k,
    {
        let f = match &b[k] {
            FarmId::Supplied(t) => FarmId::Supplied(t.clone()),
            FarmId::Borrowed(t) => FarmId::Borrowed(t.clone()),
        };
        r.push(f);
        k = k + 1;
        assert(r@ =~= a0 + b@.take(k as int));
    }
    assert(b@.take(k as int) =~= b@);
    r
}

/// The farms a liquidation touches on its target.
pub fn liquidation_target_farms(in_assets: &Vec<AssetAmount>, out_assets: &Vec<AssetAmount>) -> (r: Vec<
    FarmId,
>)
    ensures
        r@ == target_farms(in_assets@, out_assets@),
{
    concat_farms(farms_of(in_assets, true), farms_of(out_assets, false))
}

/// The farms an action touches on the acting account.
pub fn action_farms(action: &Action) -> (r: Vec<FarmId>)
    ensures
        r@ == own_farms(*action),
{
    match action {
        Action::Withdraw(aa) => {
            let mut r: Vec<FarmId> = Vec::new();
            r.push(FarmId::Supplied(aa.token_id.clone()));
            r
        },
        Action::IncreaseCollateral(_) => Vec::new(),
        Action::DecreaseCollateral(_) => Vec::new(),
        Action::Borrow(aa) => {
            let mut r: Vec<FarmId> = Vec::new();
            r.push(FarmId::Supplied(aa.token_id.clone()));
            r.push(FarmId::Borrowed(aa.token_id.clone()));
            r
        },
        Action::Repay(aa) => {
            let mut r: Vec<FarmId> = Vec::new();
            r.push(FarmId::Supplied(aa.token_id.clone()));
            r.push(FarmId::Borrowed(aa.token_id.clone()));
            r
        },
        Action::Liquidate { account_id, in_assets, out_assets } => concat_farms(
            farms_of(in_assets, false),
            farms_of(out_assets, false),
        ),
    }
}

/// The farms a batch touches: on the acting account, and on each liquidated
/// account with its id.
pub fn batch_affected_farms(actions: &Vec<Action>) -> (r: (Vec<FarmId>, Vec<(String, FarmId)>))
    ensures
        r.0@ == batch_farms(actions@, actions@.len()),
        r.1@ == batch_targets(actions@, actions@.len()),
{
    let mut own: Vec<FarmId> = Vec::new();
    let mut targets: Vec<(String, FarmId)> = Vec::new();
    let mut k: usize = 0;
    while k < actions.len()
        invariant
            k <= actions@.len(),
            own@ == batch_farms(actions@, k as nat),
            targets@ == batch_targets(actions@, k as nat),
        decreases actions@.len() - k,
    {
        own = concat_farms(own, action_farms(&actions[k]));
        match &actions[k] {
            Action::Liquidate { account_id, in_assets, out_assets } => {
                let fs = liquidation_target_farms(in_assets, out_assets);
                let ghost t0 = targets@;
                let mut q: usize = 0;
                while q < fs.len()
                    invariant
                        q <= fs@.len(),
                        targets@ == t0 + fs@.take(q as int).map_values(
                            |f: FarmId| (*account_id, f),
                        ),
                    decreases fs@.len() - q,
                {
                    let f = match &fs[q] {
                        FarmId::Supplied(t) => FarmId::Supplied(t.clone()),
                        FarmId::Borrowed(t) => FarmId::Borrowed(t.clone()),
                    };
                    targets.push((account_id.clone(), f));
                    q = q + 1;
                    assert(targets@ =~= t0 + fs@.take(q as int).map_values(
                        |f: FarmId| (*account_id, f),
                    ));
                }
                assert(fs@.take(q as int) =~= fs@);
            },
            _ => {},
        }
        k = k + 1;
    }
    (own, targets)
}

/// Every farm an account can be paid by: the supply farm of each asset it
/// supplies or posts as collateral, and the borrow farm of each asset it owes.
pub open spec fn potential_farms(ids: Seq<String>, account: &Account, n: nat) -> Seq<FarmId>
    decreases n,
{
    if n == 0 {
        seq![]
    } else {
        let i = n - 1;
        potential_farms(ids, account, (n - 1) as nat) + (if account.supplied@[i] > 0
            || account.collateral@[i] > 0 {
            seq![FarmId::Supplied(ids[i])]
        } else {
            seq![]
        }) + (if account.borrowed@[i] > 0 {
            seq![FarmId::Borrowed(ids[i])]
        } else {
            seq![]
        })
    }
}

impl Contract {
    /// Every farm the account can be paid by, for claiming all its rewards.
    pub fn get_all_potential_farms(&self, account: &Account) -> (r: Vec<FarmId>)
        requires
            self.wf(),
            self.fits(account),
        ensures
            r@ == potential_farms(self.asset_ids@, account, self.assets@.len()),
    {
        let mut r: Vec<FarmId> = Vec::new();
        let mut i: usize = 0;
        while i < self.assets.len()
            invariant
                self.wf(),
                self.fits(account),
                i <= self.assets@.len(),
                r@ == potential_farms(self.asset_ids@, account, i as nat),
            decreases self.assets@.len() - i,
        {
            let ghost r0 = r@;
            if account.supplied[i] > 0 || account.collateral[i] > 0 {
                r.push(FarmId::Supplied(self.asset_ids[i].clone()));
            }
            if account.borrowed[i] > 0 {
                r.push(FarmId::Borrowed(self.asset_ids[i].clone()));
            }
            i = i + 1;
            proof {
                let j = (i - 1) as int;
                let sp: Seq<FarmId> = if account.supplied@[j] > 0 || account.collateral@[j] > 0 {
                    seq![FarmId::Supplied(self.asset_ids@[j])]
                } else {
                    seq![]
                };
                let bp: Seq<FarmId> = if account.borrowed@[j] > 0 {
                    seq![FarmId::Borrowed(self.asset_ids@[j])]
                } else {
                    seq![]
                };
                assert(r@ =~= r0 + sp + bp);
            }
        }
        r
    }
}

} // verus!
