//! Oracle prices.
use vstd::prelude::*;

verus! {

/// The most decimals a valid price may carry.
pub const MAX_VALID_DECIMALS: u8 = 77;

/// A price of `multiplier * 10^-decimals` quote units per smallest unit of an asset.
#[derive(Clone, Copy, Debug, PartialEq, Eq, Structural)]
pub struct Price {
    pub multiplier: u128,
    pub decimals: u8,
}

/// One asset's entry in a price batch; `None` where the oracle had no price.
pub struct AssetOptionalPrice {
    pub asset_id: String,
    pub price: Option<Price>,
}

/// A batch of prices from the oracle, stamped in nanoseconds.
pub struct PriceData {
    pub timestamp: u64,
    pub recency_duration_sec: u32,
    pub prices: Vec<AssetOptionalPrice>,
}

/// The price the first `n` entries give `token`: the last one that has a
/// price, where several do.
pub open spec fn last_price(entries: Seq<AssetOptionalPrice>, token: Seq<char>, n: nat) -> Option<
    Price,
>
    decreases n,
{
    if n == 0 {
        None
    } else if entries[n - 1].asset_id@ == token && entries[n - 1].price is Some {
        entries[n - 1].price
    } else {
        last_price(entries, token, (n - 1) as nat)
    }
}

impl Price {
    /// Whether the number of decimals is within range.
    pub fn assert_valid(&self) -> (r: bool)
        ensures
            r == (self.decimals <= MAX_VALID_DECIMALS),
    {
        self.decimals <= MAX_VALID_DECIMALS
    }
}

} // verus!
