//! The prices of one call, by asset index.
use vstd::prelude::*;

use crate::price::{last_price, Price, PriceData};

verus! {

/// The price of each listed asset, by the asset's index; `None` where the
/// oracle gave none.
pub struct Prices {
    pub prices: Vec<Option<Price>>,
}

impl Prices {
    /// The price of the asset at `index`, if one was given.
    pub open spec fn price_at(&self, index: int) -> Option<Price> {
        if 0 <= index < self.prices@.len() {
            self.prices@[index]
        } else {
            None
        }
    }

    /// No prices.
    pub fn new() -> (r: Prices)
        ensures
            forall|i: int| r.price_at(i) is None,
    {
        Prices { prices: Vec::new() }
    }

    /// The prices of a batch, by the index of each token in `asset_ids`.
    pub fn from_price_data(asset_ids: &Vec<String>, data: &PriceData) -> (r: Prices)
        ensures
            r.prices@.len() == asset_ids@.len(),
            forall|i: int|
                0 <= i < asset_ids@.len() ==> #[trigger] r.prices@[i] == last_price(
                    data.prices@,
                    asset_ids@[i]@,
                    data.prices@.len(),
                ),
    {
        let mut prices: Vec<Option<Price>> = Vec::new();
        let mut i: usize = 0;
        while i < asset_ids.len()
            invariant
                i <= asset_ids@.len(),
                prices@.len() == i,
                forall|t: int|
                    0 <= t < i ==> #[trigger] prices@[t] == last_price(
                        data.prices@,
                        asset_ids@[t]@,
                        data.prices@.len(),
                    ),
            decreases asset_ids@.len() - i,
        {
            let token = &asset_ids[i];
            let mut found: Option<Price> = None;
            let mut j: usize = 0;
            while j < data.prices.len()
                invariant
                    j <= data.prices@.len(),
                    found == last_price(data.prices@, token@, j as nat),
                decreases data.prices@.len() - j,
            {
                let entry = &data.prices[j];
                if entry.asset_id == *token && entry.price.is_some() {
                    found = entry.price;
                }
                j = j + 1;
            }
            prices.push(found);
            i = i + 1;
        }
        Prices { prices }
    }

    /// The price of the asset at `index`, if one was given.
    pub fn get(&self, index: usize) -> (r: Option<Price>)
        ensures
            r == self.price_at(index as int),
    {
        if index < self.prices.len() {
            self.prices[index]
        } else {
            None
        }
    }
}

} // verus!
