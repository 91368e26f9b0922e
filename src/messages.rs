//! The messages that carry action batches.
use vstd::prelude::*;

use crate::actions::Action;

verus! {

/// What a token transfer to the ledger asks for.
pub enum TokenReceiverMsg {
    /// Execute actions that need no prices.
    Execute { actions: Vec<Action> },
    /// Add the transferred amount to the asset's reserve.
    DepositToReserve,
}

/// What a call from the oracle asks for.
pub enum PriceReceiverMsg {
    /// Execute actions at the delivered prices.
    Execute { actions: Vec<Action> },
}

} // verus!
