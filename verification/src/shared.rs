//! The minimal action model shared with external consumers of a signal.

use vstd::prelude::*;

verus! {

/// A signal's action as external consumers see it.
#[derive(Debug, Clone, PartialEq, Eq, Structural)]
pub enum TradeAction {
    Hold,
    Sell,
    Buy,
}

} // verus!
