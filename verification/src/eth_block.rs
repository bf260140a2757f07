//! What ethereum like blocks have in common.

use crate::block::Block;
use crate::bytes::Bytes;
use crate::withdrawal::Withdrawals;
use vstd::prelude::*;

verus! {

/// A trait for ethereum like blocks.
pub trait EthBlock {
    /// Returns reference to withdrawals in the block if present
    fn withdrawals(&self) -> (res: Option<&Withdrawals>);

    /// Returns reference to slashed validator entries in the block if present.
    fn slashed(&self) -> (res: Option<&Withdrawals>)
        default_ensures
            res is None,
    {
        None
    }

    /// Returns reference to the bridge requests blob carried in the block body, if
    /// present (post-Bridge-fork blocks only).
    fn bridge_requests(&self) -> (res: Option<&Bytes>)
        default_ensures
            res is None,
    {
        None
    }
}

impl<T, H> EthBlock for Block<T, H> {
    fn withdrawals(&self) -> (res: Option<&Withdrawals>)
        ensures
            match self.body.withdrawals {
                Some(withdrawals) => res == Some(&withdrawals),
                None => res is None,
            },
    {
        self.body.withdrawals.as_ref()
    }

    fn slashed(&self) -> (res: Option<&Withdrawals>)
        ensures
            match self.body.slashed {
                Some(slashed) => res == Some(&slashed),
                None => res is None,
            },
    {
        self.body.slashed.as_ref()
    }

    fn bridge_requests(&self) -> (res: Option<&Bytes>)
        ensures
            match self.body.bridge_requests {
                Some(blob) => res == Some(&blob),
                None => res is None,
            },
    {
        self.body.bridge_requests.as_ref()
    }
}

} // verus!
