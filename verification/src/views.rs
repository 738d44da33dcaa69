//! Read-only questions about the state.

use crate::models::{Error, PoolId, RewardsCheckpoint};
use crate::rewards::RewardsModule;
use crate::storage::{Airdrop, StorageModule};
use vstd::prelude::*;

verus! {

/// What anyone may ask of the airdrop.
pub trait ViewsModule: RewardsModule {
    /// The pool registered as `root_hash`, which has units to share among,
    /// or [`Error::UnknownPool`] where there is none.
    fn get_rewards_checkpoint(&self, root_hash: &PoolId) -> (r: Result<RewardsCheckpoint, Error>)
        ensures
            match r {
                Ok(pool) => self@.checkpoints.dom().contains(root_hash@) && pool@
                    == self@.checkpoints[root_hash@] && pool@.total_nft_supply > 0,
                Err(e) => !self@.checkpoints.dom().contains(root_hash@) && e == Error::UnknownPool,
            },
    ;

    /// Whether `user` was paid from the pool `root_hash`.
    fn get_rewards_claimed(&self, user: &[u8], root_hash: &PoolId) -> (claimed: bool)
        ensures
            claimed == self@.rewards_claimed.contains((user@, root_hash@)),
    ;
}

impl ViewsModule for Airdrop {
    fn get_rewards_checkpoint(&self, root_hash: &PoolId) -> (r: Result<RewardsCheckpoint, Error>) {
        match self.rewards_checkpoints(root_hash) {
            Some(pool) => Ok(pool),
            None => Err(Error::UnknownPool),
        }
    }

    fn get_rewards_claimed(&self, user: &[u8], root_hash: &PoolId) -> (claimed: bool) {
        self.rewards_claimed(user, root_hash)
    }
}

} // verus!
