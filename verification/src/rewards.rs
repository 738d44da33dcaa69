//! Registering a reward pool, and the share of it that a claimant is owed.

use crate::biguint::BigUint;
use crate::bytes::copy_bytes;
use crate::models::{CheckpointView, Error, PaymentView, PoolId, RewardsCheckpoint, TokenPayment};
use crate::storage::{Airdrop, AirdropState, StorageModule};
use vstd::prelude::*;

verus! {

/// The share of `rewards_supply` that falls to `user_nft_amount` units out of
/// `total_nft_supply`, rounded down. What rounding leaves over stays in the
/// pool.
pub open spec fn reward_share(rewards_supply: nat, user_nft_amount: u32, total_nft_supply: nat) -> nat
    recommends
        total_nft_supply > 0,
{
    (rewards_supply * user_nft_amount as nat) / total_nft_supply
}

/// The share, or the rejection where the pool has no eligible units at all.
pub open spec fn reward_outcome(
    rewards_supply: nat,
    user_nft_amount: u32,
    total_nft_supply: nat,
) -> Result<nat, Error> {
    if total_nft_supply == 0 {
        Err(Error::DivisionByZero)
    } else {
        Ok(reward_share(rewards_supply, user_nft_amount, total_nft_supply))
    }
}

/// Whether `r` is the number `expected`, or the same rejection.
pub open spec fn same_amount(r: Result<BigUint, Error>, expected: Result<nat, Error>) -> bool {
    match expected {
        Ok(n) => r matches Ok(v) && v@ == n,
        Err(e) => r matches Err(f) && f == e,
    }
}

/// The share of `rewards_supply` that falls to `user_nft_amount` units out of
/// `total_nft_supply`, rounded down.
pub fn calculate_reward_amount(
    rewards_supply: &BigUint,
    user_nft_amount: u32,
    total_nft_supply: &BigUint,
) -> (r: Result<BigUint, Error>)
    ensures
        same_amount(r, reward_outcome(rewards_supply@, user_nft_amount, total_nft_supply@)),
{
    match rewards_supply.mul_u32(user_nft_amount).checked_div(total_nft_supply) {
        Some(share) => Ok(share),
        None => Err(Error::DivisionByZero),
    }
}

/// The share is never more than the units' proportion of the supply, and
/// less than one below it.
pub proof fn lemma_reward_share_floor(rewards_supply: nat, user_nft_amount: u32, total_nft_supply: nat)
    requires
        total_nft_supply > 0,
    ensures
        reward_share(rewards_supply, user_nft_amount, total_nft_supply) * total_nft_supply
            <= rewards_supply * user_nft_amount as nat,
        (reward_share(rewards_supply, user_nft_amount, total_nft_supply) + 1) * total_nft_supply
            > rewards_supply * user_nft_amount as nat,
{
    let x = (rewards_supply * user_nft_amount as nat) as int;
    let d = total_nft_supply as int;
    vstd::arithmetic::div_mod::lemma_fundamental_div_mod(x, d);
    vstd::arithmetic::div_mod::lemma_mod_bound(x, d);
    assert((x / d + 1) * d == d * (x / d) + d) by (nonlinear_arith);
    assert((x / d) * d == d * (x / d)) by (nonlinear_arith);
}

/// A claimant who holds no more units than there are in total is owed no
/// more than the whole supply.
pub proof fn lemma_reward_share_bounded(rewards_supply: nat, user_nft_amount: u32, total_nft_supply: nat)
    requires
        total_nft_supply > 0,
        user_nft_amount as nat <= total_nft_supply,
    ensures
        reward_share(rewards_supply, user_nft_amount, total_nft_supply) <= rewards_supply,
{
    lemma_reward_share_floor(rewards_supply, user_nft_amount, total_nft_supply);
    let q = reward_share(rewards_supply, user_nft_amount, total_nft_supply);
    assert(q <= rewards_supply) by (nonlinear_arith)
        requires
            q * total_nft_supply <= rewards_supply * user_nft_amount as nat,
            user_nft_amount as nat <= total_nft_supply,
            total_nft_supply > 0,
    ;
}

/// The pool that a deposit founds.
pub open spec fn checkpoint_of(total_nft_supply: nat, deposit: PaymentView) -> CheckpointView {
    CheckpointView {
        total_nft_supply,
        reward_token: deposit.token_identifier,
        reward_supply: deposit.amount,
        reward_nonce: deposit.token_nonce,
    }
}

/// The pool that a deposit founds, or why it is rejected, from the facts
/// that the decision rests on: the identifier must be new, the caller on
/// the allow-list, and neither the deposit nor the total of eligible units
/// zero, checked in this order. A pool without units could pay nobody, so
/// none is ever founded.
pub open spec fn founding(
    already_registered: bool,
    caller_whitelisted: bool,
    total_nft_supply: nat,
    deposit: PaymentView,
) -> Result<CheckpointView, Error> {
    if already_registered {
        Err(Error::DuplicatePool)
    } else if !caller_whitelisted {
        Err(Error::Unauthorized)
    } else if deposit.amount == 0 || total_nft_supply == 0 {
        Err(Error::InvalidAmount)
    } else {
        Ok(checkpoint_of(total_nft_supply, deposit))
    }
}

/// What registering a pool does to the state, or why it is rejected. A pool
/// that is registered is stored with its caller as its owner.
pub open spec fn registration(
    before: AirdropState,
    caller: Seq<u8>,
    root_hash: Seq<u8>,
    total_nft_supply: nat,
    deposit: PaymentView,
) -> Result<AirdropState, Error> {
    match founding(
        before.checkpoints.dom().contains(root_hash),
        before.whitelisted.contains(caller),
        total_nft_supply,
        deposit,
    ) {
        Err(e) => Err(e),
        Ok(pool) => Ok(
            AirdropState {
                checkpoints: before.checkpoints.insert(root_hash, pool),
                rewards_owner: before.rewards_owner.insert(root_hash, caller),
                ..before
            },
        ),
    }
}

/// Whether `r` is the pool `expected`, or the same rejection.
pub open spec fn same_checkpoint(
    r: Result<RewardsCheckpoint, Error>,
    expected: Result<CheckpointView, Error>,
) -> bool {
    match expected {
        Ok(pool) => r matches Ok(v) && v@ == pool,
        Err(e) => r matches Err(f) && f == e,
    }
}

/// The pool that the deposit `payment` founds, or why it is rejected.
pub fn new_checkpoint(
    already_registered: bool,
    caller_whitelisted: bool,
    total_nft_supply: BigUint,
    payment: TokenPayment,
) -> (r: Result<RewardsCheckpoint, Error>)
    ensures
        same_checkpoint(
            r,
            founding(already_registered, caller_whitelisted, total_nft_supply@, payment@),
        ),
{
    if already_registered {
        return Err(Error::DuplicatePool);
    }
    if !caller_whitelisted {
        return Err(Error::Unauthorized);
    }
    if payment.amount.is_zero() || total_nft_supply.is_zero() {
        return Err(Error::InvalidAmount);
    }
    Ok(
        RewardsCheckpoint {
            total_nft_supply,
            reward_token: payment.token_identifier,
            reward_supply: payment.amount,
            reward_nonce: payment.token_nonce,
        },
    )
}

/// Whether a call that returned `r` and left `after` did what `expected`
/// says: on success the new state, on rejection the error and no change.
pub open spec fn applied(
    before: AirdropState,
    expected: Result<AirdropState, Error>,
    r: Result<(), Error>,
    after: AirdropState,
) -> bool {
    match expected {
        Ok(state) => r is Ok && after == state,
        Err(e) => r == Err::<(), Error>(e) && after == before,
    }
}

/// Whether every pool registered in `state` has units to share its reward
/// among.
pub open spec fn pools_have_units(state: AirdropState) -> bool {
    forall|root_hash: Seq<u8>|
        state.checkpoints.dom().contains(root_hash) ==> (#[trigger] state.checkpoints[root_hash]).total_nft_supply
            > 0
}

/// No pool is registered without units or without a reward: the pool that a
/// registration stores has both, and where every pool had units before, every
/// pool has them after.
pub proof fn lemma_registration_keeps_units(
    before: AirdropState,
    caller: Seq<u8>,
    root_hash: Seq<u8>,
    total_nft_supply: nat,
    deposit: PaymentView,
)
    requires
        registration(before, caller, root_hash, total_nft_supply, deposit) is Ok,
    ensures
        total_nft_supply > 0,
        deposit.amount > 0,
        ({
            let after = registration(before, caller, root_hash, total_nft_supply, deposit)->Ok_0;
            &&& after.checkpoints[root_hash] == checkpoint_of(total_nft_supply, deposit)
            &&& pools_have_units(before) ==> pools_have_units(after)
        }),
{
}

/// A pool is registered once: whoever tries again under the same identifier,
/// with whatever supply and deposit, is rejected.
pub proof fn lemma_pool_registered_once(
    before: AirdropState,
    caller: Seq<u8>,
    root_hash: Seq<u8>,
    total_nft_supply: nat,
    deposit: PaymentView,
    later_caller: Seq<u8>,
    later_supply: nat,
    later_deposit: PaymentView,
)
    requires
        registration(before, caller, root_hash, total_nft_supply, deposit) is Ok,
    ensures
        registration(
            registration(before, caller, root_hash, total_nft_supply, deposit)->Ok_0,
            later_caller,
            root_hash,
            later_supply,
            later_deposit,
        ) == Err::<AirdropState, Error>(Error::DuplicatePool),
{
}

/// A registered pool is never changed: registering another leaves it as it
/// was.
pub proof fn lemma_registration_keeps_pools(
    before: AirdropState,
    caller: Seq<u8>,
    root_hash: Seq<u8>,
    total_nft_supply: nat,
    deposit: PaymentView,
    other: Seq<u8>,
)
    requires
        registration(before, caller, root_hash, total_nft_supply, deposit) is Ok,
        before.checkpoints.dom().contains(other),
    ensures
        registration(before, caller, root_hash, total_nft_supply, deposit)->Ok_0.checkpoints[other]
            == before.checkpoints[other],
{
}

/// Registering reward pools, and computing a claimant's share of one.
pub trait RewardsModule: StorageModule {
    /// Registers the pool `root_hash` with `total_nft_supply` eligible units
    /// and the deposit `payment` as its reward, for `caller`.
    fn add_rewards_checkpoint(
        &mut self,
        caller: &[u8],
        root_hash: PoolId,
        total_nft_supply: BigUint,
        payment: TokenPayment,
    ) -> (r: Result<(), Error>)
        ensures
            applied(
                old(self)@,
                registration(old(self)@, caller@, root_hash@, total_nft_supply@, payment@),
                r,
                final(self)@,
            ),
    ;

    /// The share of `rewards_supply` that falls to `user_nft_amount` units
    /// out of `total_nft_supply`, rounded down.
    fn calculate_reward_amount(
        &self,
        rewards_supply: BigUint,
        user_nft_amount: u32,
        total_nft_supply: BigUint,
    ) -> (r: Result<BigUint, Error>)
        ensures
            same_amount(r, reward_outcome(rewards_supply@, user_nft_amount, total_nft_supply@)),
    ;
}

impl RewardsModule for Airdrop {
    fn add_rewards_checkpoint(
        &mut self,
        caller: &[u8],
        root_hash: PoolId,
        total_nft_supply: BigUint,
        payment: TokenPayment,
    ) -> (r: Result<(), Error>) {
        let already_registered = self.rewards_checkpoints(&root_hash).is_some();
        let caller_whitelisted = self.whitelisted(caller);
        match new_checkpoint(already_registered, caller_whitelisted, total_nft_supply, payment) {
            Err(e) => Err(e),
            Ok(checkpoint) => {
                self.put_pool(root_hash, checkpoint, copy_bytes(caller));
                Ok(())
            },
        }
    }

    fn calculate_reward_amount(
        &self,
        rewards_supply: BigUint,
        user_nft_amount: u32,
        total_nft_supply: BigUint,
    ) -> (r: Result<BigUint, Error>) {
        calculate_reward_amount(&rewards_supply, user_nft_amount, &total_nft_supply)
    }
}

} // verus!
