//! Settling a claim: a batch of entries, each checked and paid in order, all
//! of them or none.
//!
//! An entry is rejected, in this order, where the owner of its pool is no
//! longer on the allow-list, where its signature does not verify, where the
//! claimant was paid from the pool before, and where the pool is unknown.
//! No pool is registered without eligible units; the decision on an entry
//! still refuses to divide by zero, whatever pool it is handed. The first
//! rejected entry rejects the whole claim, which then changes nothing. An
//! accepted entry marks the claimant as paid at once, so that a second entry
//! for the same pool in the same claim is rejected.

use crate::bytes::{bytes_eq, copy_bytes};
use crate::models::{CheckpointView, ClaimEntry, ClaimView, Error, PaymentView, PoolId,
    RewardsCheckpoint, TokenPayment, payment_views};
use crate::payments::{coalesce, settlement_of, Settlement, SettlementView};
use crate::rewards::{calculate_reward_amount, pools_have_units, reward_outcome, reward_share};
use crate::storage::{Airdrop, AirdropState, StorageModule};
use vstd::prelude::*;

verus! {

/// What a [`CheckedClaim`] stands for.
pub struct CheckedClaimView {
    pub entry: ClaimView,
    pub signature_valid: bool,
}

/// An entry of a claim together with the verdict on its signature.
#[derive(Clone, Copy, Debug, PartialEq, Eq)]
pub struct CheckedClaim {
    pub entry: ClaimEntry,
    pub signature_valid: bool,
}

impl View for CheckedClaim {
    type V = CheckedClaimView;

    open spec fn view(&self) -> CheckedClaimView {
        CheckedClaimView { entry: self.entry@, signature_valid: self.signature_valid }
    }
}

/// The views of a sequence of checked entries, in order.
pub open spec fn checked_views(claims: Seq<CheckedClaim>) -> Seq<CheckedClaimView> {
    Seq::new(claims.len(), |i: int| claims[i]@)
}

/// What one entry is worth, or why it is rejected, from the facts that the
/// decision rests on: whether the pool's owner, if one is recorded, is on
/// the allow-list; the verdict on the signature; whether the claimant was
/// paid from the pool before; and the pool, if it is registered.
pub open spec fn reward_decision(
    owner_whitelisted: Option<bool>,
    signature_valid: bool,
    already_claimed: bool,
    checkpoint: Option<CheckpointView>,
    eligible_units: u32,
) -> Result<PaymentView, Error> {
    if owner_whitelisted == Some(false) {
        Err(Error::OwnerNotWhitelisted)
    } else if !signature_valid {
        Err(Error::InvalidSignature)
    } else if already_claimed {
        Err(Error::AlreadyClaimed)
    } else {
        match checkpoint {
            None => Err(Error::UnknownPool),
            Some(pool) => match reward_outcome(
                pool.reward_supply,
                eligible_units,
                pool.total_nft_supply,
            ) {
                Err(e) => Err(e),
                Ok(amount) => Ok(
                    PaymentView {
                        token_identifier: pool.reward_token,
                        token_nonce: pool.reward_nonce,
                        amount,
                    },
                ),
            },
        }
    }
}

/// What the entry `entry` of `claimant` is worth in the state `state`, or
/// why it is rejected.
pub open spec fn entry_outcome(
    state: AirdropState,
    claimant: Seq<u8>,
    entry: ClaimView,
    signature_valid: bool,
) -> Result<PaymentView, Error> {
    reward_decision(
        if state.rewards_owner.dom().contains(entry.pool_id) {
            Some(state.whitelisted.contains(state.rewards_owner[entry.pool_id]))
        } else {
            None
        },
        signature_valid,
        state.rewards_claimed.contains((claimant, entry.pool_id)),
        if state.checkpoints.dom().contains(entry.pool_id) {
            Some(state.checkpoints[entry.pool_id])
        } else {
            None
        },
        entry.eligible_units,
    )
}

/// The state after `claimant` was paid from the pool `pool_id`.
pub open spec fn marked_claimed(state: AirdropState, claimant: Seq<u8>, pool_id: Seq<u8>) -> AirdropState {
    AirdropState { rewards_claimed: state.rewards_claimed.insert((claimant, pool_id)), ..state }
}

/// The state and the rewards after the entries `claims` of `claimant`, taken
/// in order, or the rejection of the first entry that is rejected.
pub open spec fn batch_outcome(
    state: AirdropState,
    claimant: Seq<u8>,
    claims: Seq<CheckedClaimView>,
) -> Result<(AirdropState, Seq<PaymentView>), Error>
    decreases claims.len(),
{
    if claims.len() == 0 {
        Ok((state, Seq::empty()))
    } else {
        match batch_outcome(state, claimant, claims.drop_last()) {
            Err(e) => Err(e),
            Ok((reached, rewards)) => match entry_outcome(
                reached,
                claimant,
                claims.last().entry,
                claims.last().signature_valid,
            ) {
                Err(e) => Err(e),
                Ok(reward) => Ok(
                    (
                        marked_claimed(reached, claimant, claims.last().entry.pool_id),
                        rewards.push(reward),
                    ),
                ),
            },
        }
    }
}

/// The state after the claim and what the claimant is owed, or the
/// rejection.
pub open spec fn claim_outcome(
    state: AirdropState,
    claimant: Seq<u8>,
    claims: Seq<CheckedClaimView>,
) -> Result<(AirdropState, SettlementView), Error> {
    match batch_outcome(state, claimant, claims) {
        Err(e) => Err(e),
        Ok((after, rewards)) => Ok((after, settlement_of(rewards))),
    }
}

/// Whether a call that returned `r` and left `after` did what `expected`
/// says: on success the new state and the settlement, on rejection the error
/// and no change.
pub open spec fn settled(
    before: AirdropState,
    expected: Result<(AirdropState, SettlementView), Error>,
    r: Result<Settlement, Error>,
    after: AirdropState,
) -> bool {
    match expected {
        Ok((state, owed)) => r matches Ok(s) && s@ == owed && after == state,
        Err(e) => r matches Err(f) && f == e && after == before,
    }
}

/// Whether `r` is the payment `expected`, or the same rejection.
pub open spec fn same_payment(r: Result<TokenPayment, Error>, expected: Result<PaymentView, Error>) -> bool {
    match expected {
        Ok(p) => r matches Ok(v) && v@ == p,
        Err(e) => r matches Err(f) && f == e,
    }
}

/// The view of a pool that may be missing.
pub open spec fn checkpoint_view(checkpoint: Option<RewardsCheckpoint>) -> Option<CheckpointView> {
    match checkpoint {
        Some(pool) => Some(pool@),
        None => None,
    }
}

/// What one entry is worth, or why it is rejected, from the facts that the
/// decision rests on.
pub fn entry_reward(
    owner_whitelisted: Option<bool>,
    signature_valid: bool,
    already_claimed: bool,
    checkpoint: Option<RewardsCheckpoint>,
    eligible_units: u32,
) -> (r: Result<TokenPayment, Error>)
    ensures
        same_payment(
            r,
            reward_decision(
                owner_whitelisted,
                signature_valid,
                already_claimed,
                checkpoint_view(checkpoint),
                eligible_units,
            ),
        ),
{
    match owner_whitelisted {
        Some(false) => {
            return Err(Error::OwnerNotWhitelisted);
        },
        _ => {},
    }
    if !signature_valid {
        return Err(Error::InvalidSignature);
    }
    if already_claimed {
        return Err(Error::AlreadyClaimed);
    }
    match checkpoint {
        None => Err(Error::UnknownPool),
        Some(pool) => {
            match calculate_reward_amount(
                &pool.reward_supply,
                eligible_units,
                &pool.total_nft_supply,
            ) {
                Err(e) => Err(e),
                Ok(amount) => Ok(
                    TokenPayment {
                        token_identifier: pool.reward_token,
                        token_nonce: pool.reward_nonce,
                        amount,
                    },
                ),
            }
        },
    }
}

/// `claimed`, and `claimant` paid from each of the pools `staged`.
spec fn claimed_with(
    claimed: Set<(Seq<u8>, Seq<u8>)>,
    claimant: Seq<u8>,
    staged: Seq<PoolId>,
) -> Set<(Seq<u8>, Seq<u8>)>
    decreases staged.len(),
{
    if staged.len() == 0 {
        claimed
    } else {
        claimed_with(claimed, claimant, staged.drop_last()).insert((claimant, staged.last()@))
    }
}

/// Whether the pool `pool_id` is among `staged`.
spec fn in_staged(staged: Seq<PoolId>, pool_id: Seq<u8>) -> bool
    decreases staged.len(),
{
    staged.len() > 0 && (staged.last()@ == pool_id || in_staged(staged.drop_last(), pool_id))
}

/// A pair is in `claimed_with` where it was claimed before or is staged.
proof fn lemma_claimed_with(
    claimed: Set<(Seq<u8>, Seq<u8>)>,
    claimant: Seq<u8>,
    staged: Seq<PoolId>,
    pool_id: Seq<u8>,
)
    ensures
        claimed_with(claimed, claimant, staged).contains((claimant, pool_id)) <==> (
        claimed.contains((claimant, pool_id)) || in_staged(staged, pool_id)),
    decreases staged.len(),
{
    if staged.len() > 0 {
        lemma_claimed_with(claimed, claimant, staged.drop_last(), pool_id);
    }
}

/// Whether the pool `pool_id` is among `staged`.
fn is_staged(staged: &Vec<PoolId>, pool_id: &PoolId) -> (found: bool)
    ensures
        found == in_staged(staged@, pool_id@),
{
    let mut i: usize = staged.len();
    assert(staged@.take(i as int) =~= staged@);
    while i > 0
        invariant
            i <= staged@.len(),
            in_staged(staged@, pool_id@) == in_staged(staged@.take(i as int), pool_id@),
        decreases i,
    {
        i = i - 1;
        assert(staged@.take(i + 1).drop_last() =~= staged@.take(i as int));
        if bytes_eq(staged[i].as_slice(), pool_id.as_slice()) {
            return true;
        }
    }
    false
}

impl Airdrop {
    /// Settles the claim of `caller`: checks and pays each entry in order,
    /// given the verdict on each signature, and merges the rewards into what
    /// is owed. One rejected entry rejects the claim, and nothing changes.
    pub fn settle_claims(&mut self, caller: &[u8], claims: &Vec<CheckedClaim>) -> (r: Result<
        Settlement,
        Error,
    >)
        ensures
            settled(
                old(self)@,
                claim_outcome(old(self)@, caller@, checked_views(claims@)),
                r,
                final(self)@,
            ),
            r matches Err(e) ==> e != Error::DivisionByZero,
    {
        let ghost before = self@;
        let ghost all = checked_views(claims@);
        let mut staged: Vec<PoolId> = Vec::new();
        let mut rewards: Vec<TokenPayment> = Vec::new();
        let mut i: usize = 0;
        proof {
            assert(all.take(0) =~= Seq::<CheckedClaimView>::empty());
            assert(payment_views(rewards@) =~= Seq::<PaymentView>::empty());
            assert(before =~= (AirdropState {
                rewards_claimed: claimed_with(before.rewards_claimed, caller@, staged@),
                ..before
            }));
        }
        while i < claims.len()
            invariant
                i <= claims.len(),
                self@ == before,
                all == checked_views(claims@),
                batch_outcome(before, caller@, all.take(i as int)) == Ok::<
                    (AirdropState, Seq<PaymentView>),
                    Error,
                >(
                    (
                        AirdropState {
                            rewards_claimed: claimed_with(before.rewards_claimed, caller@, staged@),
                            ..before
                        },
                        payment_views(rewards@),
                    ),
                ),
            decreases claims.len() - i,
        {
            let claim = claims[i];
            let ghost reached = AirdropState {
                rewards_claimed: claimed_with(before.rewards_claimed, caller@, staged@),
                ..before
            };
            let ghost paid_so_far = payment_views(rewards@);
            proof {
                assert(all.take(i + 1).drop_last() =~= all.take(i as int));
                assert(all.take(i + 1).last() == claim@);
                lemma_claimed_with(before.rewards_claimed, caller@, staged@, claim.entry.pool_id@);
            }
            let owner_whitelisted = match self.rewards_owner(&claim.entry.pool_id) {
                Some(owner) => Some(self.whitelisted(owner.as_slice())),
                None => None,
            };
            let already_claimed = self.rewards_claimed(caller, &claim.entry.pool_id) || is_staged(
                &staged,
                &claim.entry.pool_id,
            );
            let checkpoint = self.rewards_checkpoints(&claim.entry.pool_id);
            match entry_reward(
                owner_whitelisted,
                claim.signature_valid,
                already_claimed,
                checkpoint,
                claim.entry.eligible_units,
            ) {
                Err(e) => {
                    proof {
                        lemma_rejection_stands(before, caller@, all, i + 1);
                        assert(all.take(all.len() as int) =~= all);
                    }
                    return Err(e);
                },
                Ok(reward) => {
                    let ghost staged_before = staged@;
                    staged.push(claim.entry.pool_id);
                    rewards.push(reward);
                    proof {
                        assert(staged@.drop_last() =~= staged_before);
                        assert(payment_views(rewards@) =~= paid_so_far.push(reward@));
                        assert(marked_claimed(reached, caller@, claim.entry.pool_id@)
                            =~= (AirdropState {
                            rewards_claimed: claimed_with(before.rewards_claimed, caller@, staged@),
                            ..before
                        }));
                    }
                },
            }
            i = i + 1;
        }
        proof {
            assert(all.take(i as int) =~= all);
        }
        let mut j: usize = 0;
        proof {
            assert(staged@.take(0) =~= Seq::<PoolId>::empty());
            assert(self@ =~= (AirdropState {
                rewards_claimed: claimed_with(before.rewards_claimed, caller@, staged@.take(0)),
                ..before
            }));
        }
        while j < staged.len()
            invariant
                j <= staged.len(),
                self@ == (AirdropState {
                    rewards_claimed: claimed_with(
                        before.rewards_claimed,
                        caller@,
                        staged@.take(j as int),
                    ),
                    ..before
                }),
            decreases staged.len() - j,
        {
            proof {
                assert(staged@.take(j + 1).drop_last() =~= staged@.take(j as int));
            }
            self.put_claimed(copy_bytes(caller), staged[j]);
            j = j + 1;
        }
        proof {
            assert(staged@.take(j as int) =~= staged@);
        }
        Ok(coalesce(&rewards))
    }
}

/// Once a part of a claim is rejected, the whole claim is rejected for the
/// same reason: no later entry is looked at.
pub proof fn lemma_rejection_stands(
    state: AirdropState,
    claimant: Seq<u8>,
    claims: Seq<CheckedClaimView>,
    n: int,
)
    requires
        0 <= n <= claims.len(),
        batch_outcome(state, claimant, claims.take(n)) is Err,
    ensures
        batch_outcome(state, claimant, claims) == batch_outcome(state, claimant, claims.take(n)),
    decreases claims.len() - n,
{
    if n == claims.len() {
        assert(claims.take(n) =~= claims);
    } else {
        assert(claims.take(n + 1).drop_last() =~= claims.take(n));
        lemma_rejection_stands(state, claimant, claims, n + 1);
    }
}

/// Whether the owner of the pool `pool_id` does not stand in the way of a
/// claim: none is recorded, or the one recorded is on the allow-list.
pub open spec fn owner_allows(state: AirdropState, pool_id: Seq<u8>) -> bool {
    state.rewards_owner.dom().contains(pool_id) ==> state.whitelisted.contains(
        state.rewards_owner[pool_id],
    )
}

/// A claim that is accepted changes nothing but the record of payments, which
/// only grows: it then holds the claimant with every pool of the claim, none
/// of which it held before. Every entry has earned one reward.
pub proof fn lemma_accepted_claim(
    state: AirdropState,
    claimant: Seq<u8>,
    claims: Seq<CheckedClaimView>,
)
    requires
        batch_outcome(state, claimant, claims) is Ok,
    ensures
        ({
            let after = batch_outcome(state, claimant, claims)->Ok_0.0;
            let rewards = batch_outcome(state, claimant, claims)->Ok_0.1;
            &&& after == (AirdropState { rewards_claimed: after.rewards_claimed, ..state })
            &&& state.rewards_claimed.subset_of(after.rewards_claimed)
            &&& rewards.len() == claims.len()
            &&& forall|k: int|
                0 <= k < claims.len() ==> after.rewards_claimed.contains(
                    (claimant, #[trigger] claims[k].entry.pool_id),
                )
            &&& forall|k: int|
                0 <= k < claims.len() ==> !state.rewards_claimed.contains(
                    (claimant, #[trigger] claims[k].entry.pool_id),
                )
        }),
    decreases claims.len(),
{
    if claims.len() > 0 {
        let init = claims.drop_last();
        lemma_accepted_claim(state, claimant, init);
        let reached = batch_outcome(state, claimant, init)->Ok_0.0;
        let after = batch_outcome(state, claimant, claims)->Ok_0.0;
        assert(after == marked_claimed(reached, claimant, claims.last().entry.pool_id));
        assert forall|k: int| 0 <= k < claims.len() implies after.rewards_claimed.contains(
            (claimant, #[trigger] claims[k].entry.pool_id),
        ) by {
            if k < init.len() {
                assert(init[k] == claims[k]);
            }
        }
        assert forall|k: int| 0 <= k < claims.len() implies !state.rewards_claimed.contains(
            (claimant, #[trigger] claims[k].entry.pool_id),
        ) by {
            if k < init.len() {
                assert(init[k] == claims[k]);
            }
        }
    }
}

/// Where a claim is accepted, so is every part of it that was settled on
/// the way.
pub proof fn lemma_accepted_parts(
    state: AirdropState,
    claimant: Seq<u8>,
    claims: Seq<CheckedClaimView>,
    n: int,
)
    requires
        0 <= n <= claims.len(),
        batch_outcome(state, claimant, claims) is Ok,
    ensures
        batch_outcome(state, claimant, claims.take(n)) is Ok,
{
    if batch_outcome(state, claimant, claims.take(n)) is Err {
        lemma_rejection_stands(state, claimant, claims, n);
    }
}

/// A valid claim is paid its share: where the pool is registered with units
/// to share among, its owner does not stand in the way, the signature
/// verifies and the claimant was not paid from the pool before, the claim of
/// this one entry is accepted, marks the claimant as paid from the pool, and
/// earns the share of the pool's supply that falls to the units, rounded
/// down, in the pool's asset.
pub proof fn lemma_valid_claim_pays_share(
    state: AirdropState,
    claimant: Seq<u8>,
    entry: ClaimView,
)
    requires
        state.checkpoints.dom().contains(entry.pool_id),
        state.checkpoints[entry.pool_id].total_nft_supply > 0,
        owner_allows(state, entry.pool_id),
        !state.rewards_claimed.contains((claimant, entry.pool_id)),
    ensures
        ({
            let pool = state.checkpoints[entry.pool_id];
            let outcome = batch_outcome(
                state,
                claimant,
                seq![CheckedClaimView { entry, signature_valid: true }],
            );
            &&& outcome is Ok
            &&& outcome->Ok_0.0 == marked_claimed(state, claimant, entry.pool_id)
            &&& outcome->Ok_0.0.rewards_claimed.contains((claimant, entry.pool_id))
            &&& outcome->Ok_0.1 == seq![
                PaymentView {
                    token_identifier: pool.reward_token,
                    token_nonce: pool.reward_nonce,
                    amount: reward_share(
                        pool.reward_supply,
                        entry.eligible_units,
                        pool.total_nft_supply,
                    ),
                },
            ]
        }),
{
    let one = seq![CheckedClaimView { entry, signature_valid: true }];
    assert(one.drop_last() =~= Seq::<CheckedClaimView>::empty());
    assert(batch_outcome(state, claimant, one.drop_last()) == Ok::<
        (AirdropState, Seq<PaymentView>),
        Error,
    >((state, Seq::empty())));
    let reward = entry_outcome(state, claimant, entry, true)->Ok_0;
    assert(Seq::<PaymentView>::empty().push(reward) =~= seq![reward]);
}

/// No claimant is paid from a pool twice: a claim that holds a pool from
/// which the claimant was paid before is rejected, and with
/// [`Error::AlreadyClaimed`] where that entry is the first to be rejected
/// and nothing else is wrong with it.
pub proof fn lemma_paid_pool_rejected(
    state: AirdropState,
    claimant: Seq<u8>,
    claims: Seq<CheckedClaimView>,
    k: int,
)
    requires
        0 <= k < claims.len(),
        state.rewards_claimed.contains((claimant, claims[k].entry.pool_id)),
    ensures
        batch_outcome(state, claimant, claims) is Err,
        (batch_outcome(state, claimant, claims.take(k)) is Ok && claims[k].signature_valid
            && owner_allows(state, claims[k].entry.pool_id)) ==> batch_outcome(
            state,
            claimant,
            claims,
        ) == Err::<(AirdropState, Seq<PaymentView>), Error>(Error::AlreadyClaimed),
{
    if batch_outcome(state, claimant, claims) is Ok {
        lemma_accepted_claim(state, claimant, claims);
    }
    if batch_outcome(state, claimant, claims.take(k)) is Ok {
        lemma_accepted_claim(state, claimant, claims.take(k));
        assert(claims.take(k + 1).drop_last() =~= claims.take(k));
        assert(claims.take(k + 1).last() == claims[k]);
        lemma_rejection_stands(state, claimant, claims, k + 1);
    }
}

/// A second claim for a pool that an accepted claim has paid is rejected,
/// whatever else the second claim holds.
pub proof fn lemma_second_claim_rejected(
    state: AirdropState,
    claimant: Seq<u8>,
    first: Seq<CheckedClaimView>,
    i: int,
    second: Seq<CheckedClaimView>,
    j: int,
)
    requires
        batch_outcome(state, claimant, first) is Ok,
        0 <= i < first.len(),
        0 <= j < second.len(),
        second[j].entry.pool_id == first[i].entry.pool_id,
    ensures
        batch_outcome(batch_outcome(state, claimant, first)->Ok_0.0, claimant, second) is Err,
        (second.len() == 1 && second[0].signature_valid && owner_allows(
            state,
            second[0].entry.pool_id,
        )) ==> batch_outcome(batch_outcome(state, claimant, first)->Ok_0.0, claimant, second)
            == Err::<(AirdropState, Seq<PaymentView>), Error>(Error::AlreadyClaimed),
{
    lemma_accepted_claim(state, claimant, first);
    let after = batch_outcome(state, claimant, first)->Ok_0.0;
    lemma_paid_pool_rejected(after, claimant, second, j);
    if second.len() == 1 {
        assert(second.take(0) =~= Seq::<CheckedClaimView>::empty());
    }
}

/// A claim that holds the same pool twice is rejected as a whole, and with
/// [`Error::AlreadyClaimed`] where the second of the two is the first entry
/// to be rejected and nothing else is wrong with it.
pub proof fn lemma_pool_twice_rejected(
    state: AirdropState,
    claimant: Seq<u8>,
    claims: Seq<CheckedClaimView>,
    i: int,
    j: int,
)
    requires
        0 <= i < j < claims.len(),
        claims[i].entry.pool_id == claims[j].entry.pool_id,
    ensures
        batch_outcome(state, claimant, claims) is Err,
        (batch_outcome(state, claimant, claims.take(j)) is Ok && claims[j].signature_valid
            && owner_allows(state, claims[j].entry.pool_id)) ==> batch_outcome(
            state,
            claimant,
            claims,
        ) == Err::<(AirdropState, Seq<PaymentView>), Error>(Error::AlreadyClaimed),
{
    let part = claims.take(j);
    if batch_outcome(state, claimant, part) is Ok {
        lemma_accepted_claim(state, claimant, part);
        let reached = batch_outcome(state, claimant, part)->Ok_0.0;
        assert(part[i] == claims[i]);
        assert(reached.rewards_claimed.contains((claimant, claims[j].entry.pool_id)));
        assert(claims.take(j + 1).drop_last() =~= part);
        assert(claims.take(j + 1).last() == claims[j]);
        lemma_rejection_stands(state, claimant, claims, j + 1);
    } else {
        lemma_rejection_stands(state, claimant, claims, j);
    }
}

/// Division by zero is out of reach: where every registered pool has units,
/// no claim is rejected for want of them, and every pool still has units
/// after a claim that is accepted.
pub proof fn lemma_units_spare_division(
    state: AirdropState,
    claimant: Seq<u8>,
    claims: Seq<CheckedClaimView>,
)
    requires
        pools_have_units(state),
    ensures
        batch_outcome(state, claimant, claims) != Err::<(AirdropState, Seq<PaymentView>), Error>(
            Error::DivisionByZero,
        ),
        batch_outcome(state, claimant, claims) is Ok ==> pools_have_units(
            batch_outcome(state, claimant, claims)->Ok_0.0,
        ),
    decreases claims.len(),
{
    if claims.len() > 0 {
        let init = claims.drop_last();
        lemma_units_spare_division(state, claimant, init);
        if batch_outcome(state, claimant, init) is Ok {
            lemma_accepted_claim(state, claimant, init);
        }
    }
}

/// A claim whose first entry carries no valid signature is rejected.
pub proof fn lemma_unsigned_claim_rejected(
    state: AirdropState,
    claimant: Seq<u8>,
    claims: Seq<CheckedClaimView>,
)
    requires
        claims.len() > 0,
        !claims[0].signature_valid,
    ensures
        batch_outcome(state, claimant, claims) is Err,
{
    let first = claims.take(1);
    assert(first.drop_last() =~= Seq::<CheckedClaimView>::empty());
    assert(first.last() == claims[0]);
    lemma_rejection_stands(state, claimant, claims, 1);
}

} // verus!
