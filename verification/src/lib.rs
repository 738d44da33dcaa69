//! Settlement of signed reward claims against registered reward pools.
//!
//! A pool holds a reward to be shared among a number of eligible units. A
//! claimant presents, for each pool, the number of units held and the trusted
//! signer's signature over claimant, pool and number; the airdrop checks each
//! entry, pays each pool at most once to each claimant, computes the share of
//! each pool rounded down, and merges the rewards into as few transfers as
//! their order allows.

pub mod biguint;
pub mod bytes;
pub mod claims;
pub mod codec;
pub mod models;
pub mod payments;
pub mod rewards;
pub mod signature;
pub mod storage;
pub mod views;

use crate::biguint::BigUint;
use crate::bytes::copy_bytes;
use crate::claims::{checked_views, claim_outcome, lemma_unsigned_claim_rejected,
    lemma_valid_claim_pays_share, marked_claimed,
    owner_allows, settled, CheckedClaim, CheckedClaimView};
use crate::models::{is_native, ClaimEntry, ClaimView, Error, PaymentView, PoolId, Signature,
    TokenPayment};
use crate::payments::{settlement_of, Settlement, SettlementView};
use crate::rewards::{reward_share, RewardsModule};
use crate::signature::{ed25519_accepts, decimal_ascii, signed_message};
use crate::storage::{Airdrop, AirdropState, StorageModule};
use crate::views::ViewsModule;
use vstd::prelude::*;

verus! {

/// Whether the signature of `entry` is `signer`'s authorization for
/// `claimant`.
pub open spec fn authorizes(signer: Seq<u8>, claimant: Seq<u8>, entry: ClaimView) -> bool {
    ed25519_accepts(
        signer,
        signed_message(claimant, entry.pool_id, entry.eligible_units),
        entry.signature,
    )
}

/// The entries `data` of `claimant`, each with the verdict on its signature
/// under the key `signer`.
pub open spec fn verdicts(signer: Seq<u8>, claimant: Seq<u8>, data: Seq<ClaimEntry>) -> Seq<
    CheckedClaimView,
> {
    Seq::new(
        data.len(),
        |i: int| CheckedClaimView { entry: data[i]@, signature_valid: authorizes(signer, claimant, data[i]@) },
    )
}

/// A claim that the trusted signer has authorized is paid its share: where
/// the signature of the one entry verifies, the pool is registered with
/// units to share among, its owner does not stand in the way and the
/// claimant was not paid from the pool before, the claim is accepted, marks
/// the claimant as paid from the pool and nothing else, and is owed the
/// share of the pool's supply that falls to the units, rounded down, in the
/// pool's asset.
pub proof fn lemma_authorized_claim_pays_share(
    state: AirdropState,
    claimant: Seq<u8>,
    entry: ClaimEntry,
)
    requires
        authorizes(state.signer, claimant, entry@),
        state.checkpoints.dom().contains(entry@.pool_id),
        state.checkpoints[entry@.pool_id].total_nft_supply > 0,
        owner_allows(state, entry@.pool_id),
        !state.rewards_claimed.contains((claimant, entry@.pool_id)),
    ensures
        ({
            let pool = state.checkpoints[entry@.pool_id];
            claim_outcome(state, claimant, verdicts(state.signer, claimant, seq![entry])) == Ok::<
                (AirdropState, SettlementView),
                Error,
            >(
                (
                    marked_claimed(state, claimant, entry@.pool_id),
                    settlement_of(
                        seq![
                            PaymentView {
                                token_identifier: pool.reward_token,
                                token_nonce: pool.reward_nonce,
                                amount: reward_share(
                                    pool.reward_supply,
                                    entry@.eligible_units,
                                    pool.total_nft_supply,
                                ),
                            },
                        ],
                    ),
                ),
            )
        }),
{
    assert(verdicts(state.signer, claimant, seq![entry]) =~= seq![
        CheckedClaimView { entry: entry@, signature_valid: true },
    ]);
    lemma_valid_claim_pays_share(state, claimant, entry@);
}

/// The asset and index that a withdrawal is about: the native currency
/// where no asset is named, and index zero where none is given or the asset
/// is the native currency.
pub open spec fn withdrawal_target(
    opt_token_identifier: Option<Seq<u8>>,
    opt_token_nonce: Option<u64>,
) -> (Seq<u8>, u64) {
    let token = match opt_token_identifier {
        Some(token) => token,
        None => Seq::empty(),
    };
    let nonce = if is_native(token) {
        0
    } else {
        match opt_token_nonce {
            Some(nonce) => nonce,
            None => 0,
        }
    };
    (token, nonce)
}

/// What a withdrawal of the whole balance pays, and to whom, or why it is
/// rejected: the caller must be the administrator and the balance not zero,
/// checked in this order. The payment goes to the administrator.
pub open spec fn withdrawal(
    state: AirdropState,
    caller: Seq<u8>,
    opt_token_identifier: Option<Seq<u8>>,
    opt_token_nonce: Option<u64>,
    balance: nat,
) -> Result<(Seq<u8>, PaymentView), Error> {
    if caller != state.owner {
        Err(Error::Unauthorized)
    } else if balance == 0 {
        Err(Error::NothingToWithdraw)
    } else {
        let target = withdrawal_target(opt_token_identifier, opt_token_nonce);
        Ok(
            (
                state.owner,
                PaymentView { token_identifier: target.0, token_nonce: target.1, amount: balance },
            ),
        )
    }
}

/// Whether `r` is the payment and the receiver that `expected` gives, or the
/// same rejection.
pub open spec fn same_withdrawal(
    r: Result<(Vec<u8>, TokenPayment), Error>,
    expected: Result<(Seq<u8>, PaymentView), Error>,
) -> bool {
    match expected {
        Ok(due) => r matches Ok(paid) && paid.0@ == due.0 && paid.1@ == due.1,
        Err(e) => r matches Err(f) && f == e,
    }
}

/// The view of an asset that may not be named.
pub open spec fn token_view(token: Option<Vec<u8>>) -> Option<Seq<u8>> {
    match token {
        Some(token) => Some(token@),
        None => None,
    }
}

/// The asset and index that a withdrawal is about. The balance to hand to
/// [`NftAirdrop::withdraw_all`] is the balance of this asset and index.
pub fn withdraw_target(opt_token_identifier: Option<Vec<u8>>, opt_token_nonce: Option<u64>) -> (target:
    (Vec<u8>, u64))
    ensures
        (target.0@, target.1) == withdrawal_target(
            token_view(opt_token_identifier),
            opt_token_nonce,
        ),
{
    let token_identifier: Vec<u8> = match opt_token_identifier {
        Some(token) => token,
        None => Vec::new(),
    };
    let token_nonce: u64 = if token_identifier.len() == 0 {
        0
    } else {
        match opt_token_nonce {
            Some(nonce) => nonce,
            None => 0,
        }
    };
    (token_identifier, token_nonce)
}

/// The airdrop as its callers see it: setting it up, claiming rewards, and
/// the administrator's withdrawal.
pub trait NftAirdrop: RewardsModule + ViewsModule + StorageModule {
    /// Sets the trusted signer where none is set yet.
    fn init(&mut self, signer: Vec<u8>)
        ensures
            final(self)@ == (AirdropState {
                signer: if old(self)@.signer.len() == 0 {
                    signer@
                } else {
                    old(self)@.signer
                },
                ..old(self)@
            }),
    ;

    /// Settles the claim `data` of `caller`: verifies each signature, checks
    /// and pays each entry in order, and merges the rewards into what is
    /// owed. One rejected entry rejects the claim, and nothing changes. No
    /// claim is rejected for a pool without units, since none is registered,
    /// and while no signer of 32 bytes is set, no entry is paid.
    fn claim_rewards(&mut self, caller: &[u8], data: &Vec<ClaimEntry>) -> (r: Result<
        Settlement,
        Error,
    >)
        ensures
            settled(
                old(self)@,
                claim_outcome(old(self)@, caller@, verdicts(old(self)@.signer, caller@, data@)),
                r,
                final(self)@,
            ),
            r matches Err(e) ==> e != Error::DivisionByZero,
            old(self)@.signer.len() != 32 && data@.len() > 0 ==> r is Err,
    ;

    /// Whether `signature` is the trusted signer's authorization for
    /// `address` to claim `user_nft_amount` units from the pool `root_hash`.
    fn verify_signature(
        &self,
        address: &[u8],
        root_hash: &PoolId,
        user_nft_amount: u32,
        signature: &Signature,
    ) -> (valid: bool)
        ensures
            valid == ed25519_accepts(
                self@.signer,
                signed_message(address@, root_hash@, user_nft_amount),
                signature@,
            ),
            self@.signer.len() != 32 ==> !valid,
    ;

    /// The message that authorizes `address` to claim `amount` units from
    /// the pool `hash`.
    fn create_hash(&self, address: &[u8], hash: &PoolId, amount: u32) -> (message: Vec<u8>)
        ensures
            message@ == signed_message(address@, hash@, amount),
    ;

    /// Who receives what the administrator withdraws, and what that is: the
    /// administrator, and the whole `balance` of the asset and index that
    /// [`withdraw_target`] gives.
    fn withdraw_all(
        &self,
        caller: &[u8],
        opt_token_identifier: Option<Vec<u8>>,
        opt_token_nonce: Option<u64>,
        balance: BigUint,
    ) -> (r: Result<(Vec<u8>, TokenPayment), Error>)
        ensures
            same_withdrawal(
                r,
                withdrawal(
                    self@,
                    caller@,
                    token_view(opt_token_identifier),
                    opt_token_nonce,
                    balance@,
                ),
            ),
    ;

    /// The decimal digits of `number` in ASCII.
    fn decimal_to_ascii(&self, number: u32) -> (text: Vec<u8>)
        ensures
            text@ == decimal_ascii(number as nat),
    ;
}

impl NftAirdrop for Airdrop {
    fn init(&mut self, signer: Vec<u8>) {
        let current = self.signer();
        if current.len() == 0 {
            self.put_signer(signer);
        } else {
            assert(self@ =~= (AirdropState { signer: self@.signer, ..self@ }));
        }
    }

    fn claim_rewards(&mut self, caller: &[u8], data: &Vec<ClaimEntry>) -> (r: Result<
        Settlement,
        Error,
    >) {
        let ghost expected = verdicts(self@.signer, caller@, data@);
        let mut checked: Vec<CheckedClaim> = Vec::new();
        let mut i: usize = 0;
        while i < data.len()
            invariant
                i <= data.len(),
                self@ == old(self)@,
                expected == verdicts(self@.signer, caller@, data@),
                checked@.len() == i,
                forall|j: int| 0 <= j < i ==> (#[trigger] checked@[j])@ == expected[j],
                forall|j: int|
                    0 <= j < i && self@.signer.len() != 32 ==> !(#[trigger] checked@[j]).signature_valid,
            decreases data.len() - i,
        {
            let entry = data[i];
            let signature_valid = self.verify_signature(
                caller,
                &entry.pool_id,
                entry.eligible_units,
                &entry.signature,
            );
            checked.push(CheckedClaim { entry, signature_valid });
            i = i + 1;
        }
        assert(checked_views(checked@) =~= expected);
        proof {
            if self@.signer.len() != 32 && data@.len() > 0 {
                lemma_unsigned_claim_rejected(self@, caller@, expected);
            }
        }
        self.settle_claims(caller, &checked)
    }

    fn verify_signature(
        &self,
        address: &[u8],
        root_hash: &PoolId,
        user_nft_amount: u32,
        signature: &Signature,
    ) -> (valid: bool) {
        let signer = self.signer();
        crate::signature::verify_signature(
            signer.as_slice(),
            address,
            root_hash,
            user_nft_amount,
            signature,
        )
    }

    fn create_hash(&self, address: &[u8], hash: &PoolId, amount: u32) -> (message: Vec<u8>) {
        crate::signature::create_hash(address, hash, amount)
    }

    fn withdraw_all(
        &self,
        caller: &[u8],
        opt_token_identifier: Option<Vec<u8>>,
        opt_token_nonce: Option<u64>,
        balance: BigUint,
    ) -> (r: Result<(Vec<u8>, TokenPayment), Error>) {
        if !self.is_owner(caller) {
            return Err(Error::Unauthorized);
        }
        if balance.is_zero() {
            return Err(Error::NothingToWithdraw);
        }
        let (token_identifier, token_nonce) = withdraw_target(opt_token_identifier, opt_token_nonce);
        Ok((copy_bytes(caller), TokenPayment { token_identifier, token_nonce, amount: balance }))
    }

    fn decimal_to_ascii(&self, number: u32) -> (text: Vec<u8>) {
        crate::signature::decimal_to_ascii(number)
    }
}

} // verus!
