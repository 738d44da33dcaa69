//! The data that the airdrop works on, and the mathematical view of each.

use crate::biguint::BigUint;
use crate::bytes::copy_bytes;
use vstd::prelude::*;

verus! {

/// The identifier of a reward pool.
pub type PoolId = [u8; 32];

/// An Ed25519 signature.
pub type Signature = [u8; 64];

/// Why a call was rejected. A rejected call changes nothing.
#[derive(Clone, Copy, Debug, PartialEq, Eq, Structural)]
pub enum Error {
    /// A pool with this identifier was registered before.
    DuplicatePool,
    /// The caller is not allowed to make this call.
    Unauthorized,
    /// The owner of the pool is no longer on the allow-list.
    OwnerNotWhitelisted,
    /// The deposit that came with a new pool, or its total of eligible
    /// units, is zero.
    InvalidAmount,
    /// The signature does not authorize this claimant, pool and unit count.
    InvalidSignature,
    /// The claimant was paid from this pool before.
    AlreadyClaimed,
    /// No pool is registered under this identifier.
    UnknownPool,
    /// The pool was registered with zero eligible units in total.
    DivisionByZero,
    /// The balance asked for is zero.
    NothingToWithdraw,
}

/// The text that goes with each error.
pub open spec fn reason_text(e: Error) -> Seq<char> {
    match e {
        Error::DuplicatePool => "Checkpoint already exists"@,
        Error::Unauthorized => "Not allowed to deposit!"@,
        Error::OwnerNotWhitelisted => "Not allowed to claim rewards from this project!"@,
        Error::InvalidAmount => "Amount must be higher than 0"@,
        Error::InvalidSignature => "Invalid signature"@,
        Error::AlreadyClaimed => "Already claimed rewards for this week"@,
        Error::UnknownPool => "Invalid root hash"@,
        Error::DivisionByZero => "Division by zero"@,
        Error::NothingToWithdraw => "Nothing to withdraw."@,
    }
}

impl Error {
    /// The text shown to the caller whose call was rejected.
    pub fn reason(&self) -> (text: &'static str)
        ensures
            text@ == reason_text(*self),
    {
        match self {
            Error::DuplicatePool => "Checkpoint already exists",
            Error::Unauthorized => "Not allowed to deposit!",
            Error::OwnerNotWhitelisted => "Not allowed to claim rewards from this project!",
            Error::InvalidAmount => "Amount must be higher than 0",
            Error::InvalidSignature => "Invalid signature",
            Error::AlreadyClaimed => "Already claimed rewards for this week",
            Error::UnknownPool => "Invalid root hash",
            Error::DivisionByZero => "Division by zero",
            Error::NothingToWithdraw => "Nothing to withdraw.",
        }
    }
}

/// Whether `token` names the native currency, which is written as the empty
/// identifier.
pub open spec fn is_native(token: Seq<u8>) -> bool {
    token.len() == 0
}

/// What a [`RewardsCheckpoint`] stands for.
pub struct CheckpointView {
    pub total_nft_supply: nat,
    pub reward_token: Seq<u8>,
    pub reward_supply: nat,
    pub reward_nonce: u64,
}

/// A registered reward pool: how many units are eligible in total, and what
/// is shared out among them.
#[derive(Debug, PartialEq, Eq)]
pub struct RewardsCheckpoint {
    /// The number of eligible units over all claimants.
    pub total_nft_supply: BigUint,
    /// The asset that is paid out; empty for the native currency.
    pub reward_token: Vec<u8>,
    /// The amount shared out among all eligible units.
    pub reward_supply: BigUint,
    /// Zero for a fungible asset or the native currency, otherwise the index
    /// of one non-fungible unit.
    pub reward_nonce: u64,
}

impl View for RewardsCheckpoint {
    type V = CheckpointView;

    open spec fn view(&self) -> CheckpointView {
        CheckpointView {
            total_nft_supply: self.total_nft_supply@,
            reward_token: self.reward_token@,
            reward_supply: self.reward_supply@,
            reward_nonce: self.reward_nonce,
        }
    }
}

impl Clone for RewardsCheckpoint {
    fn clone(&self) -> (r: Self)
        ensures
            r@ == self@,
    {
        RewardsCheckpoint {
            total_nft_supply: self.total_nft_supply.clone(),
            reward_token: copy_bytes(self.reward_token.as_slice()),
            reward_supply: self.reward_supply.clone(),
            reward_nonce: self.reward_nonce,
        }
    }
}

/// What a [`TokenPayment`] stands for.
pub struct PaymentView {
    pub token_identifier: Seq<u8>,
    pub token_nonce: u64,
    pub amount: nat,
}

impl PaymentView {
    /// Whether the payment is in the native currency.
    pub open spec fn native(self) -> bool {
        is_native(self.token_identifier)
    }

    /// Whether the payment is in a fungible asset other than the native
    /// currency.
    pub open spec fn fungible(self) -> bool {
        !self.native() && self.token_nonce == 0
    }

    /// Whether the payment is one indexed unit of a non-fungible asset.
    pub open spec fn indexed(self) -> bool {
        !self.native() && self.token_nonce != 0
    }
}

/// An amount of one asset, to be transferred.
#[derive(Debug, PartialEq, Eq)]
pub struct TokenPayment {
    /// The asset; empty for the native currency.
    pub token_identifier: Vec<u8>,
    /// Zero for a fungible asset or the native currency, otherwise the index
    /// of one non-fungible unit.
    pub token_nonce: u64,
    /// How much of the asset.
    pub amount: BigUint,
}

impl View for TokenPayment {
    type V = PaymentView;

    open spec fn view(&self) -> PaymentView {
        PaymentView {
            token_identifier: self.token_identifier@,
            token_nonce: self.token_nonce,
            amount: self.amount@,
        }
    }
}

impl Clone for TokenPayment {
    fn clone(&self) -> (r: Self)
        ensures
            r@ == self@,
    {
        TokenPayment {
            token_identifier: copy_bytes(self.token_identifier.as_slice()),
            token_nonce: self.token_nonce,
            amount: self.amount.clone(),
        }
    }
}

/// The views of a sequence of payments, in order.
pub open spec fn payment_views(payments: Seq<TokenPayment>) -> Seq<PaymentView> {
    Seq::new(payments.len(), |i: int| payments[i]@)
}

/// What a [`ClaimEntry`] stands for.
pub struct ClaimView {
    pub pool_id: Seq<u8>,
    pub eligible_units: u32,
    pub signature: Seq<u8>,
}

/// One item of a claim: the pool, the number of units that the claimant
/// holds, and the trusted signer's signature over both and the claimant.
#[derive(Clone, Copy, Debug, PartialEq, Eq)]
pub struct ClaimEntry {
    pub pool_id: PoolId,
    pub eligible_units: u32,
    pub signature: Signature,
}

impl View for ClaimEntry {
    type V = ClaimView;

    open spec fn view(&self) -> ClaimView {
        ClaimView {
            pool_id: self.pool_id@,
            eligible_units: self.eligible_units,
            signature: self.signature@,
        }
    }
}

} // verus!
