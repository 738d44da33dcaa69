use nft_airdrop::biguint::BigUint;
use nft_airdrop::models::{Error, RewardsCheckpoint, TokenPayment};
use nft_airdrop::rewards::{calculate_reward_amount, new_checkpoint, RewardsModule};
use nft_airdrop::storage::{Airdrop, StorageModule};
use nft_airdrop::views::ViewsModule;
use nft_airdrop::{withdraw_target, NftAirdrop};

const OWNER: &[u8] = b"owner-address-000000000000000000";
const PROJECT: &[u8] = b"project-address-0000000000000000";
const STRANGER: &[u8] = b"stranger-address-000000000000000";
const TOKEN_A: &[u8] = b"TOKENA-123456";
const TOKEN_B: &[u8] = b"TOKENB-123456";

fn deposit(token: &[u8], nonce: u64, amount: u64) -> TokenPayment {
    TokenPayment {
        token_identifier: token.to_vec(),
        token_nonce: nonce,
        amount: BigUint::from_u64(amount),
    }
}

fn airdrop_with_project() -> Airdrop {
    let mut airdrop = Airdrop::new(OWNER.to_vec());
    assert_eq!(airdrop.whitelist_address(OWNER, PROJECT.to_vec()), Ok(()));
    airdrop
}

#[test]
fn reward_is_rounded_down() {
    let reward = calculate_reward_amount(&BigUint::from_u64(100), 1, &BigUint::from_u64(3));
    assert_eq!(reward, Ok(BigUint::from_u64(33)));
    let two = calculate_reward_amount(&BigUint::from_u64(100), 2, &BigUint::from_u64(3));
    assert_eq!(two, Ok(BigUint::from_u64(66)));
}

#[test]
fn reward_of_all_units_is_the_supply() {
    let reward = calculate_reward_amount(&BigUint::from_u64(1000), 250, &BigUint::from_u64(250));
    assert_eq!(reward, Ok(BigUint::from_u64(1000)));
}

#[test]
fn reward_of_no_units_is_zero() {
    let reward = calculate_reward_amount(&BigUint::from_u64(1000), 0, &BigUint::from_u64(250));
    assert_eq!(reward, Ok(BigUint::zero()));
}

#[test]
fn reward_does_not_overflow_machine_words() {
    let supply = BigUint::from_bytes_be(&[0xff; 24]);
    let reward = calculate_reward_amount(&supply, u32::MAX, &BigUint::from_u64(u32::MAX as u64));
    assert_eq!(reward, Ok(BigUint::from_bytes_be(&[0xff; 24])));
}

#[test]
fn reward_of_empty_pool_is_rejected() {
    let reward = calculate_reward_amount(&BigUint::from_u64(100), 1, &BigUint::zero());
    assert_eq!(reward, Err(Error::DivisionByZero));
}

#[test]
fn reward_method_agrees_with_function() {
    let airdrop = Airdrop::new(OWNER.to_vec());
    let reward =
        airdrop.calculate_reward_amount(BigUint::from_u64(100), 1, BigUint::from_u64(3));
    assert_eq!(reward, Ok(BigUint::from_u64(33)));
}

#[test]
fn new_airdrop_is_empty() {
    let airdrop = Airdrop::new(OWNER.to_vec());
    assert!(airdrop.is_owner(OWNER));
    assert!(!airdrop.is_owner(STRANGER));
    assert_eq!(airdrop.signer(), Vec::<u8>::new());
    assert!(!airdrop.whitelisted(OWNER));
    assert_eq!(airdrop.rewards_checkpoints(&[1; 32]), None);
    assert_eq!(airdrop.rewards_owner(&[1; 32]), None);
    assert!(!airdrop.rewards_claimed(STRANGER, &[1; 32]));
}

#[test]
fn init_sets_the_signer_once() {
    let mut airdrop = Airdrop::new(OWNER.to_vec());
    airdrop.init(vec![1; 32]);
    assert_eq!(airdrop.signer(), vec![1; 32]);
    airdrop.init(vec![2; 32]);
    assert_eq!(airdrop.signer(), vec![1; 32]);
}

#[test]
fn owner_changes_the_signer() {
    let mut airdrop = Airdrop::new(OWNER.to_vec());
    airdrop.init(vec![1; 32]);
    assert_eq!(airdrop.change_signer(OWNER, vec![2; 32]), Ok(()));
    assert_eq!(airdrop.signer(), vec![2; 32]);
}

#[test]
fn stranger_changes_nothing() {
    let mut airdrop = airdrop_with_project();
    airdrop.init(vec![1; 32]);
    assert_eq!(airdrop.change_signer(STRANGER, vec![2; 32]), Err(Error::Unauthorized));
    assert_eq!(airdrop.signer(), vec![1; 32]);
    assert_eq!(airdrop.whitelist_address(STRANGER, STRANGER.to_vec()), Err(Error::Unauthorized));
    assert!(!airdrop.whitelisted(STRANGER));
    assert_eq!(airdrop.remove_whitelist_address(STRANGER, PROJECT), Err(Error::Unauthorized));
    assert!(airdrop.whitelisted(PROJECT));
}

#[test]
fn allow_list_grows_and_shrinks() {
    let mut airdrop = airdrop_with_project();
    assert!(airdrop.whitelisted(PROJECT));
    assert_eq!(airdrop.whitelist_address(OWNER, PROJECT.to_vec()), Ok(()));
    assert_eq!(airdrop.whitelist_address(OWNER, STRANGER.to_vec()), Ok(()));
    assert_eq!(airdrop.remove_whitelist_address(OWNER, PROJECT), Ok(()));
    assert!(!airdrop.whitelisted(PROJECT));
    assert!(airdrop.whitelisted(STRANGER));
    assert_eq!(airdrop.remove_whitelist_address(OWNER, PROJECT), Ok(()));
    assert!(!airdrop.whitelisted(PROJECT));
}

#[test]
fn pool_is_registered_with_its_deposit() {
    let mut airdrop = airdrop_with_project();
    let registered = airdrop.add_rewards_checkpoint(
        PROJECT,
        [1; 32],
        BigUint::from_u64(3),
        deposit(TOKEN_A, 0, 100),
    );
    assert_eq!(registered, Ok(()));
    let expected = RewardsCheckpoint {
        total_nft_supply: BigUint::from_u64(3),
        reward_token: TOKEN_A.to_vec(),
        reward_supply: BigUint::from_u64(100),
        reward_nonce: 0,
    };
    assert_eq!(airdrop.rewards_checkpoints(&[1; 32]), Some(expected.clone()));
    assert_eq!(airdrop.get_rewards_checkpoint(&[1; 32]), Ok(expected));
    assert_eq!(airdrop.rewards_owner(&[1; 32]), Some(PROJECT.to_vec()));
    assert_eq!(airdrop.rewards_checkpoints(&[2; 32]), None);
}

#[test]
fn pool_is_registered_once() {
    let mut airdrop = airdrop_with_project();
    let first = airdrop.add_rewards_checkpoint(
        PROJECT,
        [1; 32],
        BigUint::from_u64(3),
        deposit(TOKEN_A, 0, 100),
    );
    assert_eq!(first, Ok(()));
    let second = airdrop.add_rewards_checkpoint(
        PROJECT,
        [1; 32],
        BigUint::from_u64(500),
        deposit(TOKEN_B, 9, 1),
    );
    assert_eq!(second, Err(Error::DuplicatePool));
    let kept = airdrop.get_rewards_checkpoint(&[1; 32]).unwrap();
    assert_eq!(kept.total_nft_supply, BigUint::from_u64(3));
    assert_eq!(kept.reward_token, TOKEN_A.to_vec());
    assert_eq!(kept.reward_supply, BigUint::from_u64(100));
    assert_eq!(kept.reward_nonce, 0);
}

#[test]
fn duplicate_pool_is_reported_before_anything_else() {
    let mut airdrop = airdrop_with_project();
    let first = airdrop.add_rewards_checkpoint(
        PROJECT,
        [1; 32],
        BigUint::from_u64(3),
        deposit(TOKEN_A, 0, 100),
    );
    assert_eq!(first, Ok(()));
    let again = airdrop.add_rewards_checkpoint(
        STRANGER,
        [1; 32],
        BigUint::from_u64(3),
        deposit(TOKEN_A, 0, 0),
    );
    assert_eq!(again, Err(Error::DuplicatePool));
}

#[test]
fn stranger_registers_no_pool() {
    let mut airdrop = airdrop_with_project();
    let registered = airdrop.add_rewards_checkpoint(
        STRANGER,
        [1; 32],
        BigUint::from_u64(3),
        deposit(TOKEN_A, 0, 100),
    );
    assert_eq!(registered, Err(Error::Unauthorized));
    assert_eq!(airdrop.get_rewards_checkpoint(&[1; 32]), Err(Error::UnknownPool));
    let owner = airdrop.add_rewards_checkpoint(
        OWNER,
        [1; 32],
        BigUint::from_u64(3),
        deposit(TOKEN_A, 0, 0),
    );
    assert_eq!(owner, Err(Error::Unauthorized));
}

#[test]
fn empty_deposit_registers_no_pool() {
    let mut airdrop = airdrop_with_project();
    let registered = airdrop.add_rewards_checkpoint(
        PROJECT,
        [1; 32],
        BigUint::from_u64(3),
        deposit(TOKEN_A, 0, 0),
    );
    assert_eq!(registered, Err(Error::InvalidAmount));
    assert_eq!(airdrop.rewards_checkpoints(&[1; 32]), None);
    assert_eq!(airdrop.rewards_owner(&[1; 32]), None);
}

#[test]
fn unknown_pool_has_no_view() {
    let airdrop = Airdrop::new(OWNER.to_vec());
    assert_eq!(airdrop.get_rewards_checkpoint(&[5; 32]), Err(Error::UnknownPool));
    assert!(!airdrop.get_rewards_claimed(STRANGER, &[5; 32]));
}

#[test]
fn withdrawal_defaults_to_native_currency() {
    assert_eq!(withdraw_target(None, None), (Vec::new(), 0));
    assert_eq!(withdraw_target(None, Some(5)), (Vec::new(), 0));
    assert_eq!(withdraw_target(Some(Vec::new()), Some(5)), (Vec::new(), 0));
    assert_eq!(withdraw_target(Some(TOKEN_A.to_vec()), None), (TOKEN_A.to_vec(), 0));
    assert_eq!(withdraw_target(Some(TOKEN_A.to_vec()), Some(5)), (TOKEN_A.to_vec(), 5));
}

#[test]
fn owner_withdraws_the_whole_balance() {
    let airdrop = Airdrop::new(OWNER.to_vec());
    let native = airdrop.withdraw_all(OWNER, None, None, BigUint::from_u64(70));
    assert_eq!(native, Ok((OWNER.to_vec(), deposit(b"", 0, 70))));
    let unit = airdrop.withdraw_all(OWNER, Some(TOKEN_A.to_vec()), Some(4), BigUint::from_u64(1));
    assert_eq!(unit, Ok((OWNER.to_vec(), deposit(TOKEN_A, 4, 1))));
}

#[test]
fn empty_balance_is_not_withdrawn() {
    let airdrop = Airdrop::new(OWNER.to_vec());
    let nothing = airdrop.withdraw_all(OWNER, Some(TOKEN_A.to_vec()), None, BigUint::zero());
    assert_eq!(nothing, Err(Error::NothingToWithdraw));
}

#[test]
fn stranger_withdraws_nothing() {
    let airdrop = Airdrop::new(OWNER.to_vec());
    let refused = airdrop.withdraw_all(STRANGER, None, None, BigUint::from_u64(70));
    assert_eq!(refused, Err(Error::Unauthorized));
    let empty = airdrop.withdraw_all(STRANGER, None, None, BigUint::zero());
    assert_eq!(empty, Err(Error::Unauthorized));
}

#[test]
fn every_error_has_a_reason() {
    let all = [
        Error::DuplicatePool,
        Error::Unauthorized,
        Error::OwnerNotWhitelisted,
        Error::InvalidAmount,
        Error::InvalidSignature,
        Error::AlreadyClaimed,
        Error::UnknownPool,
        Error::DivisionByZero,
        Error::NothingToWithdraw,
    ];
    for (i, a) in all.iter().enumerate() {
        assert!(!a.reason().is_empty());
        for b in all.iter().skip(i + 1) {
            assert_ne!(a.reason(), b.reason());
        }
    }
    assert_eq!(Error::AlreadyClaimed.reason(), "Already claimed rewards for this week");
}

#[test]
fn deposit_founds_a_pool() {
    let founded = new_checkpoint(false, true, BigUint::from_u64(3), deposit(TOKEN_B, 9, 5));
    let expected = RewardsCheckpoint {
        total_nft_supply: BigUint::from_u64(3),
        reward_token: TOKEN_B.to_vec(),
        reward_supply: BigUint::from_u64(5),
        reward_nonce: 9,
    };
    assert_eq!(founded, Ok(expected));
}

#[test]
fn founding_is_rejected_for_the_first_reason_that_holds() {
    let three = || BigUint::from_u64(3);
    assert_eq!(new_checkpoint(true, false, three(), deposit(TOKEN_A, 0, 0)), Err(Error::DuplicatePool));
    assert_eq!(new_checkpoint(true, true, three(), deposit(TOKEN_A, 0, 1)), Err(Error::DuplicatePool));
    assert_eq!(new_checkpoint(false, false, three(), deposit(TOKEN_A, 0, 0)), Err(Error::Unauthorized));
    assert_eq!(new_checkpoint(false, false, three(), deposit(TOKEN_A, 0, 1)), Err(Error::Unauthorized));
    assert_eq!(new_checkpoint(false, true, three(), deposit(TOKEN_A, 0, 0)), Err(Error::InvalidAmount));
    let none = || BigUint::zero();
    assert_eq!(new_checkpoint(false, true, none(), deposit(TOKEN_A, 0, 1)), Err(Error::InvalidAmount));
    assert_eq!(new_checkpoint(false, true, none(), deposit(TOKEN_A, 0, 0)), Err(Error::InvalidAmount));
    assert_eq!(new_checkpoint(false, false, none(), deposit(TOKEN_A, 0, 1)), Err(Error::Unauthorized));
    assert_eq!(new_checkpoint(true, true, none(), deposit(TOKEN_A, 0, 1)), Err(Error::DuplicatePool));
}

#[test]
fn pool_without_units_is_not_registered() {
    let mut airdrop = airdrop_with_project();
    let registered =
        airdrop.add_rewards_checkpoint(PROJECT, [1; 32], BigUint::zero(), deposit(TOKEN_A, 0, 100));
    assert_eq!(registered, Err(Error::InvalidAmount));
    assert_eq!(airdrop.rewards_checkpoints(&[1; 32]), None);
    assert_eq!(airdrop.rewards_owner(&[1; 32]), None);
    assert_eq!(airdrop.get_rewards_checkpoint(&[1; 32]), Err(Error::UnknownPool));
    let one = airdrop.add_rewards_checkpoint(
        PROJECT,
        [1; 32],
        BigUint::from_u64(1),
        deposit(TOKEN_A, 0, 100),
    );
    assert_eq!(one, Ok(()));
}

#[test]
fn refused_depositor_is_told_so() {
    assert_eq!(Error::Unauthorized.reason(), "Not allowed to deposit!");
    assert_eq!(Error::DuplicatePool.reason(), "Checkpoint already exists");
    assert_eq!(Error::InvalidAmount.reason(), "Amount must be higher than 0");
    assert_eq!(Error::InvalidSignature.reason(), "Invalid signature");
    assert_eq!(Error::UnknownPool.reason(), "Invalid root hash");
    assert_eq!(Error::NothingToWithdraw.reason(), "Nothing to withdraw.");
    assert_eq!(
        Error::OwnerNotWhitelisted.reason(),
        "Not allowed to claim rewards from this project!"
    );
}
