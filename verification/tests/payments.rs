use nft_airdrop::biguint::BigUint;
use nft_airdrop::models::TokenPayment;
use nft_airdrop::payments::{coalesce, Settlement};

fn pay(token: &[u8], nonce: u64, amount: u64) -> TokenPayment {
    TokenPayment {
        token_identifier: token.to_vec(),
        token_nonce: nonce,
        amount: BigUint::from_u64(amount),
    }
}

const TOKEN_A: &[u8] = b"TOKENA-123456";
const TOKEN_B: &[u8] = b"TOKENB-123456";
const TOKEN_C: &[u8] = b"TOKENC-123456";
const NATIVE: &[u8] = b"";

#[test]
fn same_asset_in_a_row_is_one_transfer() {
    let out = coalesce(&vec![pay(TOKEN_A, 0, 10), pay(TOKEN_A, 0, 5), pay(TOKEN_B, 0, 3)]);
    assert_eq!(out.payments, vec![pay(TOKEN_A, 0, 15), pay(TOKEN_B, 0, 3)]);
    assert_eq!(out.payments.len(), 2);
    assert!(out.egld_amount.is_zero());
}

#[test]
fn indexed_unit_breaks_a_run() {
    let out = coalesce(&vec![pay(TOKEN_A, 0, 10), pay(TOKEN_C, 7, 2), pay(TOKEN_A, 0, 5)]);
    assert_eq!(out.payments, vec![pay(TOKEN_A, 0, 10), pay(TOKEN_C, 7, 2), pay(TOKEN_A, 0, 5)]);
    assert_eq!(out.payments.len(), 3);
}

#[test]
fn indexed_units_never_merge() {
    let out = coalesce(&vec![pay(TOKEN_C, 7, 1), pay(TOKEN_C, 7, 1), pay(TOKEN_C, 8, 1)]);
    assert_eq!(out.payments, vec![pay(TOKEN_C, 7, 1), pay(TOKEN_C, 7, 1), pay(TOKEN_C, 8, 1)]);
}

#[test]
fn native_contributions_add_up() {
    let out = coalesce(&vec![pay(NATIVE, 0, 10), pay(NATIVE, 0, 20)]);
    assert_eq!(out.egld_amount, BigUint::from_u64(30));
    assert_eq!(out.payments, Vec::<TokenPayment>::new());
    assert_eq!(out.egld_transfer(), Some(BigUint::from_u64(30)));
}

#[test]
fn no_native_contribution_no_native_transfer() {
    let out = coalesce(&vec![pay(TOKEN_A, 0, 10)]);
    assert!(out.egld_amount.is_zero());
    assert_eq!(out.egld_transfer(), None);
}

#[test]
fn native_contribution_does_not_end_a_run() {
    let out = coalesce(&vec![pay(TOKEN_A, 0, 10), pay(NATIVE, 0, 4), pay(TOKEN_A, 0, 5)]);
    assert_eq!(out.egld_amount, BigUint::from_u64(4));
    assert_eq!(out.payments, vec![pay(TOKEN_A, 0, 15)]);
}

#[test]
fn other_asset_ends_a_run() {
    let out = coalesce(&vec![pay(TOKEN_A, 0, 1), pay(TOKEN_B, 0, 2), pay(TOKEN_A, 0, 3)]);
    assert_eq!(out.payments, vec![pay(TOKEN_A, 0, 1), pay(TOKEN_B, 0, 2), pay(TOKEN_A, 0, 3)]);
}

#[test]
fn run_after_indexed_unit_of_same_asset_starts_anew() {
    let out = coalesce(&vec![pay(TOKEN_A, 3, 1), pay(TOKEN_A, 0, 2), pay(TOKEN_A, 0, 3)]);
    assert_eq!(out.payments, vec![pay(TOKEN_A, 3, 1), pay(TOKEN_A, 0, 5)]);
}

#[test]
fn nothing_in_nothing_out() {
    let out = coalesce(&Vec::new());
    assert_eq!(out, Settlement { egld_amount: BigUint::zero(), payments: Vec::new() });
    assert_eq!(out.egld_transfer(), None);
}

#[test]
fn merging_moves_no_value() {
    let input = vec![
        pay(TOKEN_A, 0, 10),
        pay(TOKEN_B, 0, 1),
        pay(TOKEN_A, 0, 5),
        pay(NATIVE, 0, 9),
        pay(TOKEN_A, 0, 7),
        pay(TOKEN_A, 2, 1),
    ];
    let out = coalesce(&input);
    let total = |list: &Vec<TokenPayment>, token: &[u8], nonce: u64| {
        list.iter()
            .filter(|p| p.token_identifier == token && p.token_nonce == nonce)
            .fold(BigUint::zero(), |sum, p| sum.add(&p.amount))
    };
    assert_eq!(total(&out.payments, TOKEN_A, 0), BigUint::from_u64(22));
    assert_eq!(total(&out.payments, TOKEN_A, 0), total(&input, TOKEN_A, 0));
    assert_eq!(total(&out.payments, TOKEN_B, 0), total(&input, TOKEN_B, 0));
    assert_eq!(total(&out.payments, TOKEN_A, 2), total(&input, TOKEN_A, 2));
    assert_eq!(out.egld_amount, BigUint::from_u64(9));
    assert!(out.payments.iter().all(|p| !p.token_identifier.is_empty()));
}

#[test]
fn empty_reward_is_a_contribution_like_any_other() {
    let out = coalesce(&vec![pay(TOKEN_A, 0, 0), pay(TOKEN_B, 0, 3), pay(TOKEN_B, 0, 0)]);
    assert_eq!(out.payments, vec![pay(TOKEN_A, 0, 0), pay(TOKEN_B, 0, 3)]);
}
