//! What the trusted signer signs, and the check of a signature over it.
//!
//! The signed message is the claimant's identity, the pool's identifier, an
//! underscore and the number of eligible units in decimal, one after the
//! other with nothing in between.

use crate::bytes::{append_bytes, reversed};
use crate::models::{PoolId, Signature};
use vstd::prelude::*;

verus! {

/// The ASCII code of the digit zero.
pub const ZERO_ASCII: u8 = 48;

/// The ASCII code of the underscore between the pool and the units.
pub const SEPARATOR: u8 = 0x5F;

/// The decimal digits of `n` in ASCII, most significant first, without
/// leading zeros; zero is the single digit `0`.
pub open spec fn decimal_ascii(n: nat) -> Seq<u8>
    decreases n,
{
    if n < 10 {
        seq![(48 + n) as u8]
    } else {
        decimal_ascii(n / 10).push((48 + n % 10) as u8)
    }
}

/// The number that a string of ASCII digits stands for.
pub open spec fn decimal_value(s: Seq<u8>) -> nat
    decreases s.len(),
{
    if s.len() == 0 {
        0
    } else {
        decimal_value(s.drop_last()) * 10 + (s.last() - 48) as nat
    }
}

/// The message that authorizes `claimant` to claim `units` units from the
/// pool `pool_id`.
pub open spec fn signed_message(claimant: Seq<u8>, pool_id: Seq<u8>, units: u32) -> Seq<u8> {
    claimant + pool_id + seq![0x5Fu8] + decimal_ascii(units as nat)
}

/// The decimal form of a number holds digits only, at least one, and no
/// leading zero but for the number zero itself.
pub proof fn lemma_decimal_shape(n: nat)
    ensures
        decimal_ascii(n).len() >= 1,
        forall|i: int| 0 <= i < decimal_ascii(n).len() ==> 48 <= #[trigger] decimal_ascii(n)[i] <= 57,
        n == 0 <==> decimal_ascii(n) == seq![48u8],
        n != 0 ==> decimal_ascii(n)[0] != 48,
    decreases n,
{
    if n >= 10 {
        lemma_decimal_shape(n / 10);
        assert(decimal_ascii(n).len() >= 2);
    } else {
        assert(decimal_ascii(n)[0] == (48 + n) as u8);
    }
}

/// Reading the decimal form of a number gives the number back, so distinct
/// numbers have distinct decimal forms.
pub proof fn lemma_decimal_round_trip(n: nat)
    ensures
        decimal_value(decimal_ascii(n)) == n,
    decreases n,
{
    let s = decimal_ascii(n);
    if n >= 10 {
        lemma_decimal_round_trip(n / 10);
        assert(s.drop_last() =~= decimal_ascii(n / 10));
        assert(s.last() == (48 + n % 10) as u8);
    } else {
        assert(s.drop_last() =~= Seq::<u8>::empty());
        assert(s.last() == (48 + n) as u8);
        assert(decimal_value(s.drop_last()) == 0);
    }
    assert(decimal_value(s) == decimal_value(s.drop_last()) * 10 + (s.last() - 48) as nat);
}

/// A number below `2^32` has at most ten decimal digits.
pub proof fn lemma_decimal_length(n: nat)
    requires
        n <= u32::MAX,
    ensures
        decimal_ascii(n).len() <= 10,
{
    reveal_with_fuel(decimal_ascii, 11);
}

/// Whether `signature` is accepted as a signature of `message` under the
/// public key `key`.
pub uninterp spec fn ed25519_accepts(key: Seq<u8>, message: Seq<u8>, signature: Seq<u8>) -> bool;

/// Checks an Ed25519 signature.
///
/// The key is parsed with `ed25519_dalek::PublicKey::from_bytes`, the
/// signature with `ed25519_dalek::Signature::from_bytes`, and the message is
/// checked with `ed25519_dalek::Verifier::verify` for that key. The answer is
/// `true` only where both parse and the check succeeds. It depends on the
/// three byte strings alone, so the contract names it: the answer is the one
/// that [`ed25519_accepts`] gives. The one thing claimed beyond the name is
/// that a key which is not 32 bytes long accepts nothing: `from_bytes`
/// refuses such a key before it looks at anything else.
#[verifier::external_body]
pub(crate) fn ed25519_verify(key: &[u8], message: &[u8], signature: &[u8]) -> (ok: bool)
    ensures
        ok == ed25519_accepts(key@, message@, signature@),
        key@.len() != 32 ==> !ok,
{
    match (
        ed25519_dalek::PublicKey::from_bytes(key),
        ed25519_dalek::Signature::from_bytes(signature),
    ) {
        (Ok(public), Ok(parsed)) => ed25519_dalek::Verifier::verify(&public, message, &parsed).is_ok(),
        _ => false,
    }
}

/// The decimal digits of `number` in ASCII.
pub fn decimal_to_ascii(number: u32) -> (text: Vec<u8>)
    ensures
        text@ == decimal_ascii(number as nat),
{
    let mut backwards: Vec<u8> = Vec::new();
    let mut rest: u32 = number;
    let mut done: bool = false;
    assert(decimal_ascii(rest as nat) + backwards@.reverse() =~= decimal_ascii(number as nat));
    while !done
        invariant
            !done ==> decimal_ascii(number as nat) == decimal_ascii(rest as nat)
                + backwards@.reverse(),
            done ==> decimal_ascii(number as nat) == backwards@.reverse(),
        decreases
            (if done {
                0int
            } else {
                rest as int + 1
            }),
    {
        let digit: u8 = ZERO_ASCII + (rest % 10) as u8;
        let ghost before = backwards@;
        let ghost shown = decimal_ascii(rest as nat);
        backwards.push(digit);
        assert(backwards@.reverse() =~= seq![digit] + before.reverse());
        if rest < 10 {
            assert(shown =~= seq![digit]);
            done = true;
        } else {
            assert(shown =~= decimal_ascii((rest / 10) as nat).push(digit));
            assert(shown + before.reverse() =~= decimal_ascii((rest / 10) as nat)
                + backwards@.reverse());
        }
        rest = rest / 10;
    }
    reversed(backwards.as_slice())
}

/// The message that authorizes `address` to claim `amount` units from the
/// pool `hash`.
pub fn create_hash(address: &[u8], hash: &PoolId, amount: u32) -> (message: Vec<u8>)
    ensures
        message@ == signed_message(address@, hash@, amount),
{
    let mut buffer: Vec<u8> = Vec::new();
    append_bytes(&mut buffer, address);
    append_bytes(&mut buffer, hash.as_slice());
    buffer.push(SEPARATOR);
    let digits = decimal_to_ascii(amount);
    append_bytes(&mut buffer, digits.as_slice());
    assert(buffer@ =~= signed_message(address@, hash@, amount));
    buffer
}

/// Whether `signature` is the signer's authorization for `address` to claim
/// `user_nft_amount` units from the pool `root_hash`.
pub fn verify_signature(
    signer: &[u8],
    address: &[u8],
    root_hash: &PoolId,
    user_nft_amount: u32,
    signature: &Signature,
) -> (valid: bool)
    ensures
        valid == ed25519_accepts(
            signer@,
            signed_message(address@, root_hash@, user_nft_amount),
            signature@,
        ),
        signer@.len() != 32 ==> !valid,
{
    let data = create_hash(address, root_hash, user_nft_amount);
    ed25519_verify(signer, data.as_slice(), signature.as_slice())
}

} // verus!
