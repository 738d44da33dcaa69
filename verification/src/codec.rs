//! The stored form of a pool.
//!
//! A pool is stored as three fields, each a length of four bytes followed by
//! that many bytes, and then the index of the unit in eight bytes: the total
//! of eligible units, the asset, the supply, the index. Numbers are written
//! most significant byte first. A record that ends after the third field was
//! written before pools had an index, and stands for index zero.

use crate::biguint::{be_nat, lemma_minimal_be_value, minimal_be, BigUint};
use crate::bytes::{append_bytes, bytes_eq, copy_bytes};
use crate::models::{CheckpointView, RewardsCheckpoint};
use vstd::prelude::*;
use vstd::slice::slice_subrange;

verus! {

/// Why a stored pool cannot be read.
#[derive(Clone, Copy, Debug, PartialEq, Eq, Structural)]
pub enum DecodeError {
    /// The record ends before the field that is being read does.
    InputTooShort,
}

/// The name under which the native currency is stored: `EGLD`.
pub open spec fn native_name() -> Seq<u8> {
    seq![69u8, 71u8, 76u8, 68u8]
}

/// The asset that a stored name stands for: the native currency, written as
/// the empty identifier, for `EGLD`, and the name itself otherwise.
pub open spec fn named_token(name: Seq<u8>) -> Seq<u8> {
    if name == native_name() {
        Seq::empty()
    } else {
        name
    }
}

/// The field at the front of `s` and what follows it, where `s` holds one.
pub open spec fn first_field(s: Seq<u8>) -> Option<(Seq<u8>, Seq<u8>)> {
    if s.len() < 4 {
        None
    } else {
        let n = be_nat(s.take(4)) as int;
        if s.len() - 4 < n {
            None
        } else {
            Some((s.subrange(4, 4 + n), s.skip(4 + n)))
        }
    }
}

/// The index that the rest of a record stands for, where it stands for one.
pub open spec fn stored_nonce(s: Seq<u8>) -> Option<u64> {
    if s.len() == 0 {
        Some(0)
    } else if s.len() < 8 {
        None
    } else {
        Some(be_nat(s.take(8)) as u64)
    }
}

/// The pool that the record `s` stands for, where it stands for one. What
/// follows the index is not looked at.
pub open spec fn decoded_checkpoint(s: Seq<u8>) -> Option<CheckpointView> {
    match first_field(s) {
        None => None,
        Some((total, after_total)) => match first_field(after_total) {
            None => None,
            Some((name, after_name)) => match first_field(after_name) {
                None => None,
                Some((supply, after_supply)) => match stored_nonce(after_supply) {
                    None => None,
                    Some(nonce) => Some(
                        CheckpointView {
                            total_nft_supply: be_nat(total),
                            reward_token: named_token(name),
                            reward_supply: be_nat(supply),
                            reward_nonce: nonce,
                        },
                    ),
                },
            },
        },
    }
}

/// A number of `n` bytes is below `256^n`; here for four and eight bytes.
proof fn lemma_be_nat_small(s: Seq<u8>)
    requires
        s.len() <= 8,
    ensures
        s.len() == 4 ==> be_nat(s) == ((s[0] as nat * 256 + s[1] as nat) * 256 + s[2] as nat) * 256
            + s[3] as nat,
        s.len() == 8 ==> be_nat(s) == ((((((s[0] as nat * 256 + s[1] as nat) * 256
            + s[2] as nat) * 256 + s[3] as nat) * 256 + s[4] as nat) * 256 + s[5] as nat) * 256
            + s[6] as nat) * 256 + s[7] as nat,
{
    reveal_with_fuel(be_nat, 9);
    if s.len() == 4 {
        let a = s.drop_last();
        let b = a.drop_last();
        let c = b.drop_last();
        assert(c.drop_last().len() == 0);
    } else if s.len() == 8 {
        let a = s.drop_last();
        let b = a.drop_last();
        let c = b.drop_last();
        let d = c.drop_last();
        let e = d.drop_last();
        let f = e.drop_last();
        let g = f.drop_last();
        assert(g.drop_last().len() == 0);
    }
}

/// The length that the four bytes at `at` give.
fn read_length(input: &[u8], at: usize) -> (n: u32)
    requires
        at + 4 <= input@.len(),
    ensures
        n == be_nat(input@.skip(at as int).take(4)),
{
    let ghost s = input@.skip(at as int).take(4);
    proof {
        lemma_be_nat_small(s);
    }
    let b0: u32 = input[at] as u32;
    let b1: u32 = input[at + 1] as u32;
    let b2: u32 = input[at + 2] as u32;
    let b3: u32 = input[at + 3] as u32;
    ((b0 * 256 + b1) * 256 + b2) * 256 + b3
}

/// The index that the eight bytes at `at` give.
fn read_nonce(input: &[u8], at: usize) -> (n: u64)
    requires
        at + 8 <= input@.len(),
    ensures
        n == be_nat(input@.skip(at as int).take(8)),
{
    let ghost s = input@.skip(at as int).take(8);
    proof {
        lemma_be_nat_small(s);
    }
    let b0: u64 = input[at] as u64;
    let b1: u64 = input[at + 1] as u64;
    let b2: u64 = input[at + 2] as u64;
    let b3: u64 = input[at + 3] as u64;
    let b4: u64 = input[at + 4] as u64;
    let b5: u64 = input[at + 5] as u64;
    let b6: u64 = input[at + 6] as u64;
    let b7: u64 = input[at + 7] as u64;
    let high: u64 = ((b0 * 256 + b1) * 256 + b2) * 256 + b3;
    let low: u64 = ((b4 * 256 + b5) * 256 + b6) * 256 + b7;
    high * 0x1_0000_0000 + low
}

/// The field that starts at `at`, and where the next one starts.
fn read_field(input: &[u8], at: usize) -> (r: Option<(Vec<u8>, usize)>)
    requires
        at <= input@.len(),
    ensures
        match first_field(input@.skip(at as int)) {
            Some((content, rest)) => r matches Some((bytes, next)) && bytes@ == content && next
                <= input@.len() && input@.skip(next as int) == rest,
            None => r is None,
        },
{
    let left: usize = input.len() - at;
    if left < 4 {
        return None;
    }
    let n: usize = read_length(input, at) as usize;
    if left - 4 < n {
        return None;
    }
    let content = slice_subrange(input, at + 4, at + 4 + n);
    proof {
        let s = input@.skip(at as int);
        assert(content@ =~= s.subrange(4, 4 + n));
        assert(input@.skip(at + 4 + n) =~= s.skip(4 + n));
    }
    Some((copy_bytes(content), at + 4 + n))
}

impl RewardsCheckpoint {
    /// Reads a stored pool.
    pub fn top_decode(input: &[u8]) -> (r: Result<RewardsCheckpoint, DecodeError>)
        ensures
            match decoded_checkpoint(input@) {
                Some(pool) => r matches Ok(read) && read@ == pool,
                None => r matches Err(e) && e == DecodeError::InputTooShort,
            },
    {
        assert(input@.skip(0) =~= input@);
        let (total, after_total) = match read_field(input, 0) {
            Some(field) => field,
            None => {
                return Err(DecodeError::InputTooShort);
            },
        };
        let (name, after_name) = match read_field(input, after_total) {
            Some(field) => field,
            None => {
                return Err(DecodeError::InputTooShort);
            },
        };
        let (supply, after_supply) = match read_field(input, after_name) {
            Some(field) => field,
            None => {
                return Err(DecodeError::InputTooShort);
            },
        };
        let left: usize = input.len() - after_supply;
        let reward_nonce: u64 = if left == 0 {
            0
        } else if left < 8 {
            return Err(DecodeError::InputTooShort);
        } else {
            read_nonce(input, after_supply)
        };
        let native: [u8; 4] = [69, 71, 76, 68];
        assert(native@ =~= native_name());
        let reward_token: Vec<u8> = if bytes_eq(name.as_slice(), native.as_slice()) {
            Vec::new()
        } else {
            name
        };
        Ok(
            RewardsCheckpoint {
                total_nft_supply: BigUint::from_bytes_be(total.as_slice()),
                reward_token,
                reward_supply: BigUint::from_bytes_be(supply.as_slice()),
                reward_nonce,
            },
        )
    }
}

/// A number below `2^32` in four bytes.
pub open spec fn be_u32(n: nat) -> Seq<u8> {
    seq![
        ((n / 0x100_0000) % 256) as u8,
        ((n / 0x1_0000) % 256) as u8,
        ((n / 0x100) % 256) as u8,
        (n % 256) as u8,
    ]
}

/// A number below `2^64` in eight bytes.
pub open spec fn be_u64(n: u64) -> Seq<u8> {
    be_u32(n as nat / 0x1_0000_0000) + be_u32(n as nat % 0x1_0000_0000)
}

/// The field that holds `content`.
pub open spec fn field_of(content: Seq<u8>) -> Seq<u8> {
    be_u32(content.len()) + content
}

/// The name under which an asset is stored: `EGLD` for the native currency,
/// and the identifier itself otherwise.
pub open spec fn token_name(token: Seq<u8>) -> Seq<u8> {
    if token.len() == 0 {
        native_name()
    } else {
        token
    }
}

/// The record that stands for `pool`.
pub open spec fn encoded_checkpoint(pool: CheckpointView) -> Seq<u8> {
    field_of(minimal_be(pool.total_nft_supply)) + field_of(token_name(pool.reward_token))
        + field_of(minimal_be(pool.reward_supply)) + be_u64(pool.reward_nonce)
}

/// Whether `pool` can be stored: the length of each field fits in four
/// bytes.
pub open spec fn encodable(pool: CheckpointView) -> bool {
    &&& minimal_be(pool.total_nft_supply).len() <= u32::MAX
    &&& pool.reward_token.len() <= u32::MAX
    &&& minimal_be(pool.reward_supply).len() <= u32::MAX
}

/// The four bytes of a length give the length back.
proof fn lemma_be_u32_value(n: nat)
    requires
        n <= u32::MAX,
    ensures
        be_nat(be_u32(n)) == n,
{
    lemma_be_nat_small(be_u32(n));
}

/// A field in front of `rest` is read as its content, and `rest` is what
/// follows.
proof fn lemma_field_reads_back(content: Seq<u8>, rest: Seq<u8>)
    requires
        content.len() <= u32::MAX,
    ensures
        first_field(field_of(content) + rest) == Some((content, rest)),
{
    let s = field_of(content) + rest;
    assert(s.take(4) =~= be_u32(content.len()));
    lemma_be_u32_value(content.len());
    let n = content.len() as int;
    assert(s.subrange(4, 4 + n) =~= content);
    assert(s.skip(4 + n) =~= rest);
}

/// Four more bytes at the end shift a number by four bytes and add what the
/// four stand for.
proof fn lemma_be_nat_append_four(a: Seq<u8>, b: Seq<u8>)
    requires
        b.len() == 4,
    ensures
        be_nat(a + b) == be_nat(a) * 0x1_0000_0000 + be_nat(b),
{
    let s = a + b;
    let s3 = s.drop_last();
    let s2 = s3.drop_last();
    let s1 = s2.drop_last();
    let s0 = s1.drop_last();
    assert(s0 =~= a);
    assert(s.last() == b[3] && s3.last() == b[2] && s2.last() == b[1] && s1.last() == b[0]);
    lemma_be_nat_small(b);
    assert(be_nat(s1) == be_nat(s0) * 256 + b[0] as nat);
    assert(be_nat(s2) == be_nat(s1) * 256 + b[1] as nat);
    assert(be_nat(s3) == be_nat(s2) * 256 + b[2] as nat);
    assert(be_nat(s) == be_nat(s3) * 256 + b[3] as nat);
}

/// The eight bytes of an index give the index back.
proof fn lemma_nonce_reads_back(n: u64)
    ensures
        stored_nonce(be_u64(n)) == Some(n),
{
    let high = n as nat / 0x1_0000_0000;
    let low = n as nat % 0x1_0000_0000;
    let s = be_u64(n);
    assert(s.take(8) =~= s);
    lemma_be_nat_append_four(be_u32(high), be_u32(low));
    lemma_be_u32_value(high);
    lemma_be_u32_value(low);
}

/// A pool that is stored and read again is the same pool. The one asset
/// that does not come back is one that is named `EGLD` in full: that name
/// is read as the native currency.
pub proof fn lemma_stored_pool_reads_back(pool: CheckpointView)
    requires
        encodable(pool),
        pool.reward_token != native_name(),
    ensures
        decoded_checkpoint(encoded_checkpoint(pool)) == Some(pool),
{
    let total = minimal_be(pool.total_nft_supply);
    let name = token_name(pool.reward_token);
    let supply = minimal_be(pool.reward_supply);
    let nonce = be_u64(pool.reward_nonce);
    let after_supply = nonce;
    let after_name = field_of(supply) + after_supply;
    let after_total = field_of(name) + after_name;
    assert(encoded_checkpoint(pool) =~= field_of(total) + after_total);
    lemma_field_reads_back(total, after_total);
    lemma_field_reads_back(name, after_name);
    lemma_field_reads_back(supply, after_supply);
    lemma_nonce_reads_back(pool.reward_nonce);
    lemma_minimal_be_value(pool.total_nft_supply);
    lemma_minimal_be_value(pool.reward_supply);
    assert(named_token(name) =~= pool.reward_token);
}

/// Appends the field that holds `content`.
fn write_field(out: &mut Vec<u8>, content: &[u8])
    requires
        content@.len() <= u32::MAX,
    ensures
        final(out)@ == old(out)@ + field_of(content@),
{
    let n: usize = content.len();
    out.push(((n / 0x100_0000) % 256) as u8);
    out.push(((n / 0x1_0000) % 256) as u8);
    out.push(((n / 0x100) % 256) as u8);
    out.push((n % 256) as u8);
    assert(out@ =~= old(out)@ + be_u32(n as nat));
    append_bytes(out, content);
    assert(out@ =~= old(out)@ + field_of(content@));
}

impl RewardsCheckpoint {
    /// The record that stands for the pool, or `None` where a field is too
    /// long for its length to be written.
    pub fn top_encode(&self) -> (r: Option<Vec<u8>>)
        ensures
            r is Some <==> encodable(self@),
            r matches Some(bytes) ==> bytes@ == encoded_checkpoint(self@),
    {
        let total = self.total_nft_supply.to_bytes_be();
        let supply = self.reward_supply.to_bytes_be();
        let limit: usize = 0xffff_ffff;
        if total.len() > limit || self.reward_token.len() > limit || supply.len() > limit {
            return None;
        }
        let native: [u8; 4] = [69, 71, 76, 68];
        assert(native@ =~= native_name());
        let mut out: Vec<u8> = Vec::new();
        write_field(&mut out, total.as_slice());
        if self.reward_token.len() == 0 {
            write_field(&mut out, native.as_slice());
        } else {
            write_field(&mut out, self.reward_token.as_slice());
        }
        write_field(&mut out, supply.as_slice());
        let nonce: u64 = self.reward_nonce;
        let high: u64 = nonce / 0x1_0000_0000;
        let low: u64 = nonce % 0x1_0000_0000;
        let ghost before = out@;
        out.push(((high / 0x100_0000) % 256) as u8);
        out.push(((high / 0x1_0000) % 256) as u8);
        out.push(((high / 0x100) % 256) as u8);
        out.push((high % 256) as u8);
        out.push(((low / 0x100_0000) % 256) as u8);
        out.push(((low / 0x1_0000) % 256) as u8);
        out.push(((low / 0x100) % 256) as u8);
        out.push((low % 256) as u8);
        assert(out@ =~= before + be_u64(nonce));
        assert(out@ =~= encoded_checkpoint(self@));
        Some(out)
    }
}

} // verus!
