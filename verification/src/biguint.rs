//! Unsigned integers of arbitrary size.
//!
//! A [`BigUint`] is a sequence of base-256 digits; its view is the natural
//! number that the digits stand for. Every operation is specified against
//! that number, so callers never reason about digits.

use crate::bytes::reversed;
use vstd::arithmetic::div_mod::lemma_fundamental_div_mod_converse;
use vstd::prelude::*;

verus! {

/// 256 raised to the power `n`.
spec fn pow256(n: nat) -> nat
    decreases n,
{
    if n == 0 {
        1
    } else {
        256 * pow256((n - 1) as nat)
    }
}

/// The number whose base-256 digits are `s`, least significant digit first.
spec fn le_nat(s: Seq<u8>) -> nat
    decreases s.len(),
{
    if s.len() == 0 {
        0
    } else {
        s[0] as nat + 256 * le_nat(s.skip(1))
    }
}

/// The number whose base-256 digits are `s`, most significant digit first.
pub open spec fn be_nat(s: Seq<u8>) -> nat
    decreases s.len(),
{
    if s.len() == 0 {
        0
    } else {
        be_nat(s.drop_last()) * 256 + s.last() as nat
    }
}

/// The base-256 digits of `n`, most significant first and without leading
/// zeros; zero has no digits.
pub open spec fn minimal_be(n: nat) -> Seq<u8>
    decreases n,
{
    if n == 0 {
        Seq::empty()
    } else {
        minimal_be(n / 256).push((n % 256) as u8)
    }
}

/// The digits of a number stand for that number.
pub proof fn lemma_minimal_be_value(n: nat)
    ensures
        be_nat(minimal_be(n)) == n,
        n > 0 ==> minimal_be(n).len() > 0 && minimal_be(n)[0] != 0,
    decreases n,
{
    if n > 0 {
        lemma_minimal_be_value(n / 256);
        let s = minimal_be(n);
        assert(s.drop_last() =~= minimal_be(n / 256));
        assert(s.last() == (n % 256) as u8);
        if n / 256 > 0 {
            assert(s[0] == minimal_be(n / 256)[0]);
        }
    }
}

/// Digits without a leading zero are the digits of the number that they
/// stand for.
pub proof fn lemma_minimal_be_unique(s: Seq<u8>)
    requires
        s.len() == 0 || s[0] != 0,
    ensures
        s == minimal_be(be_nat(s)),
    decreases s.len(),
{
    if s.len() == 0 {
        assert(s =~= minimal_be(0));
    } else {
        let init = s.drop_last();
        if init.len() > 0 {
            assert(init[0] == s[0]);
        }
        lemma_minimal_be_unique(init);
        lemma_be_positive(s);
        let n = be_nat(s);
        assert(n / 256 == be_nat(init));
        assert(n % 256 == s.last() as nat);
        assert(s =~= init.push(s.last()));
    }
}

/// Digits that begin with a digit other than zero stand for a positive
/// number.
proof fn lemma_be_positive(s: Seq<u8>)
    requires
        s.len() > 0,
        s[0] != 0,
    ensures
        be_nat(s) > 0,
    decreases s.len(),
{
    let init = s.drop_last();
    if init.len() > 0 {
        assert(init[0] == s[0]);
        lemma_be_positive(init);
    }
}

/// The first `i` digits of `s`, or all of `s` where it has fewer.
spec fn low_digits(s: Seq<u8>, i: int) -> Seq<u8> {
    if 0 <= i <= s.len() {
        s.take(i)
    } else {
        s
    }
}

/// The digit of `s` at position `i`, zero beyond the end of `s`.
spec fn digit_at(s: Seq<u8>, i: int) -> nat {
    if 0 <= i < s.len() {
        s[i] as nat
    } else {
        0
    }
}

/// Every power of 256 is positive.
proof fn lemma_pow256_positive(n: nat)
    ensures
        pow256(n) >= 1,
    decreases n,
{
    if n > 0 {
        lemma_pow256_positive((n - 1) as nat);
    }
}

/// Appending a digit at the significant end adds that digit, scaled by its
/// position.
proof fn lemma_le_push(s: Seq<u8>, d: u8)
    ensures
        le_nat(s.push(d)) == le_nat(s) + d as nat * pow256(s.len()),
    decreases s.len(),
{
    let t = s.push(d);
    assert(le_nat(t) == t[0] as nat + 256 * le_nat(t.skip(1)));
    if s.len() == 0 {
        assert(t.skip(1) =~= Seq::<u8>::empty());
        assert(le_nat(t.skip(1)) == 0);
        assert(pow256(0) == 1);
        assert(le_nat(s) == 0);
    } else {
        assert(t.skip(1) =~= s.skip(1).push(d));
        lemma_le_push(s.skip(1), d);
        let p = pow256((s.len() - 1) as nat);
        assert(pow256(s.len()) == 256 * p);
        assert(256 * (d as nat * p) == d as nat * (256 * p)) by (nonlinear_arith);
        assert(le_nat(s) == s[0] as nat + 256 * le_nat(s.skip(1)));
    }
}

/// A number of `n` digits is below `256^n`.
proof fn lemma_le_bound(s: Seq<u8>)
    ensures
        le_nat(s) < pow256(s.len()),
    decreases s.len(),
{
    if s.len() > 0 {
        lemma_le_bound(s.skip(1));
    }
}

/// A non-empty digit sequence whose most significant digit is not zero stands
/// for a positive number.
proof fn lemma_le_positive(s: Seq<u8>)
    requires
        s.len() > 0,
        s.last() != 0,
    ensures
        le_nat(s) >= pow256((s.len() - 1) as nat),
        le_nat(s) > 0,
{
    let init = s.drop_last();
    assert(s =~= init.push(s.last()));
    lemma_le_push(init, s.last());
    lemma_pow256_positive(init.len());
    let p = pow256(init.len());
    assert(s.last() as nat * p >= p) by (nonlinear_arith)
        requires
            s.last() as nat >= 1,
    ;
}

/// Taking one more digit of `s` adds that digit, scaled by its position.
proof fn lemma_low_digits_step(s: Seq<u8>, i: int)
    requires
        0 <= i,
    ensures
        le_nat(low_digits(s, i + 1)) == le_nat(low_digits(s, i)) + digit_at(s, i) * pow256(
            i as nat,
        ),
{
    if i < s.len() {
        assert(s.take(i + 1) =~= s.take(i).push(s[i]));
        lemma_le_push(s.take(i), s[i]);
    } else if i == s.len() {
        assert(s.take(i) =~= s);
    }
}

/// From its length on, the low digits of `s` are all of `s`.
proof fn lemma_low_digits_full(s: Seq<u8>, i: int)
    requires
        s.len() <= i,
    ensures
        low_digits(s, i) == s,
{
    if i == s.len() {
        assert(s.take(i) =~= s);
    }
}

/// Reading digits most significant first is reading the reversed sequence
/// least significant first.
proof fn lemma_be_is_reversed_le(s: Seq<u8>)
    ensures
        be_nat(s) == le_nat(s.reverse()),
    decreases s.len(),
{
    if s.len() > 0 {
        let r = s.reverse();
        assert(r.skip(1) =~= s.drop_last().reverse());
        lemma_be_is_reversed_le(s.drop_last());
    }
}

/// Two digit sequences without a superfluous leading zero that stand for the
/// same number are the same sequence.
proof fn lemma_canonical_unique(a: Seq<u8>, b: Seq<u8>)
    requires
        a.len() == 0 || a.last() != 0,
        b.len() == 0 || b.last() != 0,
        le_nat(a) == le_nat(b),
    ensures
        a == b,
    decreases a.len(),
{
    if a.len() == 0 {
        if b.len() > 0 {
            lemma_le_positive(b);
        }
        assert(a =~= b);
    } else if b.len() == 0 {
        lemma_le_positive(a);
    } else {
        let ta = a.skip(1);
        let tb = b.skip(1);
        assert(a[0] as nat + 256 * le_nat(ta) == b[0] as nat + 256 * le_nat(tb));
        assert(a[0] == b[0] && le_nat(ta) == le_nat(tb));
        if ta.len() > 0 {
            assert(ta.last() == a.last());
        }
        if tb.len() > 0 {
            assert(tb.last() == b.last());
        }
        lemma_canonical_unique(ta, tb);
        assert(a =~= seq![a[0]] + ta);
        assert(b =~= seq![b[0]] + tb);
    }
}

/// Removes zero digits from the significant end.
fn trim(v: Vec<u8>) -> (r: Vec<u8>)
    ensures
        le_nat(r@) == le_nat(v@),
        r@.len() == 0 || r@.last() != 0,
{
    let mut r = v;
    while r.len() > 0 && r[r.len() - 1] == 0
        invariant
            le_nat(r@) == le_nat(v@),
        decreases r.len(),
    {
        proof {
            let init = r@.drop_last();
            assert(r@ =~= init.push(0u8));
            lemma_le_push(init, 0u8);
        }
        r.pop();
    }
    r
}

/// The digit of `v` at position `i`, zero beyond its end.
fn digit_or_zero(v: &Vec<u8>, i: usize) -> (d: u8)
    ensures
        d as nat == digit_at(v@, i as int),
{
    if i < v.len() {
        v[i]
    } else {
        0
    }
}

/// Digit-wise sum of two numbers.
fn add_digits(a: &Vec<u8>, b: &Vec<u8>) -> (r: Vec<u8>)
    ensures
        le_nat(r@) == le_nat(a@) + le_nat(b@),
{
    let n: usize = if a.len() >= b.len() {
        a.len()
    } else {
        b.len()
    };
    let mut out: Vec<u8> = Vec::new();
    let mut carry: u8 = 0;
    let mut i: usize = 0;
    while i < n
        invariant
            i <= n,
            n >= a.len(),
            n >= b.len(),
            carry <= 1,
            out@.len() == i,
            le_nat(out@) + carry as nat * pow256(i as nat) == le_nat(low_digits(a@, i as int))
                + le_nat(low_digits(b@, i as int)),
        decreases n - i,
    {
        let x: u8 = digit_or_zero(a, i);
        let y: u8 = digit_or_zero(b, i);
        let sum: u16 = x as u16 + y as u16 + carry as u16;
        let d: u8 = (sum % 256) as u8;
        let next: u8 = (sum / 256) as u8;
        proof {
            lemma_le_push(out@, d);
            lemma_low_digits_step(a@, i as int);
            lemma_low_digits_step(b@, i as int);
            let p = pow256(i as nat);
            assert(pow256((i + 1) as nat) == 256 * p);
            assert(d as nat * p + next as nat * (256 * p) == x as nat * p + y as nat * p
                + carry as nat * p) by (nonlinear_arith)
                requires
                    d as nat + 256 * next as nat == x as nat + y as nat + carry as nat,
            ;
        }
        out.push(d);
        carry = next;
        i = i + 1;
    }
    proof {
        lemma_le_push(out@, carry);
        lemma_low_digits_full(a@, n as int);
        lemma_low_digits_full(b@, n as int);
    }
    out.push(carry);
    out
}

/// Digit-wise difference of two numbers, where the first is not the smaller.
fn sub_digits(a: &Vec<u8>, b: &Vec<u8>) -> (r: Option<Vec<u8>>)
    ensures
        match r {
            Some(d) => le_nat(a@) >= le_nat(b@) && le_nat(d@) == le_nat(a@) - le_nat(b@) && (
            d@.len() == 0 || d@.last() != 0),
            None => le_nat(a@) < le_nat(b@),
        },
{
    let n: usize = if a.len() >= b.len() {
        a.len()
    } else {
        b.len()
    };
    let mut out: Vec<u8> = Vec::new();
    let mut borrow: u8 = 0;
    let mut i: usize = 0;
    while i < n
        invariant
            i <= n,
            n >= a.len(),
            n >= b.len(),
            borrow <= 1,
            out@.len() == i,
            le_nat(out@) + le_nat(low_digits(b@, i as int)) == le_nat(low_digits(a@, i as int))
                + borrow as nat * pow256(i as nat),
        decreases n - i,
    {
        let x: u8 = digit_or_zero(a, i);
        let y: u8 = digit_or_zero(b, i);
        let take: u16 = y as u16 + borrow as u16;
        let d: u8 = if x as u16 >= take {
            (x as u16 - take) as u8
        } else {
            (x as u16 + 256 - take) as u8
        };
        let next: u8 = if x as u16 >= take {
            0
        } else {
            1
        };
        proof {
            lemma_le_push(out@, d);
            lemma_low_digits_step(a@, i as int);
            lemma_low_digits_step(b@, i as int);
            let p = pow256(i as nat);
            assert(pow256((i + 1) as nat) == 256 * p);
            assert(d as nat * p + y as nat * p + borrow as nat * p == x as nat * p + next as nat
                * (256 * p)) by (nonlinear_arith)
                requires
                    d as nat + y as nat + borrow as nat == x as nat + 256 * next as nat,
            ;
        }
        out.push(d);
        borrow = next;
        i = i + 1;
    }
    proof {
        lemma_low_digits_full(a@, n as int);
        lemma_low_digits_full(b@, n as int);
        lemma_le_bound(out@);
    }
    if borrow == 0 {
        Some(trim(out))
    } else {
        None
    }
}

/// Digit-wise product of a number and a machine word.
fn mul_digits(a: &Vec<u8>, m: u32) -> (r: Vec<u8>)
    ensures
        le_nat(r@) == le_nat(a@) * m as nat,
{
    let n: usize = a.len();
    let mut out: Vec<u8> = Vec::new();
    let mut carry: u64 = 0;
    let mut i: usize = 0;
    proof {
        assert(a@.take(0) =~= Seq::<u8>::empty());
        assert(0 * m as nat == 0) by (nonlinear_arith);
    }
    while i < n
        invariant
            i <= n,
            n == a.len(),
            carry < 0x1_0000_0000,
            out@.len() == i,
            le_nat(out@) + carry as nat * pow256(i as nat) == le_nat(low_digits(a@, i as int))
                * m as nat,
        decreases n - i,
    {
        let x: u8 = a[i];
        assert(x as u64 * m as u64 <= 255 * 0xffff_ffff) by (nonlinear_arith)
            requires
                x <= 255,
                m <= 0xffff_ffff,
        ;
        let t: u64 = x as u64 * m as u64 + carry;
        let d: u8 = (t % 256) as u8;
        let next: u64 = t / 256;
        proof {
            lemma_le_push(out@, d);
            lemma_low_digits_step(a@, i as int);
            let p = pow256(i as nat);
            let low = le_nat(low_digits(a@, i as int));
            assert(pow256((i + 1) as nat) == 256 * p);
            assert(d as nat * p + next as nat * (256 * p) == (x as nat * p) * m as nat
                + carry as nat * p) by (nonlinear_arith)
                requires
                    d as nat + 256 * next as nat == x as nat * m as nat + carry as nat,
            ;
            assert((low + x as nat * p) * m as nat == low * m as nat + (x as nat * p) * m as nat)
                by (nonlinear_arith);
        }
        out.push(d);
        carry = next;
        i = i + 1;
    }
    proof {
        lemma_low_digits_full(a@, n as int);
    }
    while carry > 0
        invariant
            le_nat(out@) + carry as nat * pow256(out@.len()) == le_nat(a@) * m as nat,
        decreases carry,
    {
        let d: u8 = (carry % 256) as u8;
        let next: u64 = carry / 256;
        proof {
            lemma_le_push(out@, d);
            let p = pow256(out@.len());
            assert(pow256(out@.len() + 1) == 256 * p);
            assert(d as nat * p + next as nat * (256 * p) == carry as nat * p)
                by (nonlinear_arith)
                requires
                    d as nat + 256 * next as nat == carry as nat,
            ;
        }
        out.push(d);
        carry = next;
    }
    out
}

/// Quotient and remainder of two numbers by long division, one digit of the
/// dividend at a time from its significant end.
fn div_rem_digits(a: &Vec<u8>, b: &Vec<u8>) -> (r: (Vec<u8>, Vec<u8>))
    requires
        le_nat(b@) > 0,
    ensures
        le_nat(r.0@) == le_nat(a@) / le_nat(b@),
        le_nat(r.1@) == le_nat(a@) % le_nat(b@),
{
    let ghost divisor = le_nat(b@);
    let mut quotient: Vec<u8> = Vec::new();
    let mut rest: Vec<u8> = Vec::new();
    let mut i: usize = a.len();
    proof {
        assert(a@.skip(a@.len() as int) =~= Seq::<u8>::empty());
        assert(0 * divisor == 0) by (nonlinear_arith);
    }
    while i > 0
        invariant
            i <= a.len(),
            divisor == le_nat(b@),
            divisor > 0,
            le_nat(a@.skip(i as int)) == le_nat(quotient@) * divisor + le_nat(rest@),
            le_nat(rest@) < divisor,
        decreases i,
    {
        i = i - 1;
        let ghost rest_before = rest@;
        let ghost quotient_before = quotient@;
        let ghost before = le_nat(rest@);
        let ghost q_before = le_nat(quotient@);
        rest.insert(0, a[i]);
        proof {
            assert(rest@.skip(1) =~= rest_before);
            assert(a@.skip(i as int).skip(1) =~= a@.skip(i + 1));
        }
        let ghost widened = le_nat(rest@);
        assert(widened == a[i as int] as nat + 256 * before);
        let mut count: u8 = 0;
        let mut done: bool = false;
        while !done
            invariant
                divisor == le_nat(b@),
                divisor > 0,
                widened < 256 * divisor,
                le_nat(rest@) + count as nat * divisor == widened,
                done ==> le_nat(rest@) < divisor,
            decreases
                (if done {
                    0int
                } else {
                    256 - count as int
                }),
        {
            match sub_digits(&rest, b) {
                Some(smaller) => {
                    assert((count as nat + 1) * divisor == count as nat * divisor + divisor)
                        by (nonlinear_arith);
                    assert(count < 255) by (nonlinear_arith)
                        requires
                            (count as nat + 1) * divisor <= widened,
                            widened < 256 * divisor,
                    ;
                    rest = smaller;
                    count = count + 1;
                },
                None => {
                    done = true;
                },
            }
        }
        quotient.insert(0, count);
        proof {
            assert(quotient@.skip(1) =~= quotient_before);
            assert(le_nat(quotient@) == count as nat + 256 * q_before);
            assert((count as nat + 256 * q_before) * divisor + le_nat(rest@) == a[i as int] as nat
                + 256 * (q_before * divisor + before)) by (nonlinear_arith)
                requires
                    le_nat(rest@) + count as nat * divisor == a[i as int] as nat + 256 * before,
            ;
        }
    }
    proof {
        assert(a@.skip(0) =~= a@);
        lemma_fundamental_div_mod_converse(
            le_nat(a@) as int,
            divisor as int,
            le_nat(quotient@) as int,
            le_nat(rest@) as int,
        );
    }
    (quotient, rest)
}

/// An unsigned integer of arbitrary size.
///
/// The digits are kept without superfluous zeros, so two values are equal
/// exactly when they stand for the same number.
#[derive(Debug, PartialEq, Eq)]
pub struct BigUint {
    digits: Vec<u8>,
}

impl View for BigUint {
    type V = nat;

    closed spec fn view(&self) -> nat {
        le_nat(self.digits@)
    }
}

impl Clone for BigUint {
    fn clone(&self) -> (r: Self)
        ensures
            r@ == self@,
    {
        BigUint { digits: trim(self.digits.clone()) }
    }
}

impl BigUint {
    #[verifier::type_invariant]
    spec fn canonical(self) -> bool {
        self.digits@.len() == 0 || self.digits@.last() != 0
    }

    /// The number zero.
    pub fn zero() -> (r: Self)
        ensures
            r@ == 0,
    {
        BigUint { digits: Vec::new() }
    }

    /// The number `x`.
    pub fn from_u64(x: u64) -> (r: Self)
        ensures
            r@ == x,
    {
        let mut out: Vec<u8> = Vec::new();
        let mut rest: u64 = x;
        assert(rest as nat * pow256(0) == x) by (nonlinear_arith)
            requires
                rest == x,
                pow256(0) == 1,
        ;
        while rest > 0
            invariant
                le_nat(out@) + rest as nat * pow256(out@.len()) == x,
            decreases rest,
        {
            let d: u8 = (rest % 256) as u8;
            let next: u64 = rest / 256;
            proof {
                lemma_le_push(out@, d);
                let p = pow256(out@.len());
                assert(pow256(out@.len() + 1) == 256 * p);
                assert(d as nat * p + next as nat * (256 * p) == rest as nat * p)
                    by (nonlinear_arith)
                    requires
                        d as nat + 256 * next as nat == rest as nat,
                ;
            }
            out.push(d);
            rest = next;
        }
        BigUint { digits: trim(out) }
    }

    /// The number whose base-256 digits are `bytes`, most significant first.
    /// Leading zeros are accepted; the empty sequence stands for zero.
    pub fn from_bytes_be(bytes: &[u8]) -> (r: Self)
        ensures
            r@ == be_nat(bytes@),
    {
        let digits = reversed(bytes);
        proof {
            lemma_be_is_reversed_le(bytes@);
        }
        BigUint { digits: trim(digits) }
    }

    /// The base-256 digits of the number, most significant first and without
    /// leading zeros; zero gives the empty sequence.
    pub fn to_bytes_be(&self) -> (r: Vec<u8>)
        ensures
            r@ == minimal_be(self@),
            be_nat(r@) == self@,
    {
        let out = reversed(self.digits.as_slice());
        proof {
            use_type_invariant(self);
            assert(out@.reverse() =~= self.digits@);
            lemma_be_is_reversed_le(out@);
            lemma_minimal_be_unique(out@);
        }
        out
    }

    /// Whether the number is zero.
    pub fn is_zero(&self) -> (b: bool)
        ensures
            b == (self@ == 0),
    {
        proof {
            use_type_invariant(self);
            if self.digits@.len() > 0 {
                lemma_le_positive(self.digits@);
            }
        }
        self.digits.len() == 0
    }

    /// Whether the two numbers are the same number.
    pub fn equals(&self, other: &BigUint) -> (b: bool)
        ensures
            b == (self@ == other@),
    {
        proof {
            use_type_invariant(self);
            use_type_invariant(other);
            if self@ == other@ {
                lemma_canonical_unique(self.digits@, other.digits@);
            }
        }
        let n: usize = self.digits.len();
        if other.digits.len() != n {
            return false;
        }
        let mut i: usize = 0;
        while i < n
            invariant
                i <= n,
                n == self.digits@.len(),
                n == other.digits@.len(),
                forall|j: int| 0 <= j < i ==> self.digits@[j] == other.digits@[j],
                self@ == other@ ==> self.digits@ == other.digits@,
            decreases n - i,
        {
            if self.digits[i] != other.digits[i] {
                return false;
            }
            i = i + 1;
        }
        assert(self.digits@ =~= other.digits@);
        true
    }

    /// The sum of two numbers.
    pub fn add(&self, other: &BigUint) -> (r: BigUint)
        ensures
            r@ == self@ + other@,
    {
        BigUint { digits: trim(add_digits(&self.digits, &other.digits)) }
    }

    /// The difference of two numbers, or `None` where `other` is the larger.
    pub fn checked_sub(&self, other: &BigUint) -> (r: Option<BigUint>)
        ensures
            r is Some <==> self@ >= other@,
            r matches Some(d) ==> d@ == self@ - other@,
    {
        match sub_digits(&self.digits, &other.digits) {
            Some(digits) => Some(BigUint { digits }),
            None => None,
        }
    }

    /// The product of the number and `m`.
    pub fn mul_u32(&self, m: u32) -> (r: BigUint)
        ensures
            r@ == self@ * m as nat,
    {
        BigUint { digits: trim(mul_digits(&self.digits, m)) }
    }

    /// The quotient of the number by `divisor`, rounded down, or `None` where
    /// `divisor` is zero.
    pub fn checked_div(&self, divisor: &BigUint) -> (r: Option<BigUint>)
        ensures
            r is None <==> divisor@ == 0,
            r matches Some(q) ==> q@ == self@ / divisor@,
    {
        if divisor.is_zero() {
            None
        } else {
            let (quotient, _) = div_rem_digits(&self.digits, &divisor.digits);
            Some(BigUint { digits: trim(quotient) })
        }
    }

    /// The remainder of the number by `divisor`, or `None` where `divisor` is
    /// zero.
    pub fn checked_rem(&self, divisor: &BigUint) -> (r: Option<BigUint>)
        ensures
            r is None <==> divisor@ == 0,
            r matches Some(m) ==> m@ == self@ % divisor@,
    {
        if divisor.is_zero() {
            None
        } else {
            let (_, rest) = div_rem_digits(&self.digits, &divisor.digits);
            Some(BigUint { digits: trim(rest) })
        }
    }
}

} // verus!
