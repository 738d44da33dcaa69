//! Merging the rewards of one claim into as few transfers as their order
//! allows.
//!
//! Rewards in the native currency add up to one amount. Of the others, each
//! indexed unit is a transfer of its own, and each run of fungible rewards in
//! one asset, one after the other, becomes one transfer of their sum. A
//! native reward does not end a run; an indexed unit or another asset does.

use crate::biguint::BigUint;
use crate::models::{is_native, payment_views, PaymentView, TokenPayment};
use vstd::prelude::*;

verus! {

/// The sum of the contributions in the native currency.
pub open spec fn native_total(cs: Seq<PaymentView>) -> nat
    decreases cs.len(),
{
    if cs.len() == 0 {
        0
    } else if cs.last().native() {
        native_total(cs.drop_last()) + cs.last().amount
    } else {
        native_total(cs.drop_last())
    }
}

/// Whether a run of fungible contributions is open at the end of `cs`: the
/// last contribution outside the native currency is fungible.
pub open spec fn run_open(cs: Seq<PaymentView>) -> bool
    decreases cs.len(),
{
    if cs.len() == 0 {
        false
    } else if cs.last().native() {
        run_open(cs.drop_last())
    } else {
        cs.last().token_nonce == 0
    }
}

/// `p` with `amount` more.
pub open spec fn topped_up(p: PaymentView, amount: nat) -> PaymentView {
    PaymentView { amount: p.amount + amount, ..p }
}

/// The transfers that pay the contributions `cs` outside the native
/// currency, in the order in which their runs begin.
pub open spec fn asset_transfers(cs: Seq<PaymentView>) -> Seq<PaymentView>
    decreases cs.len(),
{
    if cs.len() == 0 {
        Seq::empty()
    } else {
        let before = asset_transfers(cs.drop_last());
        let c = cs.last();
        if c.native() {
            before
        } else if c.token_nonce == 0 && run_open(cs.drop_last()) && before.last().token_identifier
            == c.token_identifier {
            before.drop_last().push(topped_up(before.last(), c.amount))
        } else {
            before.push(c)
        }
    }
}

/// What a [`Settlement`] stands for.
pub struct SettlementView {
    pub egld_amount: nat,
    pub payments: Seq<PaymentView>,
}

/// What a claimant is owed after a claim: one amount in the native currency,
/// which may be zero, and the transfers in other assets, in order.
#[derive(Debug, PartialEq, Eq)]
pub struct Settlement {
    pub egld_amount: BigUint,
    pub payments: Vec<TokenPayment>,
}

impl View for Settlement {
    type V = SettlementView;

    open spec fn view(&self) -> SettlementView {
        SettlementView {
            egld_amount: self.egld_amount@,
            payments: payment_views(self.payments@),
        }
    }
}

impl Settlement {
    /// The transfer in the native currency that is due: the whole native
    /// amount, and none where that amount is zero.
    pub fn egld_transfer(&self) -> (r: Option<BigUint>)
        ensures
            r is Some <==> self@.egld_amount > 0,
            r matches Some(amount) ==> amount@ == self@.egld_amount,
    {
        if self.egld_amount.is_zero() {
            None
        } else {
            Some(self.egld_amount.clone())
        }
    }
}

/// What is owed for `cs`.
pub open spec fn settlement_of(cs: Seq<PaymentView>) -> SettlementView {
    SettlementView { egld_amount: native_total(cs), payments: asset_transfers(cs) }
}

/// How much `s` holds of the asset `token` with index `nonce`.
pub open spec fn amount_of(s: Seq<PaymentView>, token: Seq<u8>, nonce: u64) -> nat
    decreases s.len(),
{
    if s.len() == 0 {
        0
    } else if s.last().token_identifier == token && s.last().token_nonce == nonce {
        amount_of(s.drop_last(), token, nonce) + s.last().amount
    } else {
        amount_of(s.drop_last(), token, nonce)
    }
}

/// No transfer is in the native currency, and the last transfer is fungible
/// exactly while a run is open.
pub proof fn lemma_transfers_shape(cs: Seq<PaymentView>)
    ensures
        forall|i: int|
            0 <= i < asset_transfers(cs).len() ==> !(#[trigger] asset_transfers(cs)[i]).native(),
        run_open(cs) ==> asset_transfers(cs).len() > 0,
        asset_transfers(cs).len() > 0 ==> (run_open(cs) <==> asset_transfers(cs).last().fungible()),
    decreases cs.len(),
{
    if cs.len() > 0 {
        lemma_transfers_shape(cs.drop_last());
    }
}

/// Contributions in the native currency never appear among the transfers.
pub proof fn lemma_no_native_transfer(cs: Seq<PaymentView>, i: int)
    requires
        0 <= i < asset_transfers(cs).len(),
    ensures
        !asset_transfers(cs)[i].native(),
{
    lemma_transfers_shape(cs);
}

/// Where no contribution is in the native currency, the native amount is
/// zero.
pub proof fn lemma_native_total_zero(cs: Seq<PaymentView>)
    requires
        forall|i: int| 0 <= i < cs.len() ==> !(#[trigger] cs[i]).native(),
    ensures
        native_total(cs) == 0,
    decreases cs.len(),
{
    if cs.len() > 0 {
        lemma_native_total_zero(cs.drop_last());
    }
}

/// The native amount of two batches, one after the other, is the sum of
/// their native amounts.
pub proof fn lemma_native_total_additive(a: Seq<PaymentView>, b: Seq<PaymentView>)
    ensures
        native_total(a + b) == native_total(a) + native_total(b),
    decreases b.len(),
{
    if b.len() == 0 {
        assert(a + b =~= a);
    } else {
        assert((a + b).drop_last() =~= a + b.drop_last());
        lemma_native_total_additive(a, b.drop_last());
    }
}

/// Merging moves no value: of every asset outside the native currency, the
/// transfers carry exactly what the contributions hold of it.
pub proof fn lemma_transfers_conserve(cs: Seq<PaymentView>, token: Seq<u8>, nonce: u64)
    requires
        !is_native(token),
    ensures
        amount_of(asset_transfers(cs), token, nonce) == amount_of(cs, token, nonce),
    decreases cs.len(),
{
    if cs.len() > 0 {
        let before = asset_transfers(cs.drop_last());
        let c = cs.last();
        lemma_transfers_conserve(cs.drop_last(), token, nonce);
        lemma_transfers_shape(cs.drop_last());
        if c.native() {
        } else if c.token_nonce == 0 && run_open(cs.drop_last()) && before.last().token_identifier
            == c.token_identifier {
            let after = before.drop_last().push(topped_up(before.last(), c.amount));
            assert(after.drop_last() =~= before.drop_last());
            assert(after.last() == topped_up(before.last(), c.amount));
        } else {
            assert(before.push(c).drop_last() =~= before);
        }
    }
}

/// Fungible contributions in one asset that follow each other are one
/// transfer: no two neighbouring transfers are fungible in the same asset.
pub proof fn lemma_neighbours_differ(cs: Seq<PaymentView>, i: int)
    requires
        0 < i < asset_transfers(cs).len(),
        asset_transfers(cs)[i - 1].fungible(),
        asset_transfers(cs)[i].fungible(),
    ensures
        asset_transfers(cs)[i - 1].token_identifier != asset_transfers(cs)[i].token_identifier,
    decreases cs.len(),
{
    if cs.len() > 0 {
        let before = asset_transfers(cs.drop_last());
        let c = cs.last();
        lemma_transfers_shape(cs.drop_last());
        if i < before.len() {
            lemma_neighbours_differ(cs.drop_last(), i);
        }
    }
}

/// An indexed unit is never merged: it is the transfer that its contribution
/// adds, unchanged and last.
pub proof fn lemma_indexed_stays_apart(cs: Seq<PaymentView>, c: PaymentView)
    requires
        c.indexed(),
    ensures
        asset_transfers(cs.push(c)) == asset_transfers(cs).push(c),
        !run_open(cs.push(c)),
{
    assert(cs.push(c).drop_last() =~= cs);
}

/// Merges the contributions of one claim, taken in order, into what is owed.
pub fn coalesce(contributions: &Vec<TokenPayment>) -> (out: Settlement)
    ensures
        out@ == settlement_of(payment_views(contributions@)),
{
    let ghost all = payment_views(contributions@);
    let mut egld_amount = BigUint::zero();
    let mut payments: Vec<TokenPayment> = Vec::new();
    let mut pending: Option<TokenPayment> = None;
    let mut i: usize = 0;
    proof {
        assert(all.take(0) =~= Seq::<PaymentView>::empty());
        assert(payment_views(payments@) =~= Seq::<PaymentView>::empty());
    }
    while i < contributions.len()
        invariant
            i <= contributions.len(),
            all == payment_views(contributions@),
            egld_amount@ == native_total(all.take(i as int)),
            pending is Some <==> run_open(all.take(i as int)),
            pending matches Some(p) ==> p@.fungible(),
            asset_transfers(all.take(i as int)) == match pending {
                Some(p) => payment_views(payments@).push(p@),
                None => payment_views(payments@),
            },
        decreases contributions.len() - i,
    {
        let c = &contributions[i];
        let ghost done = all.take(i as int);
        let ghost emitted = payment_views(payments@);
        proof {
            assert(all.take(i + 1).drop_last() =~= done);
            assert(all.take(i + 1).last() == c@);
        }
        if c.token_identifier.len() == 0 {
            egld_amount = egld_amount.add(&c.amount);
        } else if c.token_nonce != 0 {
            match pending {
                Some(p) => {
                    payments.push(p);
                    assert(payment_views(payments@) =~= emitted.push(p@));
                },
                None => {},
            }
            let ghost flushed = payment_views(payments@);
            payments.push(c.clone());
            assert(payment_views(payments@) =~= flushed.push(c@));
            pending = None;
        } else {
            match pending {
                Some(p) => {
                    if crate::bytes::bytes_eq(
                        p.token_identifier.as_slice(),
                        c.token_identifier.as_slice(),
                    ) {
                        let merged = TokenPayment {
                            token_identifier: p.token_identifier,
                            token_nonce: p.token_nonce,
                            amount: p.amount.add(&c.amount),
                        };
                        assert(merged@ == topped_up(p@, c@.amount));
                        assert(emitted.push(p@).drop_last() =~= emitted);
                        pending = Some(merged);
                    } else {
                        payments.push(p);
                        assert(payment_views(payments@) =~= emitted.push(p@));
                        pending = Some(c.clone());
                    }
                },
                None => {
                    pending = Some(c.clone());
                },
            }
        }
        i = i + 1;
    }
    proof {
        assert(all.take(i as int) =~= all);
    }
    match pending {
        Some(p) => {
            let ghost emitted = payment_views(payments@);
            payments.push(p);
            assert(payment_views(payments@) =~= emitted.push(p@));
        },
        None => {},
    }
    Settlement { egld_amount, payments }
}

} // verus!
