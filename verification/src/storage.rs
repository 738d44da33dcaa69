//! The state of the airdrop and the operations of its administrator.
//!
//! [`Airdrop`] holds everything that outlives a call: the trusted signer, the
//! allow-list, the registered pools with their owners, and who was paid from
//! which pool. Its view, [`AirdropState`], is what every contract speaks of.

use crate::bytes::{bytes_eq, copy_bytes};
use crate::models::{CheckpointView, Error, PoolId, RewardsCheckpoint};
use vstd::prelude::*;

verus! {

/// What an [`Airdrop`] stands for.
#[verifier::ext_equal]
pub struct AirdropState {
    /// The administrator.
    pub owner: Seq<u8>,
    /// The public key of the trusted signer; empty until one is set.
    pub signer: Seq<u8>,
    /// Who may register pools.
    pub whitelisted: Set<Seq<u8>>,
    /// The registered pools.
    pub checkpoints: Map<Seq<u8>, CheckpointView>,
    /// Who registered each pool.
    pub rewards_owner: Map<Seq<u8>, Seq<u8>>,
    /// The pairs of claimant and pool that were paid.
    pub rewards_claimed: Set<(Seq<u8>, Seq<u8>)>,
}

/// A registered pool and who registered it.
struct PoolRecord {
    root_hash: PoolId,
    checkpoint: RewardsCheckpoint,
    owner: Vec<u8>,
}

impl PoolRecord {
    /// A registered pool has units to share its reward among.
    #[verifier::type_invariant]
    spec fn has_units(self) -> bool {
        self.checkpoint@.total_nft_supply > 0
    }
}

/// A claimant who was paid from a pool.
struct ClaimRecord {
    user: Vec<u8>,
    root_hash: PoolId,
}

/// Whether `address` is on `list`.
spec fn listed(list: Seq<Vec<u8>>, address: Seq<u8>) -> bool
    decreases list.len(),
{
    list.len() > 0 && (list.last()@ == address || listed(list.drop_last(), address))
}

/// The record of the pool `root_hash`, if it is registered.
spec fn pool_of(pools: Seq<PoolRecord>, root_hash: Seq<u8>) -> Option<PoolRecord>
    decreases pools.len(),
{
    if pools.len() == 0 {
        None
    } else if pools.last().root_hash@ == root_hash {
        Some(pools.last())
    } else {
        pool_of(pools.drop_last(), root_hash)
    }
}

/// Whether `user` is recorded as paid from the pool `root_hash`.
spec fn paid(claims: Seq<ClaimRecord>, user: Seq<u8>, root_hash: Seq<u8>) -> bool
    decreases claims.len(),
{
    claims.len() > 0 && ((claims.last().user@ == user && claims.last().root_hash@ == root_hash)
        || paid(claims.drop_last(), user, root_hash))
}

/// The airdrop: its administrator, its trusted signer, its allow-list, its
/// pools and its record of payments.
pub struct Airdrop {
    owner: Vec<u8>,
    signer: Vec<u8>,
    whitelist: Vec<Vec<u8>>,
    pools: Vec<PoolRecord>,
    claims: Vec<ClaimRecord>,
}

impl View for Airdrop {
    type V = AirdropState;

    closed spec fn view(&self) -> AirdropState {
        AirdropState {
            owner: self.owner@,
            signer: self.signer@,
            whitelisted: Set::new(|a: Seq<u8>| listed(self.whitelist@, a)),
            checkpoints: Map::new(
                |k: Seq<u8>| pool_of(self.pools@, k) is Some,
                |k: Seq<u8>| pool_of(self.pools@, k)->0.checkpoint@,
            ),
            rewards_owner: Map::new(
                |k: Seq<u8>| pool_of(self.pools@, k) is Some,
                |k: Seq<u8>| pool_of(self.pools@, k)->0.owner@,
            ),
            rewards_claimed: Set::new(|p: (Seq<u8>, Seq<u8>)| paid(self.claims@, p.0, p.1)),
        }
    }
}

/// The state of an airdrop that `owner` administers and that holds nothing
/// yet.
pub open spec fn empty_state(owner: Seq<u8>) -> AirdropState {
    AirdropState {
        owner,
        signer: Seq::empty(),
        whitelisted: Set::empty(),
        checkpoints: Map::empty(),
        rewards_owner: Map::empty(),
        rewards_claimed: Set::empty(),
    }
}

impl Airdrop {
    /// An airdrop that `owner` administers: no signer, nobody on the
    /// allow-list, no pool, no payment.
    pub fn new(owner: Vec<u8>) -> (r: Self)
        ensures
            r@ == empty_state(owner@),
    {
        let r = Airdrop {
            owner,
            signer: Vec::new(),
            whitelist: Vec::new(),
            pools: Vec::new(),
            claims: Vec::new(),
        };
        assert(r@ =~= empty_state(owner@));
        r
    }

    /// Whether `caller` is the administrator.
    pub fn is_owner(&self, caller: &[u8]) -> (yes: bool)
        ensures
            yes == (caller@ == self@.owner),
    {
        bytes_eq(caller, self.owner.as_slice())
    }

    /// The place of the pool `root_hash` among the records.
    fn find_pool(&self, root_hash: &PoolId) -> (r: Option<usize>)
        ensures
            match r {
                Some(i) => i < self.pools@.len() && pool_of(self.pools@, root_hash@) == Some(
                    self.pools@[i as int],
                ),
                None => pool_of(self.pools@, root_hash@) is None,
            },
    {
        let mut i: usize = self.pools.len();
        assert(self.pools@.take(i as int) =~= self.pools@);
        while i > 0
            invariant
                i <= self.pools@.len(),
                pool_of(self.pools@, root_hash@) == pool_of(self.pools@.take(i as int), root_hash@),
            decreases i,
        {
            i = i - 1;
            assert(self.pools@.take(i + 1).drop_last() =~= self.pools@.take(i as int));
            if bytes_eq(self.pools[i].root_hash.as_slice(), root_hash.as_slice()) {
                return Some(i);
            }
        }
        None
    }

    /// Replaces the trusted signer.
    pub(crate) fn put_signer(&mut self, signer: Vec<u8>)
        ensures
            final(self)@ == (AirdropState { signer: signer@, ..old(self)@ }),
    {
        self.signer = signer;
        assert(self@ =~= (AirdropState { signer: signer@, ..old(self)@ }));
    }

    /// Puts `address` on the allow-list.
    pub(crate) fn put_whitelisted(&mut self, address: Vec<u8>)
        ensures
            final(self)@ == (AirdropState {
                whitelisted: old(self)@.whitelisted.insert(address@),
                ..old(self)@
            }),
    {
        self.whitelist.push(address);
        assert(self.whitelist@.drop_last() =~= old(self).whitelist@);
        assert(self@ =~= (AirdropState {
            whitelisted: old(self)@.whitelisted.insert(address@),
            ..old(self)@
        }));
    }

    /// Takes `address` off the allow-list.
    pub(crate) fn clear_whitelisted(&mut self, address: &[u8])
        ensures
            final(self)@ == (AirdropState {
                whitelisted: old(self)@.whitelisted.remove(address@),
                ..old(self)@
            }),
    {
        let mut kept: Vec<Vec<u8>> = Vec::new();
        let mut i: usize = 0;
        assert(self.whitelist@.take(0) =~= Seq::<Vec<u8>>::empty());
        while i < self.whitelist.len()
            invariant
                i <= self.whitelist@.len(),
                forall|a: Seq<u8>| #[trigger]
                    listed(kept@, a) <==> (listed(self.whitelist@.take(i as int), a) && a
                        != address@),
            decreases self.whitelist@.len() - i,
        {
            let ghost kept_before = kept@;
            let ghost seen = self.whitelist@.take(i as int);
            let ghost next = self.whitelist@.take(i + 1);
            assert(next.drop_last() =~= seen);
            assert(next.last() == self.whitelist@[i as int]);
            if !bytes_eq(self.whitelist[i].as_slice(), address) {
                kept.push(copy_bytes(self.whitelist[i].as_slice()));
                assert(kept@.drop_last() =~= kept_before);
                assert(kept@.last()@ == next.last()@);
            }
            assert forall|a: Seq<u8>| #[trigger]
                listed(kept@, a) <==> (listed(next, a) && a != address@) by {
                assert(listed(kept_before, a) <==> (listed(seen, a) && a != address@));
                assert(listed(next, a) <==> (next.last()@ == a || listed(seen, a)));
            }
            i = i + 1;
        }
        assert(self.whitelist@.take(i as int) =~= self.whitelist@);
        self.whitelist = kept;
        assert(self@ =~= (AirdropState {
            whitelisted: old(self)@.whitelisted.remove(address@),
            ..old(self)@
        }));
    }

    /// Registers the pool `root_hash` for `owner`.
    pub(crate) fn put_pool(&mut self, root_hash: PoolId, checkpoint: RewardsCheckpoint, owner: Vec<u8>)
        requires
            checkpoint@.total_nft_supply > 0,
        ensures
            final(self)@ == (AirdropState {
                checkpoints: old(self)@.checkpoints.insert(root_hash@, checkpoint@),
                rewards_owner: old(self)@.rewards_owner.insert(root_hash@, owner@),
                ..old(self)@
            }),
    {
        self.pools.push(PoolRecord { root_hash, checkpoint, owner });
        assert(self.pools@.drop_last() =~= old(self).pools@);
        assert(self@ =~= (AirdropState {
            checkpoints: old(self)@.checkpoints.insert(root_hash@, checkpoint@),
            rewards_owner: old(self)@.rewards_owner.insert(root_hash@, owner@),
            ..old(self)@
        }));
    }

    /// Records that `user` was paid from the pool `root_hash`.
    pub(crate) fn put_claimed(&mut self, user: Vec<u8>, root_hash: PoolId)
        ensures
            final(self)@ == (AirdropState {
                rewards_claimed: old(self)@.rewards_claimed.insert((user@, root_hash@)),
                ..old(self)@
            }),
    {
        self.claims.push(ClaimRecord { user, root_hash });
        assert(self.claims@.drop_last() =~= old(self).claims@);
        assert(self@ =~= (AirdropState {
            rewards_claimed: old(self)@.rewards_claimed.insert((user@, root_hash@)),
            ..old(self)@
        }));
    }
}

/// Every registered pool has a recorded owner, and only registered pools
/// have one.
pub proof fn lemma_owner_recorded_with_pool(airdrop: Airdrop)
    ensures
        airdrop@.checkpoints.dom() == airdrop@.rewards_owner.dom(),
{
    assert(airdrop@.checkpoints.dom() =~= airdrop@.rewards_owner.dom());
}

/// What a call of the administrator does: where `caller` is the
/// administrator it succeeds and leaves `changed`; otherwise it is rejected
/// with [`Error::Unauthorized`] and changes nothing.
pub open spec fn owner_only(
    before: AirdropState,
    caller: Seq<u8>,
    changed: AirdropState,
    r: Result<(), Error>,
    after: AirdropState,
) -> bool {
    if caller == before.owner {
        r is Ok && after == changed
    } else {
        r == Err::<(), Error>(Error::Unauthorized) && after == before
    }
}

/// What is stored, and the three calls by which the administrator changes
/// the signer and the allow-list.
pub trait StorageModule: View<V = AirdropState> + Sized {
    /// Replaces the trusted signer.
    fn change_signer(&mut self, caller: &[u8], new_signer: Vec<u8>) -> (r: Result<(), Error>)
        ensures
            owner_only(
                old(self)@,
                caller@,
                AirdropState { signer: new_signer@, ..old(self)@ },
                r,
                final(self)@,
            ),
    ;

    /// Puts an address on the allow-list.
    fn whitelist_address(&mut self, caller: &[u8], new_whitelisted: Vec<u8>) -> (r: Result<
        (),
        Error,
    >)
        ensures
            owner_only(
                old(self)@,
                caller@,
                AirdropState {
                    whitelisted: old(self)@.whitelisted.insert(new_whitelisted@),
                    ..old(self)@
                },
                r,
                final(self)@,
            ),
    ;

    /// Takes an address off the allow-list.
    fn remove_whitelist_address(&mut self, caller: &[u8], whitelisted: &[u8]) -> (r: Result<
        (),
        Error,
    >)
        ensures
            owner_only(
                old(self)@,
                caller@,
                AirdropState {
                    whitelisted: old(self)@.whitelisted.remove(whitelisted@),
                    ..old(self)@
                },
                r,
                final(self)@,
            ),
    ;

    /// The public key of the trusted signer; empty where none is set.
    fn signer(&self) -> (r: Vec<u8>)
        ensures
            r@ == self@.signer,
    ;

    /// The pool registered as `root_hash`, if there is one. A registered
    /// pool has units to share its reward among.
    fn rewards_checkpoints(&self, root_hash: &PoolId) -> (r: Option<RewardsCheckpoint>)
        ensures
            r is Some <==> self@.checkpoints.dom().contains(root_hash@),
            r matches Some(c) ==> c@ == self@.checkpoints[root_hash@] && c@.total_nft_supply > 0,
    ;

    /// Whether `user` was paid from the pool `root_hash`.
    fn rewards_claimed(&self, user: &[u8], root_hash: &PoolId) -> (r: bool)
        ensures
            r == self@.rewards_claimed.contains((user@, root_hash@)),
    ;

    /// Whether `address` is on the allow-list.
    fn whitelisted(&self, address: &[u8]) -> (r: bool)
        ensures
            r == self@.whitelisted.contains(address@),
    ;

    /// Who registered the pool `hash`, if it is registered.
    fn rewards_owner(&self, hash: &PoolId) -> (r: Option<Vec<u8>>)
        ensures
            r is Some <==> self@.rewards_owner.dom().contains(hash@),
            r matches Some(o) ==> o@ == self@.rewards_owner[hash@],
    ;
}

impl StorageModule for Airdrop {
    fn change_signer(&mut self, caller: &[u8], new_signer: Vec<u8>) -> (r: Result<(), Error>) {
        if !self.is_owner(caller) {
            return Err(Error::Unauthorized);
        }
        self.put_signer(new_signer);
        Ok(())
    }

    fn whitelist_address(&mut self, caller: &[u8], new_whitelisted: Vec<u8>) -> (r: Result<
        (),
        Error,
    >) {
        if !self.is_owner(caller) {
            return Err(Error::Unauthorized);
        }
        self.put_whitelisted(new_whitelisted);
        Ok(())
    }

    fn remove_whitelist_address(&mut self, caller: &[u8], whitelisted: &[u8]) -> (r: Result<
        (),
        Error,
    >) {
        if !self.is_owner(caller) {
            return Err(Error::Unauthorized);
        }
        self.clear_whitelisted(whitelisted);
        Ok(())
    }

    fn signer(&self) -> (r: Vec<u8>) {
        copy_bytes(self.signer.as_slice())
    }

    fn rewards_checkpoints(&self, root_hash: &PoolId) -> (r: Option<RewardsCheckpoint>) {
        match self.find_pool(root_hash) {
            Some(i) => {
                let record = &self.pools[i];
                proof {
                    use_type_invariant(record);
                }
                Some(record.checkpoint.clone())
            },
            None => None,
        }
    }

    fn rewards_claimed(&self, user: &[u8], root_hash: &PoolId) -> (r: bool) {
        let mut i: usize = self.claims.len();
        assert(self.claims@.take(i as int) =~= self.claims@);
        while i > 0
            invariant
                i <= self.claims@.len(),
                paid(self.claims@, user@, root_hash@) == paid(
                    self.claims@.take(i as int),
                    user@,
                    root_hash@,
                ),
            decreases i,
        {
            i = i - 1;
            assert(self.claims@.take(i + 1).drop_last() =~= self.claims@.take(i as int));
            if bytes_eq(self.claims[i].user.as_slice(), user) && bytes_eq(
                self.claims[i].root_hash.as_slice(),
                root_hash.as_slice(),
            ) {
                return true;
            }
        }
        false
    }

    fn whitelisted(&self, address: &[u8]) -> (r: bool) {
        let mut i: usize = self.whitelist.len();
        assert(self.whitelist@.take(i as int) =~= self.whitelist@);
        while i > 0
            invariant
                i <= self.whitelist@.len(),
                listed(self.whitelist@, address@) == listed(
                    self.whitelist@.take(i as int),
                    address@,
                ),
            decreases i,
        {
            i = i - 1;
            assert(self.whitelist@.take(i + 1).drop_last() =~= self.whitelist@.take(i as int));
            if bytes_eq(self.whitelist[i].as_slice(), address) {
                return true;
            }
        }
        false
    }

    fn rewards_owner(&self, hash: &PoolId) -> (r: Option<Vec<u8>>) {
        match self.find_pool(hash) {
            Some(i) => Some(copy_bytes(self.pools[i].owner.as_slice())),
            None => None,
        }
    }
}

} // verus!
