//! The collateral vault: what each owner holds of each asset, free to
//! withdraw or locked behind a loan.
//!
//! Collateral is locked one pledge at a time.  Every lock has an id, and the
//! locked part of a position is always the sum of its live locks, so no
//! collateral can stand behind two loans.

use vstd::prelude::*;
use candid::Principal;
use crate::table::find_last;
use crate::table::lemma_find_last;
use crate::table::lemma_find_last_push;
use crate::table::lemma_find_last_same_hits;
use crate::table::lemma_find_last_unique;
use crate::types::same_principal;
use crate::types::LendError;

verus! {

/// One owner's position in one asset.
#[derive(Clone, Copy, Debug, PartialEq, Eq)]
pub struct Collateral {
    pub id: u64,
    pub owner: Principal,
    pub asset: u64,
    /// What the owner may withdraw.
    pub free: u64,
    /// What is pledged against loans.
    pub locked: u64,
}

/// One pledge.  Its amount falls to zero when it is released or seized, and
/// the record stays.
#[derive(Clone, Copy, Debug, PartialEq, Eq)]
pub struct CollateralLock {
    pub owner: Principal,
    pub asset: u64,
    pub amount: u64,
}

/// The predicate "is the position of `owner` in `asset`".
pub open spec fn held_by(owner: Principal, asset: u64) -> spec_fn(Collateral) -> bool {
    |c: Collateral| c.owner == owner && c.asset == asset
}

/// The sum of the locks that `owner` has on `asset`.
pub open spec fn lock_total(locks: Seq<CollateralLock>, owner: Principal, asset: u64) -> nat
    decreases locks.len(),
{
    if locks.len() == 0 {
        0
    } else {
        lock_total(locks.drop_last(), owner, asset) + if locks.last().owner == owner && locks.last().asset
            == asset {
            locks.last().amount as nat
        } else {
            0
        }
    }
}

/// What a vault holds: its positions in the order they were opened, and its
/// locks by id.
pub struct VaultView {
    pub positions: Seq<Collateral>,
    pub locks: Seq<CollateralLock>,
}

impl VaultView {
    /// Where the position of `owner` in `asset` stands, if there is one.
    pub open spec fn position(self, owner: Principal, asset: u64) -> Option<int> {
        find_last(self.positions, held_by(owner, asset))
    }

    /// The free collateral of `owner` in `asset`.
    pub open spec fn free(self, owner: Principal, asset: u64) -> nat {
        match self.position(owner, asset) {
            Some(i) => self.positions[i].free as nat,
            None => 0,
        }
    }

    /// The locked collateral of `owner` in `asset`.
    pub open spec fn locked(self, owner: Principal, asset: u64) -> nat {
        match self.position(owner, asset) {
            Some(i) => self.positions[i].locked as nat,
            None => 0,
        }
    }

    /// No two positions share owner and asset, and each carries its index as
    /// id and fits in 64 bits as a whole.
    pub open spec fn shaped(self) -> bool {
        &&& forall|i: int, j: int|
            0 <= i < j < self.positions.len() ==> !(#[trigger] self.positions[i].owner
                == #[trigger] self.positions[j].owner && self.positions[i].asset == self.positions[j].asset)
        &&& forall|i: int|
            0 <= i < self.positions.len() ==> (#[trigger] self.positions[i]).id == i && self.positions[i].free
                + self.positions[i].locked <= u64::MAX
    }

    /// What is locked in a position is exactly the sum of its owner's locks
    /// on that asset.
    pub open spec fn balanced(self) -> bool {
        forall|owner: Principal, asset: u64|
            self.locked(owner, asset) == #[trigger] lock_total(self.locks, owner, asset)
    }

    /// A vault is well-formed when it is shaped and balanced.
    pub open spec fn wf(self) -> bool {
        self.shaped() && self.balanced()
    }

    /// The vault with the position of `owner` in `asset` holding `free` and
    /// `locked`.  A position that is not there yet is opened.
    pub open spec fn with_position(self, owner: Principal, asset: u64, free: u64, locked: u64) -> VaultView {
        match self.position(owner, asset) {
            Some(i) => VaultView {
                positions: self.positions.update(i, Collateral { free, locked, ..self.positions[i] }),
                ..self
            },
            None => VaultView {
                positions: self.positions.push(
                    Collateral { id: self.positions.len() as u64, owner, asset, free, locked },
                ),
                ..self
            },
        }
    }

    /// The vault with lock `id` holding `amount`.
    pub open spec fn with_lock_amount(self, id: int, amount: u64) -> VaultView {
        VaultView { locks: self.locks.update(id, CollateralLock { amount, ..self.locks[id] }), ..self }
    }

    /// What `deposit_collateral` answers: nothing can be deposited, nor more
    /// than the position can hold.
    pub open spec fn deposit_outcome(self, owner: Principal, asset: u64, amount: u64) -> Result<(), LendError> {
        if amount == 0 || self.free(owner, asset) + self.locked(owner, asset) + amount > u64::MAX {
            Err(LendError::InvalidAmount)
        } else {
            Ok(())
        }
    }

    /// The vault after `deposit_collateral`.
    pub open spec fn deposited(self, owner: Principal, asset: u64, amount: u64) -> VaultView {
        if self.deposit_outcome(owner, asset, amount) is Ok {
            self.with_position(
                owner,
                asset,
                (self.free(owner, asset) + amount) as u64,
                self.locked(owner, asset) as u64,
            )
        } else {
            self
        }
    }

    /// What `withdraw_collateral` answers: only free collateral can be
    /// withdrawn.
    pub open spec fn withdraw_outcome(self, owner: Principal, asset: u64, amount: u64) -> Result<(), LendError> {
        if amount > self.free(owner, asset) {
            Err(LendError::InsufficientCollateral)
        } else {
            Ok(())
        }
    }

    /// The vault after `withdraw_collateral`.
    pub open spec fn withdrawn(self, owner: Principal, asset: u64, amount: u64) -> VaultView {
        if self.withdraw_outcome(owner, asset, amount) is Ok && self.position(owner, asset) is Some {
            self.with_position(
                owner,
                asset,
                (self.free(owner, asset) - amount) as u64,
                self.locked(owner, asset) as u64,
            )
        } else {
            self
        }
    }

    /// What `lock_collateral` answers: the id of the new lock.
    pub open spec fn lock_outcome(self, owner: Principal, asset: u64, amount: u64) -> Result<u64, LendError> {
        if amount == 0 {
            Err(LendError::InvalidAmount)
        } else if amount > self.free(owner, asset) {
            Err(LendError::InsufficientCollateral)
        } else {
            Ok(self.locks.len() as u64)
        }
    }

    /// The vault after `lock_collateral`.
    pub open spec fn pledged(self, owner: Principal, asset: u64, amount: u64) -> VaultView {
        if self.lock_outcome(owner, asset, amount) is Ok {
            VaultView {
                locks: self.locks.push(CollateralLock { owner, asset, amount }),
                ..self.with_position(
                    owner,
                    asset,
                    (self.free(owner, asset) - amount) as u64,
                    (self.locked(owner, asset) + amount) as u64,
                )
            }
        } else {
            self
        }
    }

    /// What `release_collateral` and `seize_collateral` answer: the amount
    /// that lock `id` held.  A lock that does not exist or holds nothing any
    /// more cannot be released or seized.
    pub open spec fn unlock_outcome(self, id: u64) -> Result<u64, LendError> {
        if id >= self.locks.len() || self.locks[id as int].amount == 0 {
            Err(LendError::InsufficientCollateral)
        } else {
            Ok(self.locks[id as int].amount)
        }
    }

    /// The vault after `release_collateral`: what the lock held is free
    /// again.
    pub open spec fn released(self, id: u64) -> VaultView {
        if self.unlock_outcome(id) is Ok {
            let lock = self.locks[id as int];
            self.with_position(
                lock.owner,
                lock.asset,
                (self.free(lock.owner, lock.asset) + lock.amount) as u64,
                (self.locked(lock.owner, lock.asset) - lock.amount) as u64,
            ).with_lock_amount(id as int, 0)
        } else {
            self
        }
    }

    /// The vault after `seize_collateral`: what the lock held has left the
    /// vault.
    pub open spec fn seized(self, id: u64) -> VaultView {
        if self.unlock_outcome(id) is Ok {
            let lock = self.locks[id as int];
            self.with_position(
                lock.owner,
                lock.asset,
                self.free(lock.owner, lock.asset) as u64,
                (self.locked(lock.owner, lock.asset) - lock.amount) as u64,
            ).with_lock_amount(id as int, 0)
        } else {
            self
        }
    }

    /// What an owner holds of an asset, free and locked together, fits in 64
    /// bits.
    pub proof fn lemma_holding_fits(self, owner: Principal, asset: u64)
        requires
            self.shaped(),
        ensures
            self.free(owner, asset) + self.locked(owner, asset) <= u64::MAX,
    {
        lemma_find_last(self.positions, held_by(owner, asset));
    }

    /// What is locked for an owner in an asset covers each of the owner's
    /// locks on it.
    pub proof fn lemma_locked_covers(self, id: int)
        requires
            self.wf(),
            0 <= id < self.locks.len(),
        ensures
            self.locks[id].amount <= self.locked(self.locks[id].owner, self.locks[id].asset),
    {
        lemma_lock_total_update(self.locks, id, 0, self.locks[id].owner, self.locks[id].asset);
    }

    /// Setting a position changes what that owner holds of that asset and
    /// nothing else.
    pub proof fn lemma_with_position(self, owner: Principal, asset: u64, free: u64, locked: u64)
        requires
            self.shaped(),
        ensures
            forall|o: Principal, a: u64|
                #![trigger self.with_position(owner, asset, free, locked).free(o, a)]
                self.with_position(owner, asset, free, locked).free(o, a) == if o == owner && a == asset {
                    free as nat
                } else {
                    self.free(o, a)
                },
            forall|o: Principal, a: u64|
                #![trigger self.with_position(owner, asset, free, locked).locked(o, a)]
                self.with_position(owner, asset, free, locked).locked(o, a) == if o == owner && a == asset {
                    locked as nat
                } else {
                    self.locked(o, a)
                },
            self.with_position(owner, asset, free, locked).position(owner, asset) is Some,
            self.with_position(owner, asset, free, locked).locks == self.locks,
    {
        let after = self.with_position(owner, asset, free, locked);
        assert forall|o: Principal, a: u64| #![trigger after.free(o, a)] after.free(o, a) == if o == owner && a
            == asset {
            free as nat
        } else {
            self.free(o, a)
        } by {
            self.lemma_with_position_at(owner, asset, free, locked, o, a);
        }
        assert forall|o: Principal, a: u64| #![trigger after.locked(o, a)] after.locked(o, a) == if o == owner
            && a == asset {
            locked as nat
        } else {
            self.locked(o, a)
        } by {
            self.lemma_with_position_at(owner, asset, free, locked, o, a);
        }
        self.lemma_with_position_at(owner, asset, free, locked, owner, asset);
    }

    /// What `o` holds of `a` once the position of `owner` in `asset` is set.
    proof fn lemma_with_position_at(
        self,
        owner: Principal,
        asset: u64,
        free: u64,
        locked: u64,
        o: Principal,
        a: u64,
    )
        requires
            self.shaped(),
        ensures
            ({
                let after = self.with_position(owner, asset, free, locked);
                if o == owner && a == asset {
                    &&& after.position(o, a) is Some
                    &&& after.free(o, a) == free
                    &&& after.locked(o, a) == locked
                } else {
                    &&& after.free(o, a) == self.free(o, a)
                    &&& after.locked(o, a) == self.locked(o, a)
                }
            }),
    {
        let after = self.with_position(owner, asset, free, locked);
        lemma_find_last(self.positions, held_by(owner, asset));
        lemma_find_last(self.positions, held_by(o, a));
        match self.position(owner, asset) {
            Some(i) => {
                assert forall|j: int| 0 <= j < self.positions.len() implies held_by(o, a)(self.positions[j])
                    == held_by(o, a)(after.positions[j]) by {}
                lemma_find_last_same_hits(self.positions, after.positions, held_by(o, a));
            },
            None => {
                lemma_find_last_push(
                    self.positions,
                    Collateral { id: self.positions.len() as u64, owner, asset, free, locked },
                    held_by(o, a),
                );
            },
        }
    }

    /// Setting a position keeps the positions distinct and numbered.
    pub proof fn lemma_with_position_shaped(self, owner: Principal, asset: u64, free: u64, locked: u64)
        requires
            self.shaped(),
            free + locked <= u64::MAX,
            self.position(owner, asset) is None ==> self.positions.len() <= u64::MAX,
        ensures
            self.with_position(owner, asset, free, locked).shaped(),
    {
        lemma_find_last(self.positions, held_by(owner, asset));
    }
}

/// One more lock adds its amount to its owner's total on its asset.
pub proof fn lemma_lock_total_push(locks: Seq<CollateralLock>, lock: CollateralLock, owner: Principal, asset: u64)
    ensures
        lock_total(locks.push(lock), owner, asset) == lock_total(locks, owner, asset) + if lock.owner == owner
            && lock.asset == asset {
            lock.amount as nat
        } else {
            0
        },
{
    assert(locks.push(lock).drop_last() == locks);
}

/// Changing the amount of one lock changes its owner's total on its asset by
/// the difference, and no other total.
pub proof fn lemma_lock_total_update(
    locks: Seq<CollateralLock>,
    id: int,
    amount: u64,
    owner: Principal,
    asset: u64,
)
    requires
        0 <= id < locks.len(),
    ensures
        lock_total(locks, locks[id].owner, locks[id].asset) >= locks[id].amount,
        lock_total(locks.update(id, CollateralLock { amount, ..locks[id] }), owner, asset) == if locks[id].owner
            == owner && locks[id].asset == asset {
            lock_total(locks, owner, asset) - locks[id].amount + amount
        } else {
            lock_total(locks, owner, asset) as int
        },
    decreases locks.len(),
{
    let changed = locks.update(id, CollateralLock { amount, ..locks[id] });
    if id == locks.len() - 1 {
        assert(changed.drop_last() == locks.drop_last());
    } else {
        let front = locks.drop_last();
        assert(front[id] == locks[id]);
        assert(changed.drop_last() == front.update(id, CollateralLock { amount, ..front[id] }));
        lemma_lock_total_update(front, id, amount, owner, asset);
        lemma_lock_total_update(front, id, amount, locks[id].owner, locks[id].asset);
    }
}

/// The collateral vault.
pub struct CollateralContract {
    positions: Vec<Collateral>,
    locks: Vec<CollateralLock>,
}

impl CollateralContract {
    /// What the vault holds.
    pub closed spec fn view(&self) -> VaultView {
        VaultView { positions: self.positions@, locks: self.locks@ }
    }

    /// The vault is well-formed when what it holds is.
    pub open spec fn wf(&self) -> bool {
        self@.wf()
    }

    /// An empty vault.
    pub fn new() -> (vault: CollateralContract)
        ensures
            vault.wf(),
            vault@.positions.len() == 0,
            vault@.locks.len() == 0,
    {
        CollateralContract { positions: Vec::new(), locks: Vec::new() }
    }

    /// Adds `amount` to the free collateral of `owner` in `asset`.
    pub fn deposit_collateral(&mut self, owner: Principal, asset: u64, amount: u64) -> (outcome: Result<
        (),
        LendError,
    >)
        requires
            old(self).wf(),
        ensures
            final(self).wf(),
            outcome == old(self)@.deposit_outcome(owner, asset, amount),
            final(self)@ == old(self)@.deposited(owner, asset, amount),
    {
        if amount == 0 {
            return Err(LendError::InvalidAmount);
        }
        match self.find(&owner, asset) {
            Some(i) => {
                let held: Collateral = self.positions[i];
                if amount > u64::MAX - held.free - held.locked {
                    return Err(LendError::InvalidAmount);
                }
                proof {
                    self.lemma_locks_add_up(owner, asset, held.locked);
                }
                self.store(i, owner, asset, held.free + amount, held.locked);
            },
            None => {
                self.open(owner, asset, amount);
            },
        }
        Ok(())
    }

    /// Takes `amount` out of the free collateral of `owner` in `asset`.
    pub fn withdraw_collateral(&mut self, owner: Principal, asset: u64, amount: u64) -> (outcome: Result<
        (),
        LendError,
    >)
        requires
            old(self).wf(),
        ensures
            final(self).wf(),
            outcome == old(self)@.withdraw_outcome(owner, asset, amount),
            final(self)@ == old(self)@.withdrawn(owner, asset, amount),
    {
        match self.find(&owner, asset) {
            Some(i) => {
                let held: Collateral = self.positions[i];
                if amount > held.free {
                    return Err(LendError::InsufficientCollateral);
                }
                proof {
                    self.lemma_locks_add_up(owner, asset, held.locked);
                }
                self.store(i, owner, asset, held.free - amount, held.locked);
                Ok(())
            },
            None => {
                if amount > 0 {
                    Err(LendError::InsufficientCollateral)
                } else {
                    Ok(())
                }
            },
        }
    }

    /// Moves `amount` of the free collateral of `owner` in `asset` into a new
    /// lock and returns the lock's id.
    pub fn lock_collateral(&mut self, owner: Principal, asset: u64, amount: u64) -> (outcome: Result<
        u64,
        LendError,
    >)
        requires
            old(self).wf(),
        ensures
            final(self).wf(),
            outcome == old(self)@.lock_outcome(owner, asset, amount),
            final(self)@ == old(self)@.pledged(owner, asset, amount),
    {
        if amount == 0 {
            return Err(LendError::InvalidAmount);
        }
        match self.find(&owner, asset) {
            Some(i) => {
                let held: Collateral = self.positions[i];
                if amount > held.free {
                    return Err(LendError::InsufficientCollateral);
                }
                let id: u64 = self.locks.len() as u64;
                proof {
                    assert forall|o: Principal, a: u64|
                        lock_total(self.locks@.push(CollateralLock { owner, asset, amount }), o, a) == lock_total(
                            self.locks@,
                            o,
                            a,
                        ) + if o == owner && a == asset {
                            amount as nat
                        } else {
                            0
                        } by {
                        lemma_lock_total_push(self.locks@, CollateralLock { owner, asset, amount }, o, a);
                    }
                }
                self.locks.push(CollateralLock { owner, asset, amount });
                self.store(i, owner, asset, held.free - amount, held.locked + amount);
                Ok(id)
            },
            None => Err(LendError::InsufficientCollateral),
        }
    }

    /// Hands what lock `lock_id` holds back to its owner as free collateral
    /// and returns the amount.
    pub fn release_collateral(&mut self, lock_id: u64) -> (outcome: Result<u64, LendError>)
        requires
            old(self).wf(),
        ensures
            final(self).wf(),
            outcome == old(self)@.unlock_outcome(lock_id),
            final(self)@ == old(self)@.released(lock_id),
    {
        self.unlock(lock_id, true)
    }

    /// Takes what lock `lock_id` holds out of the vault and returns the
    /// amount.
    pub fn seize_collateral(&mut self, lock_id: u64) -> (outcome: Result<u64, LendError>)
        requires
            old(self).wf(),
        ensures
            final(self).wf(),
            outcome == old(self)@.unlock_outcome(lock_id),
            final(self)@ == old(self)@.seized(lock_id),
    {
        self.unlock(lock_id, false)
    }

    /// The position of `owner` in `asset`, if one was ever opened.
    pub fn get_collateral_record(&self, owner: Principal, asset: u64) -> (record: Option<Collateral>)
        requires
            self.wf(),
        ensures
            record == match self@.position(owner, asset) {
                Some(i) => Some(self@.positions[i]),
                None => None,
            },
    {
        match self.find(&owner, asset) {
            Some(i) => Some(self.positions[i]),
            None => None,
        }
    }

    /// The free collateral of `owner` in `asset`.
    pub fn get_collateral_amount(&self, owner: Principal, asset: u64) -> (amount: u64)
        requires
            self.wf(),
        ensures
            amount == self@.free(owner, asset),
    {
        match self.find(&owner, asset) {
            Some(i) => self.positions[i].free,
            None => 0,
        }
    }

    /// Lock `lock_id`, if it was ever made.
    pub fn get_lock(&self, lock_id: u64) -> (lock: Option<CollateralLock>)
        ensures
            lock == if lock_id < self@.locks.len() {
                Some(self@.locks[lock_id as int])
            } else {
                None
            },
    {
        if lock_id < self.locks.len() as u64 {
            Some(self.locks[lock_id as usize])
        } else {
            None
        }
    }

    /// How many locks were ever made.
    pub fn lock_count(&self) -> (count: u64)
        ensures
            count == self@.locks.len(),
    {
        self.locks.len() as u64
    }

    /// Empties lock `lock_id`; its amount goes back to the owner's free
    /// collateral where `to_owner` is set, and leaves the vault otherwise.
    fn unlock(&mut self, lock_id: u64, to_owner: bool) -> (outcome: Result<u64, LendError>)
        requires
            old(self).wf(),
        ensures
            final(self).wf(),
            outcome == old(self)@.unlock_outcome(lock_id),
            final(self)@ == if to_owner {
                old(self)@.released(lock_id)
            } else {
                old(self)@.seized(lock_id)
            },
    {
        if lock_id >= self.locks.len() as u64 {
            return Err(LendError::InsufficientCollateral);
        }
        let lock: CollateralLock = self.locks[lock_id as usize];
        if lock.amount == 0 {
            return Err(LendError::InsufficientCollateral);
        }
        proof {
            lemma_lock_total_update(self.locks@, lock_id as int, 0, lock.owner, lock.asset);
            assert forall|o: Principal, a: u64|
                lock_total(self.locks@.update(lock_id as int, CollateralLock { amount: 0, ..lock }), o, a) == if o
                    == lock.owner && a == lock.asset {
                    lock_total(self.locks@, o, a) - lock.amount
                } else {
                    lock_total(self.locks@, o, a) as int
                } by {
                lemma_lock_total_update(self.locks@, lock_id as int, 0, o, a);
            }
            assert(self@.locked(lock.owner, lock.asset) == lock_total(self.locks@, lock.owner, lock.asset));
        }
        match self.find(&lock.owner, lock.asset) {
            Some(i) => {
                let held: Collateral = self.positions[i];
                self.locks.set(lock_id as usize, CollateralLock { amount: 0, ..lock });
                if to_owner {
                    self.store(i, lock.owner, lock.asset, held.free + lock.amount, held.locked - lock.amount);
                } else {
                    self.store(i, lock.owner, lock.asset, held.free, held.locked - lock.amount);
                }
                Ok(lock.amount)
            },
            None => {
                // A live lock always belongs to a position.
                Err(LendError::InvariantViolation)
            },
        }
    }

    /// The locks of every owner on every asset add up to what the owner's
    /// position shows as locked.
    proof fn lemma_locks_add_up(&self, owner: Principal, asset: u64, locked: u64)
        requires
            self.wf(),
            self@.locked(owner, asset) == locked,
        ensures
            forall|o: Principal, a: u64|
                #[trigger] lock_total(self.locks@, o, a) == if o == owner && a == asset {
                    locked as nat
                } else {
                    self@.locked(o, a)
                },
    {
        assert forall|o: Principal, a: u64| #[trigger] lock_total(self.locks@, o, a) == if o == owner && a
            == asset {
            locked as nat
        } else {
            self@.locked(o, a)
        } by {
            assert(self@.locked(o, a) == lock_total(self@.locks, o, a));
        }
    }

    /// Where the position of `owner` in `asset` stands.
    fn find(&self, owner: &Principal, asset: u64) -> (found: Option<usize>)
        requires
            self@.shaped(),
        ensures
            match found {
                Some(i) => i < self.positions.len() && self@.position(*owner, asset) == Some(i as int),
                None => self@.position(*owner, asset) is None,
            },
    {
        let mut i: usize = 0;
        while i < self.positions.len()
            invariant
                i <= self.positions.len(),
                self@.shaped(),
                forall|j: int| 0 <= j < i ==> !held_by(*owner, asset)(self.positions@[j]),
            decreases self.positions.len() - i,
        {
            if self.positions[i].asset == asset && same_principal(&self.positions[i].owner, owner) {
                proof {
                    lemma_find_last_unique(self.positions@, held_by(*owner, asset), i as int);
                }
                return Some(i);
            }
            i += 1;
        }
        proof {
            lemma_find_last(self.positions@, held_by(*owner, asset));
        }
        None
    }

    /// Writes `free` and `locked` into the position at `i`, which is that of
    /// `owner` in `asset`.  The locks must already add up to `locked`.
    fn store(&mut self, i: usize, owner: Principal, asset: u64, free: u64, locked: u64)
        requires
            i < old(self).positions.len(),
            old(self)@.position(owner, asset) == Some(i as int),
            free + locked <= u64::MAX,
            old(self)@.shaped(),
            forall|o: Principal, a: u64|
                #[trigger] lock_total(old(self).locks@, o, a) == if o == owner && a == asset {
                    locked as nat
                } else {
                    old(self)@.locked(o, a)
                },
        ensures
            final(self).wf(),
            final(self)@ == old(self)@.with_position(owner, asset, free, locked),
    {
        let held: Collateral = self.positions[i];
        self.positions.set(i, Collateral { free, locked, ..held });
        proof {
            old(self)@.lemma_with_position(owner, asset, free, locked);
            old(self)@.lemma_with_position_shaped(owner, asset, free, locked);
        }
    }

    /// Opens the position of `owner` in `asset` with `free` in it.
    fn open(&mut self, owner: Principal, asset: u64, free: u64)
        requires
            old(self).wf(),
            old(self)@.position(owner, asset) is None,
        ensures
            final(self).wf(),
            final(self)@ == old(self)@.with_position(owner, asset, free, 0),
    {
        let id: u64 = self.positions.len() as u64;
        proof {
            old(self)@.lemma_with_position(owner, asset, free, 0);
            old(self)@.lemma_with_position_shaped(owner, asset, free, 0);
        }
        self.positions.push(Collateral { id, owner, asset, free, locked: 0 });
    }
}

} // verus!
