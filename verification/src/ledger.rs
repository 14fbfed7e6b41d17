use vstd::prelude::*;

use crate::account::AccountId;
use crate::emission::{
    compute_delta, spec_cumulative_emission, spec_emission_delta,
};
use crate::errors::LedgerError;
use crate::tier::{classify, lemma_classify_monotone, spec_classify};

verus! {

/// The process-wide cumulative counters and identities, created once at
/// program genesis. Every counter is monotonically non-decreasing.
#[derive(Clone, Copy, Debug, PartialEq, Eq, Structural)]
pub struct GlobalLedger {
    /// Principal allowed to perform administrative operations.
    pub authority: AccountId,
    /// Identifier of the reward-token denomination.
    pub reward_mint: AccountId,
    /// Identifier of the deposit-token denomination.
    pub deposit_mint: AccountId,
    /// Sum of all positions' locked liquidity, kept by construction.
    pub total_locked_liquidity: u64,
    /// Sum of all positions' emitted reward, kept by construction.
    pub total_reward_emitted: u64,
    /// Sum of all positions' deposited value, kept by construction.
    pub total_deposited: u64,
}

/// One principal's locked-liquidity position, created lazily on first
/// deposit and never deleted. All quantities are in scaled units.
#[derive(Clone, Copy, Debug, PartialEq, Eq, Structural)]
pub struct UserPosition {
    pub owner: AccountId,
    pub initialized: bool,
    pub locked_liquidity: u64,
    pub reward_emitted: u64,
    pub deposited: u64,
    /// Membership tier, 0 (none) through 4 (highest); only ever raised.
    pub tier: u8,
    /// Timestamp of the last committed transition, supplied by the caller.
    pub last_update: i64,
}

/// The ledger: the global counters together with every user position,
/// exclusively owned and mutated only through the operations below, each of
/// which commits atomically or leaves the ledger untouched.
#[derive(Clone, Debug)]
pub struct Ledger {
    pub global: GlobalLedger,
    pub positions: Vec<UserPosition>,
}

/// Total locked liquidity over a sequence of positions.
pub open spec fn sum_locked(s: Seq<UserPosition>) -> int
    decreases s.len(),
{
    if s.len() == 0 {
        0
    } else {
        sum_locked(s.drop_last()) + s.last().locked_liquidity
    }
}

/// Total emitted reward over a sequence of positions.
pub open spec fn sum_reward(s: Seq<UserPosition>) -> int
    decreases s.len(),
{
    if s.len() == 0 {
        0
    } else {
        sum_reward(s.drop_last()) + s.last().reward_emitted
    }
}

/// Total deposited value over a sequence of positions.
pub open spec fn sum_deposited(s: Seq<UserPosition>) -> int
    decreases s.len(),
{
    if s.len() == 0 {
        0
    } else {
        sum_deposited(s.drop_last()) + s.last().deposited
    }
}

proof fn lemma_sums_push(s: Seq<UserPosition>, p: UserPosition)
    ensures
        sum_locked(s.push(p)) == sum_locked(s) + p.locked_liquidity,
        sum_reward(s.push(p)) == sum_reward(s) + p.reward_emitted,
        sum_deposited(s.push(p)) == sum_deposited(s) + p.deposited,
{
    assert(s.push(p).drop_last() =~= s);
    assert(s.push(p).last() == p);
}

proof fn lemma_sums_update(s: Seq<UserPosition>, i: int, p: UserPosition)
    requires
        0 <= i < s.len(),
    ensures
        sum_locked(s.update(i, p)) == sum_locked(s) - s[i].locked_liquidity
            + p.locked_liquidity,
        sum_reward(s.update(i, p)) == sum_reward(s) - s[i].reward_emitted + p.reward_emitted,
        sum_deposited(s.update(i, p)) == sum_deposited(s) - s[i].deposited + p.deposited,
    decreases s.len(),
{
    let t = s.update(i, p);
    if i == s.len() - 1 {
        assert(t.drop_last() =~= s.drop_last());
        assert(t.last() == p);
    } else {
        assert(t.drop_last() =~= s.drop_last().update(i, p));
        assert(t.last() == s.last());
        lemma_sums_update(s.drop_last(), i, p);
    }
}

/// The index of the position owned by `owner`, or -1 if there is none.
pub open spec fn spec_find(s: Seq<UserPosition>, owner: AccountId) -> int
    decreases s.len(),
{
    if s.len() == 0 {
        -1
    } else if s[0].owner == owner {
        0
    } else {
        let r = spec_find(s.subrange(1, s.len() as int), owner);
        if r == -1 {
            -1
        } else {
            r + 1
        }
    }
}

proof fn lemma_find_first(s: Seq<UserPosition>, owner: AccountId, i: int)
    requires
        0 <= i < s.len(),
        s[i].owner == owner,
        forall|j: int| 0 <= j < i ==> s[j].owner != owner,
    ensures
        spec_find(s, owner) == i,
    decreases s.len(),
{
    if i == 0 {
    } else {
        let tail = s.subrange(1, s.len() as int);
        assert(tail[i - 1] == s[i]);
        assert forall|j: int| 0 <= j < i - 1 implies tail[j].owner != owner by {
            assert(tail[j] == s[j + 1]);
        }
        lemma_find_first(tail, owner, i - 1);
    }
}

proof fn lemma_find_none(s: Seq<UserPosition>, owner: AccountId)
    requires
        forall|j: int| 0 <= j < s.len() ==> s[j].owner != owner,
    ensures
        spec_find(s, owner) == -1,
    decreases s.len(),
{
    if s.len() > 0 {
        let tail = s.subrange(1, s.len() as int);
        assert forall|j: int| 0 <= j < tail.len() implies tail[j].owner != owner by {
            assert(tail[j] == s[j + 1]);
        }
        lemma_find_none(tail, owner);
    }
}

/// No two stored positions belong to the same principal.
pub open spec fn owners_distinct(s: Seq<UserPosition>) -> bool {
    forall|i: int, j: int| #![trigger s[i], s[j]]
        0 <= i < j < s.len() ==> s[i].owner != s[j].owner
}

/// Every stored position is internally consistent: it is active, its tier
/// is the classification of its locked amount (and hence at most 4), and
/// its emitted reward is exactly the cumulative emission of its locked
/// amount, the sum of every delta ever credited to it.
pub open spec fn position_consistent(p: UserPosition) -> bool {
    &&& p.initialized
    &&& p.tier == spec_classify(p.locked_liquidity as int)
    &&& p.reward_emitted == spec_cumulative_emission(p.locked_liquidity as int)
}

/// A receipt of a committed lock-and-earn transition.
#[derive(Clone, Copy, Debug, PartialEq, Eq, Structural)]
pub struct LockReceipt {
    /// The position's locked liquidity after the transition.
    pub locked_total: u64,
    /// The reward delta credited by the transition.
    pub reward_minted: u64,
    /// Whether the transition raised the position's tier; a raised tier is
    /// the signal consumed by the external credential-issuance collaborator.
    pub tier_upgraded: bool,
}

/// A read-only snapshot of the global counters and one principal's
/// position, if it exists.
#[derive(Clone, Copy, Debug)]
pub struct Statistics {
    pub global: GlobalLedger,
    pub position: Option<UserPosition>,
}

/// A request for the external credential-issuance collaborator, exposing
/// the principal and the tier to certify.
#[derive(Clone, Copy, Debug, PartialEq, Eq, Structural)]
pub struct CredentialRequest {
    pub principal: AccountId,
    pub tier: u8,
}

/// The position a first deposit starts from: zeroed counters, no tier.
pub open spec fn spec_fresh_position(owner: AccountId) -> UserPosition {
    UserPosition {
        owner,
        initialized: true,
        locked_liquidity: 0,
        reward_emitted: 0,
        deposited: 0,
        tier: 0,
        last_update: 0,
    }
}

/// The position after a lock-and-earn transition: counters grown by the
/// deposit, the quoted liquidity and the emission delta, the tier raised to
/// the new classification if that is higher, and the timestamp refreshed.
pub open spec fn spec_locked_step(
    prev: UserPosition,
    deposit_amount: int,
    liquidity_amount: int,
    now: i64,
) -> UserPosition {
    let new_locked = prev.locked_liquidity + liquidity_amount;
    let new_tier = if spec_classify(new_locked) > prev.tier {
        spec_classify(new_locked)
    } else {
        prev.tier as int
    };
    UserPosition {
        owner: prev.owner,
        initialized: true,
        locked_liquidity: new_locked as u64,
        reward_emitted: (prev.reward_emitted + spec_emission_delta(
            new_locked,
            prev.locked_liquidity as int,
        )) as u64,
        deposited: (prev.deposited + deposit_amount) as u64,
        tier: new_tier as u8,
        last_update: now,
    }
}

impl Ledger {
    /// Conservation: each global counter equals the sum of the matching
    /// per-position counter over all positions, after every committed
    /// operation, never only eventually.
    pub open spec fn conserved(self) -> bool {
        &&& self.global.total_locked_liquidity == sum_locked(self.positions@)
        &&& self.global.total_reward_emitted == sum_reward(self.positions@)
        &&& self.global.total_deposited == sum_deposited(self.positions@)
    }

    /// Well-formedness: conservation, one position per principal, and
    /// internal consistency of every position.
    pub open spec fn wf(self) -> bool {
        &&& self.conserved()
        &&& owners_distinct(self.positions@)
        &&& forall|i: int| 0 <= i < self.positions@.len()
            ==> position_consistent(#[trigger] self.positions@[i])
    }

    /// The stored position of `principal`, if any.
    pub open spec fn spec_position(self, principal: AccountId) -> Option<UserPosition> {
        let i = spec_find(self.positions@, principal);
        if i >= 0 {
            Some(self.positions@[i])
        } else {
            None
        }
    }

    /// The position a transition for `principal` starts from: the stored
    /// one, or a fresh zeroed one if the principal never deposited.
    pub open spec fn spec_prev_position(self, principal: AccountId) -> UserPosition {
        match self.spec_position(principal) {
            Some(p) => p,
            None => spec_fresh_position(principal),
        }
    }

    /// Whether every counter touched by a lock-and-earn transition stays
    /// within its 64-bit range.
    pub open spec fn spec_lock_fits(
        self,
        prev: UserPosition,
        deposit_amount: int,
        liquidity_amount: int,
    ) -> bool {
        let new_locked = prev.locked_liquidity + liquidity_amount;
        let delta = spec_emission_delta(new_locked, prev.locked_liquidity as int);
        &&& new_locked <= u64::MAX
        &&& prev.deposited + deposit_amount <= u64::MAX
        &&& self.global.total_locked_liquidity + liquidity_amount <= u64::MAX
        &&& self.global.total_deposited + deposit_amount <= u64::MAX
        &&& delta <= u64::MAX
        &&& prev.reward_emitted + delta <= u64::MAX
        &&& self.global.total_reward_emitted + delta <= u64::MAX
    }

    /// Creates the ledger at program genesis: stored identities, zeroed
    /// counters, no positions.
    pub fn initialize_ledger(
        authority: AccountId,
        reward_mint: AccountId,
        deposit_mint: AccountId,
    ) -> (ledger: Ledger)
        ensures
            ledger.wf(),
            ledger.global == (GlobalLedger {
                authority,
                reward_mint,
                deposit_mint,
                total_locked_liquidity: 0,
                total_reward_emitted: 0,
                total_deposited: 0,
            }),
            ledger.positions@.len() == 0,
    {
        Ledger {
            global: GlobalLedger {
                authority,
                reward_mint,
                deposit_mint,
                total_locked_liquidity: 0,
                total_reward_emitted: 0,
                total_deposited: 0,
            },
            positions: Vec::new(),
        }
    }

    /// Finds the index of `principal`'s position, scanning in storage order.
    fn find_index(&self, principal: AccountId) -> (r: Option<usize>)
        ensures
            r matches Some(i) ==> i < self.positions@.len()
                && i == spec_find(self.positions@, principal)
                && self.positions@[i as int].owner == principal,
            r is None ==> spec_find(self.positions@, principal) == -1 && forall|j: int|
                0 <= j < self.positions@.len() ==> self.positions@[j].owner != principal,
    {
        let n = self.positions.len();
        let mut i: usize = 0;
        while i < n
            invariant
                n == self.positions@.len(),
                i <= n,
                forall|j: int| 0 <= j < i ==> self.positions@[j].owner != principal,
            decreases n - i,
        {
            if self.positions[i].owner == principal {
                proof {
                    lemma_find_first(self.positions@, principal, i as int);
                }
                return Some(i);
            }
            i = i + 1;
        }
        proof {
            lemma_find_none(self.positions@, principal);
        }
        None
    }

    /// The atomic lock-and-earn transition for `principal`.
    ///
    /// The caller hands in the deposited amount, the locked-liquidity quote
    /// obtained from the external exchange collaborator for that deposit,
    /// and the current timestamp. The transition grows the position's and
    /// the global counters by the deposit, the quote and the emission
    /// delta, raises the tier when the new locked amount classifies higher,
    /// and reports the raise so the caller can notify the external
    /// credential-issuance collaborator.
    ///
    /// Either everything commits, or an error leaves every record
    /// untouched: a zero deposit or quote fails with `InvalidAmount`, and
    /// any counter that would leave its 64-bit range fails the whole
    /// operation with `MathOverflow`. A committed transition never lowers
    /// the tier.
    pub fn lock_and_earn(
        &mut self,
        principal: AccountId,
        deposit_amount: u64,
        liquidity_amount: u64,
        now: i64,
    ) -> (r: Result<LockReceipt, LedgerError>)
        requires
            old(self).wf(),
        ensures
            final(self).wf(),
            final(self).global.authority == old(self).global.authority,
            final(self).global.reward_mint == old(self).global.reward_mint,
            final(self).global.deposit_mint == old(self).global.deposit_mint,
            r is Err ==> final(self).global == old(self).global && final(self).positions@
                == old(self).positions@,
            r == Err::<LockReceipt, LedgerError>(LedgerError::InvalidAmount) <==> (deposit_amount
                == 0 || liquidity_amount == 0),
            r == Err::<LockReceipt, LedgerError>(LedgerError::MathOverflow)
                <==> (deposit_amount > 0 && liquidity_amount > 0 && !old(self).spec_lock_fits(
                old(self).spec_prev_position(principal),
                deposit_amount as int,
                liquidity_amount as int,
            )),
            r is Ok <==> (deposit_amount > 0 && liquidity_amount > 0 && old(self).spec_lock_fits(
                old(self).spec_prev_position(principal),
                deposit_amount as int,
                liquidity_amount as int,
            )),
            r matches Ok(receipt) ==> ({
                let i = spec_find(old(self).positions@, principal);
                let prev = old(self).spec_prev_position(principal);
                let next = spec_locked_step(
                    prev,
                    deposit_amount as int,
                    liquidity_amount as int,
                    now,
                );
                &&& (i >= 0 ==> final(self).positions@ == old(self).positions@.update(i, next))
                &&& (i < 0 ==> final(self).positions@ == old(self).positions@.push(next))
                &&& final(self).global.total_locked_liquidity
                    == old(self).global.total_locked_liquidity + liquidity_amount
                &&& final(self).global.total_deposited == old(self).global.total_deposited
                    + deposit_amount
                &&& final(self).global.total_reward_emitted
                    == old(self).global.total_reward_emitted + spec_emission_delta(
                    prev.locked_liquidity + liquidity_amount,
                    prev.locked_liquidity as int,
                )
                &&& receipt.locked_total == next.locked_liquidity
                &&& receipt.reward_minted == spec_emission_delta(
                    prev.locked_liquidity + liquidity_amount,
                    prev.locked_liquidity as int,
                )
                &&& receipt.tier_upgraded == (next.tier > prev.tier)
                &&& next.tier >= prev.tier
            }),
    {
        if deposit_amount == 0 || liquidity_amount == 0 {
            return Err(LedgerError::InvalidAmount);
        }
        let index = self.find_index(principal);
        let prev: UserPosition = match index {
            Some(i) => self.positions[i],
            None => UserPosition {
                owner: principal,
                initialized: true,
                locked_liquidity: 0,
                reward_emitted: 0,
                deposited: 0,
                tier: 0,
                last_update: 0,
            },
        };
        proof {
            if index is Some {
                assert(prev == old(self).spec_prev_position(principal));
            } else {
                assert(prev == spec_fresh_position(principal));
            }
        }
        // stage every new counter first; nothing is mutated until all of
        // them are known to fit
        let new_locked = match prev.locked_liquidity.checked_add(liquidity_amount) {
            Some(v) => v,
            None => {
                return Err(LedgerError::MathOverflow);
            },
        };
        let new_deposited = match prev.deposited.checked_add(deposit_amount) {
            Some(v) => v,
            None => {
                return Err(LedgerError::MathOverflow);
            },
        };
        let new_total_locked = match self.global.total_locked_liquidity.checked_add(
            liquidity_amount,
        ) {
            Some(v) => v,
            None => {
                return Err(LedgerError::MathOverflow);
            },
        };
        let new_total_deposited = match self.global.total_deposited.checked_add(deposit_amount) {
            Some(v) => v,
            None => {
                return Err(LedgerError::MathOverflow);
            },
        };
        let delta = match compute_delta(new_locked, prev.locked_liquidity) {
            Ok(d) => d,
            Err(_) => {
                return Err(LedgerError::MathOverflow);
            },
        };
        let new_reward = match prev.reward_emitted.checked_add(delta) {
            Some(v) => v,
            None => {
                return Err(LedgerError::MathOverflow);
            },
        };
        let new_total_reward = match self.global.total_reward_emitted.checked_add(delta) {
            Some(v) => v,
            None => {
                return Err(LedgerError::MathOverflow);
            },
        };
        let new_tier_classified = classify(new_locked);
        let tier_upgraded = new_tier_classified > prev.tier;
        let new_tier = if tier_upgraded {
            new_tier_classified
        } else {
            prev.tier
        };
        proof {
            lemma_classify_monotone(prev.locked_liquidity as int, new_locked as int);
        }
        let next = UserPosition {
            owner: prev.owner,
            initialized: true,
            locked_liquidity: new_locked,
            reward_emitted: new_reward,
            deposited: new_deposited,
            tier: new_tier,
            last_update: now,
        };
        // commit atomically
        match index {
            Some(i) => {
                proof {
                    lemma_sums_update(self.positions@, i as int, next);
                }
                self.positions[i] = next;
            },
            None => {
                proof {
                    lemma_sums_push(self.positions@, next);
                }
                self.positions.push(next);
            },
        }
        self.global.total_locked_liquidity = new_total_locked;
        self.global.total_deposited = new_total_deposited;
        self.global.total_reward_emitted = new_total_reward;
        proof {
            let s_old = old(self).positions@;
            let s_new = self.positions@;
            assert forall|a: int, b: int| #![trigger s_new[a], s_new[b]]
                0 <= a < b < s_new.len() implies s_new[a].owner != s_new[b].owner by {
                if b < s_old.len() {
                    assert(s_old[a].owner != s_old[b].owner);
                } else {
                    assert(s_new[b].owner == principal);
                    assert(s_old[a].owner != principal);
                }
            }
            assert forall|k: int| 0 <= k < s_new.len() implies position_consistent(
                #[trigger] s_new[k],
            ) by {
                if k < s_old.len() && s_new[k] != next {
                    assert(position_consistent(s_old[k]));
                }
            }
        }
        Ok(
            LockReceipt {
                locked_total: new_locked,
                reward_minted: delta,
                tier_upgraded,
            },
        )
    }

    /// A read-only snapshot of the global counters and `principal`'s
    /// position, if one exists.
    pub fn get_statistics(&self, principal: AccountId) -> (r: Statistics)
        ensures
            r.global == self.global,
            r.position == self.spec_position(principal),
    {
        let position = match self.find_index(principal) {
            Some(i) => Some(self.positions[i]),
            None => None,
        };
        Statistics { global: self.global, position }
    }

    /// Prepares a tier-credential request for `principal`.
    ///
    /// Fails with `NoEligibleTier` when the principal has no position or a
    /// tier of 0; otherwise the request carries the stored tier for the
    /// external issuance collaborator.
    pub fn issue_tier_credential(&self, principal: AccountId) -> (r: Result<
        CredentialRequest,
        LedgerError,
    >)
        ensures
            r is Ok <==> (self.spec_position(principal) matches Some(p) && p.tier > 0),
            r matches Ok(c) ==> c == (CredentialRequest {
                principal,
                tier: self.spec_prev_position(principal).tier,
            }),
            r is Err ==> r == Err::<CredentialRequest, LedgerError>(LedgerError::NoEligibleTier),
    {
        match self.find_index(principal) {
            Some(i) => {
                let p = self.positions[i];
                if p.tier == 0 {
                    Err(LedgerError::NoEligibleTier)
                } else {
                    Ok(CredentialRequest { principal, tier: p.tier })
                }
            },
            None => Err(LedgerError::NoEligibleTier),
        }
    }
}

} // verus!
