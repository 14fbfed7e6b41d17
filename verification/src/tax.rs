use vstd::prelude::*;

use vstd::arithmetic::div_mod::{
    lemma_div_is_ordered, lemma_div_multiples_vanish,
};
use vstd::arithmetic::mul::{lemma_mul_inequality, lemma_mul_is_commutative};

use crate::account::AccountId;
use crate::errors::LedgerError;

verus! {

/// Basis-point denominator: 10000 bps is 100%.
pub const BPS_DENOMINATOR: u64 = 10_000;

/// Tax configuration, a singleton mutable only by its stored authority.
#[derive(Clone, Copy, Debug, PartialEq, Eq, Structural)]
pub struct TaxConfig {
    /// Principal allowed to update this configuration.
    pub authority: AccountId,
    /// Basis points of every transfer taken as tax.
    pub rate_bps: u16,
    /// Fraction of the tax routed to the treasury destination, in bps.
    pub dao_share_bps: u16,
    /// Fraction of the tax routed to the reward-pool destination, in bps.
    pub nft_share_bps: u16,
    /// Token account receiving the treasury share.
    pub treasury_destination: AccountId,
    /// Token account receiving the reward-pool share.
    pub pool_destination: AccountId,
}

impl TaxConfig {
    /// Every rate field stays within one whole, 10000 bps.
    pub open spec fn wf(self) -> bool {
        &&& self.rate_bps <= BPS_DENOMINATOR
        &&& self.dao_share_bps <= BPS_DENOMINATOR
        &&& self.nft_share_bps <= BPS_DENOMINATOR
    }
}

/// The tax withheld from a transfer: `floor(amount * rate_bps / 10000)`.
pub open spec fn spec_tax_amount(amount: int, rate_bps: int) -> int {
    (amount * rate_bps) / (BPS_DENOMINATOR as int)
}

/// The treasury part of a tax: `floor(tax * dao_share_bps / 10000)`; the
/// reward-pool part absorbs the remainder, so no value disappears.
pub open spec fn spec_dao_share(tax: int, dao_share_bps: int) -> int {
    (tax * dao_share_bps) / (BPS_DENOMINATOR as int)
}

/// A transfer amount divided into the recipient's net amount and the two
/// fee shares.
#[derive(Clone, Copy, Debug, PartialEq, Eq, Structural)]
pub struct TaxSplit {
    pub net: u64,
    pub dao_share: u64,
    pub pool_share: u64,
}

/// Splits a transfer amount under a tax rate and a treasury share, both in
/// basis points.
///
/// The split is lossless: on success the net amount and the two shares sum
/// back to the amount exactly. A zero amount fails with `InvalidAmount`; an
/// amount whose tax multiply exceeds the 64-bit range fails with
/// `MathOverflow`; an amount fully consumed by the tax fails with
/// `InvalidTaxCalculation` rather than silently paying the recipient
/// nothing.
pub fn split_tax(amount: u64, rate_bps: u16, dao_share_bps: u16) -> (r: Result<
    TaxSplit,
    LedgerError,
>)
    requires
        rate_bps <= BPS_DENOMINATOR,
        dao_share_bps <= BPS_DENOMINATOR,
    ensures
        r is Ok <==> amount > 0 && amount * rate_bps <= u64::MAX
            && spec_tax_amount(amount as int, rate_bps as int) < amount,
        r matches Ok(s) ==> ({
            let tax = spec_tax_amount(amount as int, rate_bps as int);
            &&& s.net == amount - tax
            &&& s.dao_share == spec_dao_share(tax, dao_share_bps as int)
            &&& s.pool_share == tax - spec_dao_share(tax, dao_share_bps as int)
            &&& s.net + s.dao_share + s.pool_share == amount
            &&& s.net > 0
        }),
        r == Err::<TaxSplit, LedgerError>(LedgerError::InvalidAmount) <==> amount == 0,
        r == Err::<TaxSplit, LedgerError>(LedgerError::MathOverflow) <==> amount > 0
            && amount * rate_bps > u64::MAX,
        r == Err::<TaxSplit, LedgerError>(LedgerError::InvalidTaxCalculation) <==> amount > 0
            && amount * rate_bps <= u64::MAX
            && spec_tax_amount(amount as int, rate_bps as int) >= amount,
{
    if amount == 0 {
        return Err(LedgerError::InvalidAmount);
    }
    let scaled = match amount.checked_mul(rate_bps as u64) {
        Some(scaled) => scaled,
        None => {
            return Err(LedgerError::MathOverflow);
        },
    };
    let tax = scaled / BPS_DENOMINATOR;
    proof {
        lemma_tax_at_most_amount(amount as int, rate_bps as int);
    }
    let net = amount - tax;
    if net == 0 && tax > 0 {
        return Err(LedgerError::InvalidTaxCalculation);
    }
    if net == 0 && tax == 0 {
        // unreachable when the amount is positive: the two always sum to it
        return Err(LedgerError::InvalidTaxCalculation);
    }
    proof {
        lemma_dao_share_at_most_tax(tax as int, dao_share_bps as int);
        lemma_dao_mul_fits(amount as int, rate_bps as int, dao_share_bps as int);
    }
    let dao_share = (tax * (dao_share_bps as u64)) / BPS_DENOMINATOR;
    let pool_share = tax - dao_share;
    Ok(TaxSplit { net, dao_share, pool_share })
}

/// With a rate of at most 10000 bps the tax never exceeds the amount.
proof fn lemma_tax_at_most_amount(amount: int, rate_bps: int)
    requires
        amount >= 0,
        0 <= rate_bps <= BPS_DENOMINATOR,
    ensures
        0 <= spec_tax_amount(amount, rate_bps) <= amount,
{
    lemma_mul_is_commutative(amount, rate_bps);
    lemma_mul_inequality(rate_bps, BPS_DENOMINATOR as int, amount);
    lemma_mul_is_commutative(amount, BPS_DENOMINATOR as int);
    lemma_div_is_ordered(amount * rate_bps, (BPS_DENOMINATOR as int) * amount, BPS_DENOMINATOR as int);
    lemma_div_multiples_vanish(amount, BPS_DENOMINATOR as int);
    vstd::arithmetic::div_mod::lemma_div_pos_is_pos(amount * rate_bps, BPS_DENOMINATOR as int);
    vstd::arithmetic::mul::lemma_mul_nonnegative(amount, rate_bps);
}

/// With a treasury share of at most 10000 bps its part never exceeds the tax.
proof fn lemma_dao_share_at_most_tax(tax: int, dao_share_bps: int)
    requires
        tax >= 0,
        0 <= dao_share_bps <= BPS_DENOMINATOR,
    ensures
        0 <= spec_dao_share(tax, dao_share_bps) <= tax,
{
    lemma_mul_is_commutative(tax, dao_share_bps);
    lemma_mul_inequality(dao_share_bps, BPS_DENOMINATOR as int, tax);
    lemma_mul_is_commutative(tax, BPS_DENOMINATOR as int);
    lemma_div_is_ordered(tax * dao_share_bps, (BPS_DENOMINATOR as int) * tax, BPS_DENOMINATOR as int);
    lemma_div_multiples_vanish(tax, BPS_DENOMINATOR as int);
    vstd::arithmetic::div_mod::lemma_div_pos_is_pos(tax * dao_share_bps, BPS_DENOMINATOR as int);
    vstd::arithmetic::mul::lemma_mul_nonnegative(tax, dao_share_bps);
}

/// Once the tax multiply fits in 64 bits, the treasury-share multiply does
/// too: the tax lost a factor of 10000 in the divide and the share puts back
/// at most 10000.
proof fn lemma_dao_mul_fits(amount: int, rate_bps: int, dao_share_bps: int)
    requires
        amount >= 0,
        0 <= rate_bps <= BPS_DENOMINATOR,
        0 <= dao_share_bps <= BPS_DENOMINATOR,
        amount * rate_bps <= u64::MAX,
    ensures
        spec_tax_amount(amount, rate_bps) * dao_share_bps <= u64::MAX,
{
    let tax = spec_tax_amount(amount, rate_bps);
    lemma_tax_at_most_amount(amount, rate_bps);
    lemma_div_is_ordered(amount * rate_bps, u64::MAX as int, BPS_DENOMINATOR as int);
    assert(tax <= u64::MAX as int / BPS_DENOMINATOR as int);
    lemma_mul_inequality(dao_share_bps, BPS_DENOMINATOR as int, tax);
    lemma_mul_is_commutative(tax, dao_share_bps);
    lemma_mul_is_commutative(tax, BPS_DENOMINATOR as int);
}

/// One balance movement the external custody collaborator is asked to make.
#[derive(Clone, Copy, Debug, PartialEq, Eq, Structural)]
pub struct BalanceMovement {
    pub from: AccountId,
    pub to: AccountId,
    pub amount: u64,
}

/// The result of a taxed transfer: the three split amounts together with
/// the balance movements to issue, one for each non-zero amount, in order
/// net, treasury share, pool share.
#[derive(Clone, Debug)]
pub struct TransferPlan {
    pub net: u64,
    pub dao_share: u64,
    pub pool_share: u64,
    pub movements: Vec<BalanceMovement>,
}

/// The movements a committed transfer issues: the net amount to the
/// recipient, the treasury share to the treasury destination, the pool
/// share to the pool destination, each only if its amount is non-zero.
pub open spec fn spec_transfer_movements(
    sender: AccountId,
    recipient: AccountId,
    config: TaxConfig,
    split: TaxSplit,
) -> Seq<BalanceMovement> {
    let net_part = if split.net > 0 {
        seq![BalanceMovement { from: sender, to: recipient, amount: split.net }]
    } else {
        Seq::<BalanceMovement>::empty()
    };
    let dao_part = if split.dao_share > 0 {
        seq![
            BalanceMovement {
                from: sender,
                to: config.treasury_destination,
                amount: split.dao_share,
            },
        ]
    } else {
        Seq::<BalanceMovement>::empty()
    };
    let pool_part = if split.pool_share > 0 {
        seq![
            BalanceMovement { from: sender, to: config.pool_destination, amount: split.pool_share },
        ]
    } else {
        Seq::<BalanceMovement>::empty()
    };
    net_part + dao_part + pool_part
}

/// The transfer gate: holds the tax configuration and turns a requested
/// transfer into a lossless split and a plan of balance movements for the
/// external custody collaborator. Any movement failing outside must abort
/// the entire transfer; a transfer itself mutates nothing here.
#[derive(Clone, Debug)]
pub struct TransferGate {
    /// The stored configuration; `None` until the first upsert.
    pub config: Option<TaxConfig>,
}

impl TransferGate {
    /// The stored configuration, if any, keeps its rates within one whole.
    pub open spec fn wf(self) -> bool {
        self.config matches Some(c) ==> c.wf()
    }

    /// A gate with no configuration yet: transfers are refused until an
    /// authority installs one.
    pub fn new() -> (gate: TransferGate)
        ensures
            gate.config is None,
            gate.wf(),
    {
        TransferGate { config: None }
    }

    /// Installs or updates the tax configuration.
    ///
    /// Fails with `Unauthorized` unless the caller equals the stored
    /// authority or the configuration is uninitialized; fails with
    /// `InvalidAmount` if any rate exceeds 10000 bps. On success the caller
    /// becomes the stored authority.
    pub fn upsert_tax_config(
        &mut self,
        caller: AccountId,
        rate_bps: u16,
        dao_share_bps: u16,
        nft_share_bps: u16,
        treasury_destination: AccountId,
        pool_destination: AccountId,
    ) -> (r: Result<(), LedgerError>)
        requires
            old(self).wf(),
        ensures
            final(self).wf(),
            r is Err ==> final(self).config == old(self).config,
            r == Err::<(), LedgerError>(LedgerError::Unauthorized) <==> (old(self).config
                matches Some(c) && c.authority != caller),
            r == Err::<(), LedgerError>(LedgerError::InvalidAmount) <==> ((old(self).config
                matches Some(c) ==> c.authority == caller) && (rate_bps > BPS_DENOMINATOR
                || dao_share_bps > BPS_DENOMINATOR || nft_share_bps > BPS_DENOMINATOR)),
            r is Ok <==> ((old(self).config matches Some(c) ==> c.authority == caller)
                && rate_bps <= BPS_DENOMINATOR && dao_share_bps <= BPS_DENOMINATOR
                && nft_share_bps <= BPS_DENOMINATOR),
            r is Ok ==> final(self).config == Some(
                TaxConfig {
                    authority: caller,
                    rate_bps,
                    dao_share_bps,
                    nft_share_bps,
                    treasury_destination,
                    pool_destination,
                },
            ),
    {
        match &self.config {
            Some(stored) => {
                if stored.authority != caller {
                    return Err(LedgerError::Unauthorized);
                }
            },
            None => {},
        }
        if rate_bps > (BPS_DENOMINATOR as u16) || dao_share_bps > (BPS_DENOMINATOR as u16)
            || nft_share_bps > (BPS_DENOMINATOR as u16) {
            return Err(LedgerError::InvalidAmount);
        }
        self.config = Some(
            TaxConfig {
                authority: caller,
                rate_bps,
                dao_share_bps,
                nft_share_bps,
                treasury_destination,
                pool_destination,
            },
        );
        Ok(())
    }

    /// Computes the taxed transfer of `amount` from `sender` to `recipient`
    /// under the stored configuration.
    ///
    /// On success the plan holds the lossless split and one balance movement
    /// per non-zero part; the caller must issue all of them or none. With no
    /// configuration installed the transfer fails with `InvalidState`; the
    /// amount errors mirror the splitter's.
    pub fn taxed_transfer(&self, sender: AccountId, recipient: AccountId, amount: u64) -> (r:
        Result<TransferPlan, LedgerError>)
        requires
            self.wf(),
        ensures
            self.config is None ==> r == Err::<TransferPlan, LedgerError>(
                LedgerError::InvalidState,
            ),
            self.config matches Some(c) ==> {
                &&& r is Ok <==> amount > 0 && amount * c.rate_bps <= u64::MAX
                    && spec_tax_amount(amount as int, c.rate_bps as int) < amount
                &&& r is Err ==> (r matches Err(e) && (e == LedgerError::InvalidAmount
                    <==> amount == 0) && (e == LedgerError::MathOverflow <==> amount > 0
                    && amount * c.rate_bps > u64::MAX) && (e == LedgerError::InvalidTaxCalculation
                    <==> amount > 0 && amount * c.rate_bps <= u64::MAX
                    && spec_tax_amount(amount as int, c.rate_bps as int) >= amount))
                &&& r matches Ok(plan) ==> ({
                    let tax = spec_tax_amount(amount as int, c.rate_bps as int);
                    let dao = spec_dao_share(tax, c.dao_share_bps as int);
                    &&& plan.net == amount - tax
                    &&& plan.dao_share == dao
                    &&& plan.pool_share == tax - dao
                    &&& plan.net + plan.dao_share + plan.pool_share == amount
                    &&& plan.net > 0
                    &&& plan.movements@ == spec_transfer_movements(
                        sender,
                        recipient,
                        c,
                        (TaxSplit {
                            net: plan.net,
                            dao_share: plan.dao_share,
                            pool_share: plan.pool_share,
                        }),
                    )
                })
            },
    {
        let config = match &self.config {
            Some(config) => config,
            None => {
                return Err(LedgerError::InvalidState);
            },
        };
        let split = match split_tax(amount, config.rate_bps, config.dao_share_bps) {
            Ok(split) => split,
            Err(e) => {
                return Err(e);
            },
        };
        let mut movements: Vec<BalanceMovement> = Vec::new();
        if split.net > 0 {
            movements.push(BalanceMovement { from: sender, to: recipient, amount: split.net });
        }
        if split.dao_share > 0 {
            movements.push(
                BalanceMovement {
                    from: sender,
                    to: config.treasury_destination,
                    amount: split.dao_share,
                },
            );
        }
        if split.pool_share > 0 {
            movements.push(
                BalanceMovement {
                    from: sender,
                    to: config.pool_destination,
                    amount: split.pool_share,
                },
            );
        }
        proof {
            assert(movements@ =~= spec_transfer_movements(
                sender,
                recipient,
                *config,
                split,
            ));
        }
        Ok(
            TransferPlan {
                net: split.net,
                dao_share: split.dao_share,
                pool_share: split.pool_share,
                movements,
            },
        )
    }

    /// Reward-pool claiming is deliberately unfinished in this scope: the
    /// operation always reports so, and mutates nothing.
    pub fn claim_nft_holder_reward(&self) -> (r: Result<u64, LedgerError>)
        ensures
            r == Err::<u64, LedgerError>(LedgerError::NotImplemented),
    {
        Err(LedgerError::NotImplemented)
    }
}

} // verus!
