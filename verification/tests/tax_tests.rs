use burn_and_earn::account::AccountId;
use burn_and_earn::errors::LedgerError;
use burn_and_earn::tax::{split_tax, BalanceMovement, TaxSplit, TransferGate};

fn id(n: u128) -> AccountId {
    AccountId { hi: n, lo: n.wrapping_mul(31) }
}

#[test]
fn split_ten_percent_scenario() {
    // 10% rate: tax 100 of 1000; treasury takes half of the tax
    assert_eq!(
        split_tax(1000, 1000, 5000),
        Ok(TaxSplit { net: 900, dao_share: 50, pool_share: 50 })
    );
}

#[test]
fn split_small_amount_rounds_tax_to_zero() {
    // accepted since the net stays positive even though the tax is zero
    assert_eq!(split_tax(9, 1000, 5000), Ok(TaxSplit { net: 9, dao_share: 0, pool_share: 0 }));
}

#[test]
fn split_fully_taxed_amount_is_rejected() {
    assert_eq!(split_tax(1, 10000, 5000), Err(LedgerError::InvalidTaxCalculation));
}

#[test]
fn split_zero_amount_is_rejected() {
    assert_eq!(split_tax(0, 1000, 5000), Err(LedgerError::InvalidAmount));
}

#[test]
fn split_overflowing_multiply_is_rejected() {
    assert_eq!(split_tax(u64::MAX, 2, 5000), Err(LedgerError::MathOverflow));
}

#[test]
fn split_zero_rate_keeps_everything_net() {
    assert_eq!(split_tax(1000, 0, 5000), Ok(TaxSplit { net: 1000, dao_share: 0, pool_share: 0 }));
}

#[test]
fn split_remainder_is_absorbed_by_pool() {
    // tax 100, treasury share 33.33% rounds down to 33, pool takes the rest
    assert_eq!(
        split_tax(1000, 1000, 3333),
        Ok(TaxSplit { net: 900, dao_share: 33, pool_share: 67 })
    );
}

#[test]
fn split_is_lossless_on_samples() {
    let cases: [(u64, u16, u16); 6] = [
        (1, 0, 0),
        (1000, 1000, 5000),
        (1000, 1000, 3333),
        (999_999_999_999, 777, 10000),
        (u64::MAX / 10000, 9999, 1),
        (123_456_789, 5000, 9999),
    ];
    for (amount, rate_bps, dao_share_bps) in cases {
        let split = split_tax(amount, rate_bps, dao_share_bps).unwrap();
        assert_eq!(split.net + split.dao_share + split.pool_share, amount);
    }
}

#[test]
fn upsert_installs_configuration() {
    let mut gate = TransferGate::new();
    assert!(gate.config.is_none());
    let r = gate.upsert_tax_config(id(1), 1000, 5000, 5000, id(2), id(3));
    assert_eq!(r, Ok(()));
    let config = gate.config.unwrap();
    assert_eq!(config.authority, id(1));
    assert_eq!(config.rate_bps, 1000);
    assert_eq!(config.dao_share_bps, 5000);
    assert_eq!(config.nft_share_bps, 5000);
    assert_eq!(config.treasury_destination, id(2));
    assert_eq!(config.pool_destination, id(3));
}

#[test]
fn upsert_by_stranger_is_unauthorized() {
    let mut gate = TransferGate::new();
    gate.upsert_tax_config(id(1), 1000, 5000, 5000, id(2), id(3)).unwrap();
    let r = gate.upsert_tax_config(id(9), 500, 5000, 5000, id(2), id(3));
    assert_eq!(r, Err(LedgerError::Unauthorized));
    assert_eq!(gate.config.unwrap().rate_bps, 1000);
}

#[test]
fn upsert_by_authority_updates() {
    let mut gate = TransferGate::new();
    gate.upsert_tax_config(id(1), 1000, 5000, 5000, id(2), id(3)).unwrap();
    let r = gate.upsert_tax_config(id(1), 500, 4000, 6000, id(2), id(3));
    assert_eq!(r, Ok(()));
    assert_eq!(gate.config.unwrap().rate_bps, 500);
}

#[test]
fn upsert_rejects_rate_above_one_whole() {
    let mut gate = TransferGate::new();
    let r = gate.upsert_tax_config(id(1), 10001, 5000, 5000, id(2), id(3));
    assert_eq!(r, Err(LedgerError::InvalidAmount));
    assert!(gate.config.is_none());
}

#[test]
fn transfer_without_configuration_is_rejected() {
    let gate = TransferGate::new();
    let r = gate.taxed_transfer(id(10), id(11), 1000);
    assert!(matches!(r, Err(LedgerError::InvalidState)));
}

#[test]
fn transfer_plan_has_one_movement_per_nonzero_part() {
    let mut gate = TransferGate::new();
    gate.upsert_tax_config(id(1), 1000, 5000, 5000, id(2), id(3)).unwrap();
    let plan = gate.taxed_transfer(id(10), id(11), 1000).unwrap();
    assert_eq!(plan.net, 900);
    assert_eq!(plan.dao_share, 50);
    assert_eq!(plan.pool_share, 50);
    let expected = vec![
        BalanceMovement { from: id(10), to: id(11), amount: 900 },
        BalanceMovement { from: id(10), to: id(2), amount: 50 },
        BalanceMovement { from: id(10), to: id(3), amount: 50 },
    ];
    assert_eq!(plan.movements, expected);
}

#[test]
fn transfer_plan_skips_zero_movements() {
    let mut gate = TransferGate::new();
    gate.upsert_tax_config(id(1), 0, 5000, 5000, id(2), id(3)).unwrap();
    let plan = gate.taxed_transfer(id(10), id(11), 1000).unwrap();
    assert_eq!(plan.net, 1000);
    assert_eq!(plan.dao_share, 0);
    assert_eq!(plan.pool_share, 0);
    let expected = vec![BalanceMovement { from: id(10), to: id(11), amount: 1000 }];
    assert_eq!(plan.movements, expected);
}

#[test]
fn transfer_errors_mirror_the_splitter() {
    let mut gate = TransferGate::new();
    gate.upsert_tax_config(id(1), 10000, 5000, 5000, id(2), id(3)).unwrap();
    assert!(matches!(gate.taxed_transfer(id(10), id(11), 0), Err(LedgerError::InvalidAmount)));
    assert!(matches!(
        gate.taxed_transfer(id(10), id(11), 1),
        Err(LedgerError::InvalidTaxCalculation)
    ));
    assert!(matches!(
        gate.taxed_transfer(id(10), id(11), u64::MAX),
        Err(LedgerError::MathOverflow)
    ));
}

#[test]
fn claim_is_not_implemented() {
    let gate = TransferGate::new();
    assert_eq!(gate.claim_nft_holder_reward(), Err(LedgerError::NotImplemented));
}
