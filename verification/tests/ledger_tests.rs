use burn_and_earn::account::AccountId;
use burn_and_earn::emission::DECIMAL_FACTOR;
use burn_and_earn::errors::LedgerError;
use burn_and_earn::ledger::{CredentialRequest, Ledger};

fn id(n: u128) -> AccountId {
    AccountId { hi: n, lo: n.wrapping_add(1000) }
}

fn fresh_ledger() -> Ledger {
    Ledger::initialize_ledger(id(1), id(2), id(3))
}

#[test]
fn genesis_ledger_is_empty() {
    let ledger = fresh_ledger();
    assert_eq!(ledger.global.authority, id(1));
    assert_eq!(ledger.global.reward_mint, id(2));
    assert_eq!(ledger.global.deposit_mint, id(3));
    assert_eq!(ledger.global.total_locked_liquidity, 0);
    assert_eq!(ledger.global.total_reward_emitted, 0);
    assert_eq!(ledger.global.total_deposited, 0);
    assert!(ledger.get_statistics(id(9)).position.is_none());
}

#[test]
fn first_deposit_creates_a_position() {
    let mut ledger = fresh_ledger();
    let receipt = ledger.lock_and_earn(id(9), 10, 5, 77).unwrap();
    assert_eq!(receipt.locked_total, 5);
    assert_eq!(receipt.reward_minted, 50);
    assert!(!receipt.tier_upgraded);
    let stats = ledger.get_statistics(id(9));
    let position = stats.position.unwrap();
    assert_eq!(position.owner, id(9));
    assert!(position.initialized);
    assert_eq!(position.locked_liquidity, 5);
    assert_eq!(position.reward_emitted, 50);
    assert_eq!(position.deposited, 10);
    assert_eq!(position.tier, 0);
    assert_eq!(position.last_update, 77);
    assert_eq!(stats.global.total_locked_liquidity, 5);
    assert_eq!(stats.global.total_reward_emitted, 50);
    assert_eq!(stats.global.total_deposited, 10);
}

#[test]
fn zero_deposit_is_rejected() {
    let mut ledger = fresh_ledger();
    assert_eq!(ledger.lock_and_earn(id(9), 0, 5, 77), Err(LedgerError::InvalidAmount));
    assert!(ledger.get_statistics(id(9)).position.is_none());
}

#[test]
fn zero_liquidity_delta_is_rejected() {
    // a deposit whose quote moves the locked amount from 1000 to 1000 units
    let mut ledger = fresh_ledger();
    ledger.lock_and_earn(id(9), 2_000 * DECIMAL_FACTOR, 1_000 * DECIMAL_FACTOR, 1).unwrap();
    let r = ledger.lock_and_earn(id(9), 1, 0, 2);
    assert_eq!(r, Err(LedgerError::InvalidAmount));
    let position = ledger.get_statistics(id(9)).position.unwrap();
    assert_eq!(position.locked_liquidity, 1_000 * DECIMAL_FACTOR);
    assert_eq!(position.last_update, 1);
}

#[test]
fn reaching_exactly_one_thousand_units_crosses_bronze() {
    let mut ledger = fresh_ledger();
    let receipt = ledger
        .lock_and_earn(id(9), 2_000 * DECIMAL_FACTOR, 1_000 * DECIMAL_FACTOR, 5)
        .unwrap();
    assert!(receipt.tier_upgraded);
    assert_eq!(ledger.get_statistics(id(9)).position.unwrap().tier, 1);
}

#[test]
fn deposit_from_999_to_1000_units_upgrades_to_bronze() {
    let mut ledger = fresh_ledger();
    let first = ledger
        .lock_and_earn(id(9), 1_998 * DECIMAL_FACTOR, 999 * DECIMAL_FACTOR, 5)
        .unwrap();
    assert!(!first.tier_upgraded);
    assert_eq!(ledger.get_statistics(id(9)).position.unwrap().tier, 0);
    let second = ledger.lock_and_earn(id(9), 2 * DECIMAL_FACTOR, DECIMAL_FACTOR, 6).unwrap();
    assert!(second.tier_upgraded);
    assert_eq!(second.locked_total, 1_000 * DECIMAL_FACTOR);
    assert_eq!(second.reward_minted, 16_808_214_323);
    assert_eq!(ledger.get_statistics(id(9)).position.unwrap().tier, 1);
}

#[test]
fn tier_never_decreases_across_calls() {
    let mut ledger = fresh_ledger();
    let mut last_tier: u8 = 0;
    let steps: [u64; 5] = [
        500 * DECIMAL_FACTOR,
        500 * DECIMAL_FACTOR,
        1,
        9_000 * DECIMAL_FACTOR,
        1,
    ];
    for (step, liquidity) in steps.into_iter().enumerate() {
        ledger.lock_and_earn(id(9), 2 * liquidity, liquidity, step as i64).unwrap();
        let tier = ledger.get_statistics(id(9)).position.unwrap().tier;
        assert!(tier >= last_tier);
        last_tier = tier;
    }
    assert_eq!(last_tier, 2);
}

#[test]
fn conservation_holds_across_principals() {
    let mut ledger = fresh_ledger();
    ledger.lock_and_earn(id(7), 10, 5, 1).unwrap();
    ledger.lock_and_earn(id(8), 30, 15, 2).unwrap();
    ledger.lock_and_earn(id(7), 1_000, 500, 3).unwrap();
    ledger.lock_and_earn(id(9), 2 * DECIMAL_FACTOR, DECIMAL_FACTOR, 4).unwrap();
    let p7 = ledger.get_statistics(id(7)).position.unwrap();
    let p8 = ledger.get_statistics(id(8)).position.unwrap();
    let p9 = ledger.get_statistics(id(9)).position.unwrap();
    let global = ledger.get_statistics(id(7)).global;
    assert_eq!(
        global.total_locked_liquidity,
        p7.locked_liquidity + p8.locked_liquidity + p9.locked_liquidity
    );
    assert_eq!(
        global.total_reward_emitted,
        p7.reward_emitted + p8.reward_emitted + p9.reward_emitted
    );
    assert_eq!(global.total_deposited, p7.deposited + p8.deposited + p9.deposited);
}

#[test]
fn overflowing_operation_changes_nothing() {
    let mut ledger = fresh_ledger();
    ledger.lock_and_earn(id(7), 50, 20, 1).unwrap();
    ledger.lock_and_earn(id(8), u64::MAX - 50, 1, 2).unwrap();
    let global_before = ledger.get_statistics(id(7)).global;
    let p7_before = ledger.get_statistics(id(7)).position.unwrap();
    let p8_before = ledger.get_statistics(id(8)).position.unwrap();
    // the deposited counter of principal 8 would leave the 64-bit range
    let r = ledger.lock_and_earn(id(8), 51, 1, 3);
    assert_eq!(r, Err(LedgerError::MathOverflow));
    assert_eq!(ledger.get_statistics(id(7)).global, global_before);
    assert_eq!(ledger.get_statistics(id(7)).position.unwrap(), p7_before);
    assert_eq!(ledger.get_statistics(id(8)).position.unwrap(), p8_before);
}

#[test]
fn emission_delta_overflow_changes_nothing() {
    let mut ledger = fresh_ledger();
    ledger.lock_and_earn(id(7), 50, 20, 1).unwrap();
    let global_before = ledger.get_statistics(id(7)).global;
    let p7_before = ledger.get_statistics(id(7)).position.unwrap();
    // the cumulative emission of the full 64-bit range exceeds 64 bits
    let r = ledger.lock_and_earn(id(7), 1, u64::MAX - 20, 2);
    assert_eq!(r, Err(LedgerError::MathOverflow));
    assert_eq!(ledger.get_statistics(id(7)).global, global_before);
    assert_eq!(ledger.get_statistics(id(7)).position.unwrap(), p7_before);
}

#[test]
fn credential_requires_a_tier() {
    let mut ledger = fresh_ledger();
    assert_eq!(ledger.issue_tier_credential(id(9)), Err(LedgerError::NoEligibleTier));
    ledger.lock_and_earn(id(9), 10, 5, 1).unwrap();
    assert_eq!(ledger.issue_tier_credential(id(9)), Err(LedgerError::NoEligibleTier));
    ledger.lock_and_earn(id(9), 2_000 * DECIMAL_FACTOR, 1_000 * DECIMAL_FACTOR, 2).unwrap();
    assert_eq!(
        ledger.issue_tier_credential(id(9)),
        Ok(CredentialRequest { principal: id(9), tier: 1 })
    );
}

#[test]
fn statistics_are_per_principal() {
    let mut ledger = fresh_ledger();
    ledger.lock_and_earn(id(7), 10, 5, 1).unwrap();
    assert!(ledger.get_statistics(id(8)).position.is_none());
    let p7 = ledger.get_statistics(id(7)).position.unwrap();
    assert_eq!(p7.owner, id(7));
}
