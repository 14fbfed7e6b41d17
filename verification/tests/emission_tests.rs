use burn_and_earn::emission::{compute_delta, cumulative_emission, DECIMAL_FACTOR};
use burn_and_earn::errors::LedgerError;

#[test]
fn cumulative_emission_of_zero_is_zero() {
    assert_eq!(cumulative_emission(0), 0);
}

#[test]
fn cumulative_emission_below_one_unit_is_linear() {
    assert_eq!(cumulative_emission(1), 10);
    assert_eq!(cumulative_emission(5), 50);
    assert_eq!(cumulative_emission(500_000_000), 5_000_000_000);
    assert_eq!(cumulative_emission(DECIMAL_FACTOR - 1), 9_999_999_990);
}

#[test]
fn cumulative_emission_is_continuous_at_one_unit() {
    // at exactly one whole unit the bonus term is zero
    assert_eq!(cumulative_emission(DECIMAL_FACTOR), 10_000_000_000);
    assert_eq!(cumulative_emission(DECIMAL_FACTOR + 1), 10_000_000_010);
}

#[test]
fn cumulative_emission_sample_values() {
    assert_eq!(cumulative_emission(2 * DECIMAL_FACTOR), 21_204_119_982);
    assert_eq!(cumulative_emission(10 * DECIMAL_FACTOR), 119_958_232_115);
    assert_eq!(cumulative_emission(100 * DECIMAL_FACTOR), 1_400_237_450_748);
    assert_eq!(cumulative_emission(1_000 * DECIMAL_FACTOR), 16_001_701_874_658);
    assert_eq!(
        cumulative_emission(123_456_789_123_456_789),
        3_232_984_662_796_663_224
    );
}

#[test]
fn cumulative_emission_is_deterministic() {
    for amount in [7u64, DECIMAL_FACTOR, 17 * DECIMAL_FACTOR, u64::MAX] {
        assert_eq!(cumulative_emission(amount), cumulative_emission(amount));
    }
}

#[test]
fn cumulative_emission_never_decreases_on_samples() {
    let samples: [u64; 12] = [
        0,
        1,
        999_999_999,
        DECIMAL_FACTOR,
        DECIMAL_FACTOR + 1,
        2 * DECIMAL_FACTOR - 1,
        2 * DECIMAL_FACTOR,
        3 * DECIMAL_FACTOR,
        999 * DECIMAL_FACTOR,
        1_000 * DECIMAL_FACTOR,
        123_456_789_123_456_789,
        u64::MAX,
    ];
    let mut previous: u128 = 0;
    for amount in samples {
        let current = cumulative_emission(amount);
        assert!(current >= previous);
        previous = current;
    }
}

#[test]
fn compute_delta_exact_values() {
    assert_eq!(compute_delta(5, 0), Ok(50));
    assert_eq!(compute_delta(1_000 * DECIMAL_FACTOR, 999 * DECIMAL_FACTOR), Ok(16_808_214_323));
    assert_eq!(compute_delta(1_000 * DECIMAL_FACTOR, 0), Ok(16_001_701_874_658));
}

#[test]
fn compute_delta_of_no_change_is_zero() {
    assert_eq!(compute_delta(42 * DECIMAL_FACTOR, 42 * DECIMAL_FACTOR), Ok(0));
}

#[test]
fn compute_delta_rejects_decreasing_amount() {
    assert_eq!(compute_delta(5, 9), Err(LedgerError::InvalidState));
    assert_eq!(
        compute_delta(999 * DECIMAL_FACTOR, 1_000 * DECIMAL_FACTOR),
        Err(LedgerError::InvalidState)
    );
}

#[test]
fn compute_delta_overflow_is_reported() {
    // the cumulative emission of the full 64-bit range exceeds 64 bits
    assert_eq!(compute_delta(u64::MAX, 0), Err(LedgerError::MathOverflow));
}
