use vstd::prelude::*;

use crate::errors::LedgerError;

verus! {

/// Numerator of the development-time exchange rate: one unit of deposited
/// value is quoted as half a unit of locked liquidity.
pub const QUOTE_RATE_NUMERATOR: u64 = 50;
/// Denominator of the development-time exchange rate.
pub const QUOTE_RATE_DENOMINATOR: u64 = 100;

/// Deterministic stand-in for the external liquidity exchange: quotes the
/// locked-liquidity units obtained for a deposit at a fixed rate of one
/// half, with an overflow-checked multiply before the divide.
///
/// The real exchange is an external collaborator whose rates are out of
/// scope here; the ledger takes whatever quote the caller obtained as a
/// plain value, so it is verified for every possible quote.
pub fn quote_liquidity(deposit_amount: u64) -> (r: Result<u64, LedgerError>)
    ensures
        r is Ok <==> deposit_amount * QUOTE_RATE_NUMERATOR <= u64::MAX,
        r matches Ok(q) ==> q == (deposit_amount * QUOTE_RATE_NUMERATOR)
            / (QUOTE_RATE_DENOMINATOR as int),
        r is Err ==> r == Err::<u64, LedgerError>(LedgerError::MathOverflow),
{
    match deposit_amount.checked_mul(QUOTE_RATE_NUMERATOR) {
        Some(scaled) => Ok(scaled / QUOTE_RATE_DENOMINATOR),
        None => Err(LedgerError::MathOverflow),
    }
}

} // verus!
