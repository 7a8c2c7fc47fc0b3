use vstd::prelude::*;

verus! {

/// Basis points in one whole: a fee of `BPS_DENOMINATOR` basis points is 100%.
pub const BPS_DENOMINATOR: u32 = 10_000;

/// The treasury's share of a tip of `amount` at `fee_bps` basis points
/// (rounded toward zero).
pub open spec fn tip_fee(amount: int, fee_bps: int) -> int {
    amount * fee_bps / (BPS_DENOMINATOR as int)
}

/// Splits a tip of `amount` into `(fee, net)`: the fee goes to the treasury,
/// the rest to the author. `None` when `amount * fee_bps` does not fit in an `i128`.
pub fn split_tip(amount: i128, fee_bps: u32) -> (r: Option<(i128, i128)>)
    requires
        amount > 0,
        fee_bps <= BPS_DENOMINATOR,
    ensures
        r is None <==> amount * fee_bps > i128::MAX,
        r matches Some((fee, net)) ==> {
            &&& fee == tip_fee(amount as int, fee_bps as int)
            &&& net == amount - fee
            &&& 0 <= fee <= amount
            &&& 0 <= net <= amount
        },
{
    match amount.checked_mul(fee_bps as i128) {
        None => None,
        Some(scaled) => {
            let fee = scaled / (BPS_DENOMINATOR as i128);
            assert(0 <= amount * fee_bps <= amount * 10_000) by (nonlinear_arith)
                requires amount > 0, 0 <= fee_bps <= 10_000;
            assert(fee <= amount) by (nonlinear_arith)
                requires fee == scaled / 10_000, scaled <= amount * 10_000, scaled >= 0;
            Some((fee, amount - fee))
        }
    }
}

} // verus!
