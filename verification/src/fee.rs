//! Splitting a gross payout into the owner's fee and the recipient's net amount.

use vstd::prelude::*;

verus! {

/// One basis point is a hundredth of a percent, so a rate of this many basis
/// points takes the whole amount.
pub const BASIS_POINTS_SCALE: u16 = 10_000;

/// The highest fee rate a pool may charge: five percent.
pub const MAX_FEE_BASIS_POINTS: u16 = 500;

/// The fee owed on `gross` at a rate of `basis_points`, rounded down.
pub open spec fn fee_of(gross: nat, basis_points: nat) -> nat {
    gross * basis_points / 10_000
}

/// What is left of `gross` once the fee is taken.
pub open spec fn net_of(gross: nat, basis_points: nat) -> int {
    gross - fee_of(gross, basis_points)
}

/// Dividing `gross * rate` by the scale can be done on the quotient and the
/// remainder of `gross` separately, which keeps every intermediate value
/// below `gross` itself.
proof fn lemma_fee_by_parts(gross: nat, rate: nat)
    ensures
        fee_of(gross, rate) == (gross / 10_000) * rate + (gross % 10_000) * rate / 10_000,
{
    let q = gross / 10_000;
    let r = gross % 10_000;
    assert(gross * rate == 10_000 * (q * rate) + r * rate) by (nonlinear_arith)
        requires
            gross == 10_000 * q + r,
    ;
    vstd::arithmetic::div_mod::lemma_div_multiples_vanish_fancy(
        (q * rate) as int,
        (r * rate) as int % 10_000,
        10_000,
    );
    vstd::arithmetic::div_mod::lemma_fundamental_div_mod((r * rate) as int, 10_000);
    vstd::arithmetic::div_mod::lemma_hoist_over_denominator(
        (r * rate) as int,
        (q * rate) as int,
        10_000,
    );
}

/// A rate of at most the full scale never takes more than the amount.
pub proof fn lemma_fee_within_gross(gross: nat, rate: nat)
    requires
        rate <= 10_000,
    ensures
        fee_of(gross, rate) <= gross,
{
    assert(gross * rate <= gross * 10_000) by (nonlinear_arith)
        requires
            rate <= 10_000,
    ;
    vstd::arithmetic::div_mod::lemma_div_is_ordered(
        (gross * rate) as int,
        (gross * 10_000) as int,
        10_000,
    );
    vstd::arithmetic::div_mod::lemma_div_multiples_vanish(gross as int, 10_000);
    assert(gross * 10_000 == 10_000 * gross) by (nonlinear_arith);
}

/// Splits `gross_amount` into `(fee, net)`: the fee is
/// `gross_amount * fee_basis_points / 10_000` rounded down, and the two parts
/// add up to the gross amount again. The product is never formed, so every
/// `u128` amount is accepted.
pub fn split(gross_amount: u128, fee_basis_points: u16) -> (parts: (u128, u128))
    requires
        fee_basis_points <= BASIS_POINTS_SCALE,
    ensures
        parts.0 == fee_of(gross_amount as nat, fee_basis_points as nat),
        parts.1 == net_of(gross_amount as nat, fee_basis_points as nat),
        parts.0 + parts.1 == gross_amount,
        fee_basis_points == 0 ==> parts.0 == 0,
{
    let rate: u128 = fee_basis_points as u128;
    let whole: u128 = gross_amount / 10_000;
    let rest: u128 = gross_amount % 10_000;
    proof {
        lemma_fee_by_parts(gross_amount as nat, rate as nat);
        lemma_fee_within_gross(gross_amount as nat, rate as nat);
        assert(whole * rate <= whole * 10_000) by (nonlinear_arith)
            requires
                rate <= 10_000,
        ;
        assert(rest * rate <= 10_000 * 10_000) by (nonlinear_arith)
            requires
                rate <= 10_000,
                rest < 10_000,
        ;
        assert(rate == 0 ==> whole * rate == 0 && rest * rate == 0) by (nonlinear_arith);
    }
    let fee: u128 = whole * rate + rest * rate / 10_000;
    (fee, gross_amount - fee)
}

} // verus!
