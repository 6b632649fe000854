//! Converting a human-denominated amount to atomic units.
//!
//! Convention: the batch price is the human-denominated value of one
//! whole coin of `10^8` atomic units, so an amount `H` at price `P`
//! becomes `H / P * 10^8` atomic units, rounded half up. With
//! `H = hm / 10^hs` and `P = pm / 10^ps` that is
//! `round((hm * 10^(8+ps)) / (pm * 10^hs))`, carried out in exact
//! integer arithmetic: no floating point is involved anywhere.
//! A negative amount is rejected, and so is any amount whose exact
//! computation or result leaves the machine range; zero results are
//! accepted (negligible payments are still payments).

use vstd::prelude::*;

use crate::decimal::Decimal;
use crate::decimal::lemma_pow10_36_fits;
use crate::decimal::lemma_pow10_monotone;
use crate::decimal::pow10;
use crate::decimal::pow10_u128;

verus! {

/// Exponent of atomic units per priced unit: one priced unit is
/// `10^8` atomic units.
pub const ATOMIC_EXP: u32 = 8;

/// Why one amount could not be converted.
#[derive(Clone, Copy, Debug, PartialEq, Eq, Structural)]
pub enum ConvertErrorKind {
    /// The human amount is negative; a payment cannot withdraw money.
    NegativeAmount,
    /// The exact computation or its result leaves the machine range.
    Overflow,
}

/// A usable batch price: well formed and strictly positive.
pub open spec fn price_valid(p: Decimal) -> bool {
    p.wf() && !p.negative && p.mantissa > 0
}

/// Numerator of the exact conversion quotient: `hm * 10^(8+ps)`.
pub open spec fn conv_num(h: Decimal, p: Decimal) -> int {
    h.mantissa * pow10((ATOMIC_EXP + p.scale) as nat)
}

/// Denominator of the exact conversion quotient: `pm * 10^hs`.
pub open spec fn conv_den(h: Decimal, p: Decimal) -> int {
    p.mantissa * pow10(h.scale as nat)
}

/// The atomic amount: the conversion quotient rounded half up,
/// `floor((2n + d) / 2d)`.
pub open spec fn atoms(h: Decimal, p: Decimal) -> int {
    (2 * conv_num(h, p) + conv_den(h, p)) / (2 * conv_den(h, p))
}

/// Exactly when conversion succeeds: a non-negative amount whose
/// intermediates fit in `u128` and whose result fits in `u64`.
pub open spec fn conv_ok(h: Decimal, p: Decimal) -> bool {
    &&& !h.negative
    &&& 2 * conv_num(h, p) + conv_den(h, p) <= u128::MAX
    &&& 2 * conv_den(h, p) <= u128::MAX
    &&& atoms(h, p) <= u64::MAX
}

/// Converts one amount at the batch price.
///
/// Succeeds with the rounded atomic amount exactly on the inputs
/// [`conv_ok`] allows; otherwise says which way it failed.
pub fn convert_amount(h: Decimal, p: Decimal) -> (r: Result<u64, ConvertErrorKind>)
    requires
        h.wf(),
        price_valid(p),
    ensures
        r is Ok <==> conv_ok(h, p),
        r matches Ok(a) ==> a == atoms(h, p),
        r == Err::<u64, ConvertErrorKind>(ConvertErrorKind::NegativeAmount) <==> h.negative,
        r == Err::<u64, ConvertErrorKind>(ConvertErrorKind::Overflow) <==> !h.negative && !conv_ok(
            h,
            p,
        ),
{
    if h.negative {
        return Err(ConvertErrorKind::NegativeAmount);
    }
    proof {
        lemma_pow10_monotone((ATOMIC_EXP + p.scale) as nat, 36);
        lemma_pow10_monotone(h.scale as nat, 36);
        lemma_pow10_36_fits();
        assert(conv_num(h, p) >= 0) by (nonlinear_arith)
            requires
                conv_num(h, p) == h.mantissa * pow10((ATOMIC_EXP + p.scale) as nat),
                h.mantissa >= 0,
                pow10((ATOMIC_EXP + p.scale) as nat) >= 1,
        ;
        assert(conv_den(h, p) >= 1) by (nonlinear_arith)
            requires
                conv_den(h, p) == p.mantissa * pow10(h.scale as nat),
                p.mantissa >= 1,
                pow10(h.scale as nat) >= 1,
        ;
    }
    let pw_num = pow10_u128((ATOMIC_EXP + p.scale) as usize);
    let pw_den = pow10_u128(h.scale as usize);
    let n = match h.mantissa.checked_mul(pw_num) {
        None => {
            return Err(ConvertErrorKind::Overflow);
        },
        Some(v) => v,
    };
    let d = match p.mantissa.checked_mul(pw_den) {
        None => {
            return Err(ConvertErrorKind::Overflow);
        },
        Some(v) => v,
    };
    let n2 = match n.checked_mul(2) {
        None => {
            return Err(ConvertErrorKind::Overflow);
        },
        Some(v) => v,
    };
    let s = match n2.checked_add(d) {
        None => {
            return Err(ConvertErrorKind::Overflow);
        },
        Some(v) => v,
    };
    let d2 = match d.checked_mul(2) {
        None => {
            return Err(ConvertErrorKind::Overflow);
        },
        Some(v) => v,
    };
    let q = s / d2;
    if q > 0xFFFF_FFFF_FFFF_FFFF {
        return Err(ConvertErrorKind::Overflow);
    }
    Ok(q as u64)
}

} // verus!
