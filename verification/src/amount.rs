//! 256-bit token amounts.
//!
//! Every monetary quantity in the ledger (streaming rates, license fees,
//! payment amounts, the revenue accumulator) is a non-negative 256-bit
//! integer, held as two 128-bit limbs. Addition is checked: it reports
//! overflow instead of wrapping, so the revenue total is always the exact
//! mathematical sum of the recorded payments.

use vstd::prelude::*;

verus! {

/// The weight of the high limb: one more than the largest value a single
/// 128-bit limb can hold.
pub open spec fn limb_radix() -> int {
    0x1_0000_0000_0000_0000_0000_0000_0000_0000int
}

/// The largest value a 256-bit amount can hold.
pub open spec fn max_amount() -> int {
    limb_radix() * limb_radix() - 1
}

/// A non-negative 256-bit token amount.
///
/// The mathematical value is `lo + hi * 2^128`; the view of an amount is
/// that integer.
#[derive(Clone, Copy, PartialEq, Eq, Structural, Debug)]
pub struct TokenAmount {
    /// The low 128 bits of the value.
    pub lo: u128,
    /// The high 128 bits of the value.
    pub hi: u128,
}

impl View for TokenAmount {
    type V = int;

    open spec fn view(&self) -> int {
        self.lo + self.hi * limb_radix()
    }
}

impl TokenAmount {
    /// The zero amount.
    pub fn zero() -> (r: TokenAmount)
        ensures
            r@ == 0,
    {
        TokenAmount { lo: 0, hi: 0 }
    }

    /// An amount equal to the given machine integer.
    pub fn from_u128(v: u128) -> (r: TokenAmount)
        ensures
            r@ == v,
    {
        TokenAmount { lo: v, hi: 0 }
    }

    /// Exact addition; `None` exactly when the mathematical sum does not
    /// fit in 256 bits.
    pub fn checked_add(self, other: TokenAmount) -> (r: Option<TokenAmount>)
        ensures
            self@ + other@ <= max_amount() ==> (r matches Some(s) && s@ == self@ + other@),
            self@ + other@ > max_amount() ==> r is None,
    {
        proof {
            assert(u128::MAX + 1 == limb_radix());
        }
        let lo = self.lo.wrapping_add(other.lo);
        let carry: u128 = if lo < self.lo {
            1
        } else {
            0
        };
        proof {
            assert(lo + carry * limb_radix() == self.lo + other.lo);
        }
        match self.hi.checked_add(other.hi) {
            Some(h) => match h.checked_add(carry) {
                Some(hi) => {
                    proof {
                        lemma_limb_value_bounds(lo, hi);
                    }
                    Some(TokenAmount { lo, hi })
                },
                None => {
                    proof {
                        assert(carry == 1 && h == u128::MAX);
                        assert(self@ + other@ > max_amount());
                    }
                    None
                },
            },
            None => {
                proof {
                    lemma_scale_le(limb_radix(), self.hi + other.hi);
                }
                None
            },
        }
    }

    /// Strict comparison of the mathematical values.
    pub fn lt(&self, other: &TokenAmount) -> (r: bool)
        ensures
            r == (self@ < other@),
    {
        proof {
            if self.hi < other.hi {
                lemma_scale_le(1, other.hi - self.hi);
            }
            if other.hi < self.hi {
                lemma_scale_le(1, self.hi - other.hi);
            }
        }
        self.hi < other.hi || (self.hi == other.hi && self.lo < other.lo)
    }
}

/// Two amounts denote the same value exactly when their limbs agree.
pub proof fn lemma_value_injective(a: TokenAmount, b: TokenAmount)
    ensures
        (a@ == b@) <==> (a.lo == b.lo && a.hi == b.hi),
{
    if a.hi < b.hi {
        lemma_scale_le(1, b.hi - a.hi);
    }
    if b.hi < a.hi {
        lemma_scale_le(1, a.hi - b.hi);
    }
}

/// Every amount denotes a value between 0 and `max_amount()`.
pub proof fn lemma_value_in_range(a: TokenAmount)
    ensures
        0 <= a@ <= max_amount(),
{
    lemma_limb_value_bounds(a.lo, a.hi);
}

/// Scaling by the limb radix preserves `<=` on non-negative factors.
proof fn lemma_scale_le(a: int, b: int)
    by (nonlinear_arith)
    requires
        a <= b,
    ensures
        a * limb_radix() <= b * limb_radix(),
{
}

/// Any pair of limbs denotes a value of at most `max_amount()`.
proof fn lemma_limb_value_bounds(lo: u128, hi: u128)
    ensures
        lo + hi * limb_radix() <= max_amount(),
{
    lemma_scale_le(hi as int, (limb_radix() - 1) as int);
}

} // verus!
