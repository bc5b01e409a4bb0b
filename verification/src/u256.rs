//! A 256-bit unsigned integer, wide enough to hold a chain's total
//! difficulty, with checked addition proved exact against its
//! mathematical value.

use vstd::prelude::*;

verus! {

/// `2^128`, the weight of the high limb.
pub open spec fn u128_limit() -> int {
    0x1_0000_0000_0000_0000_0000_0000_0000_0000int
}

/// One past the largest value a [`U256`] can hold, `2^256`.
pub open spec fn u256_limit() -> int {
    u128_limit() * u128_limit()
}

/// A 256-bit unsigned integer stored as two 128-bit limbs.
#[derive(Clone, Copy, Debug, PartialEq, Eq, Structural)]
pub struct U256 {
    /// Low 128 bits.
    pub lo: u128,
    /// High 128 bits.
    pub hi: u128,
}

impl U256 {
    /// The mathematical value of the number.
    pub open spec fn as_int(self) -> int {
        self.lo + self.hi * u128_limit()
    }

    /// The unique limb representation of a value below `2^256`.
    pub open spec fn from_int(n: int) -> U256 {
        U256 { lo: (n % u128_limit()) as u128, hi: (n / u128_limit()) as u128 }
    }

    /// Zero.
    pub fn zero() -> (r: U256)
        ensures
            r.as_int() == 0,
    {
        U256 { lo: 0, hi: 0 }
    }

    /// Embeds a 64-bit value.
    pub fn from_u64(v: u64) -> (r: U256)
        ensures
            r.as_int() == v,
    {
        U256 { lo: v as u128, hi: 0 }
    }

    /// The limb representation of a value below `2^256` is unique.
    pub proof fn lemma_from_int_as_int(self)
        requires
            0 <= self.as_int() < u256_limit(),
        ensures
            U256::from_int(self.as_int()) == self,
    {
        vstd::arithmetic::div_mod::lemma_fundamental_div_mod_converse(
            self.as_int(),
            u128_limit(),
            self.hi as int,
            self.lo as int,
        );
    }

    /// Adds two numbers, refusing to wrap: the sum comes back exactly
    /// when it fits in 256 bits and `None` otherwise.
    pub fn checked_add(self, other: U256) -> (r: Option<U256>)
        ensures
            self.as_int() + other.as_int() < u256_limit() ==> r == Some(
                U256::from_int(self.as_int() + other.as_int()),
            ),
            self.as_int() + other.as_int() >= u256_limit() ==> r is None,
            r matches Some(v) ==> v.as_int() == self.as_int() + other.as_int(),
    {
        let (lo, carry): (u128, u128) = if self.lo <= u128::MAX - other.lo {
            (self.lo + other.lo, 0)
        } else {
            ((self.lo - (u128::MAX - other.lo)) - 1, 1)
        };
        proof {
            assert(lo + carry * u128_limit() == self.lo + other.lo);
        }
        if self.hi <= u128::MAX - other.hi {
            let hi_base = self.hi + other.hi;
            if carry <= u128::MAX - hi_base {
                let hi = hi_base + carry;
                let sum = U256 { lo, hi };
                proof {
                    assert(u256_limit() == u128_limit() * u128_limit());
                    assert(sum.as_int() == self.as_int() + other.as_int()) by (nonlinear_arith)
                        requires
                            lo + carry * u128_limit() == self.lo + other.lo,
                            hi == self.hi + other.hi + carry,
                            sum.lo == lo,
                            sum.hi == hi,
                            sum.as_int() == sum.lo + sum.hi * u128_limit(),
                            self.as_int() == self.lo + self.hi * u128_limit(),
                            other.as_int() == other.lo + other.hi * u128_limit(),
                    {
                    }
                    assert(sum.as_int() < u256_limit()) by (nonlinear_arith)
                        requires
                            u256_limit() == u128_limit() * u128_limit(),
                            sum.as_int() == sum.lo + sum.hi * u128_limit(),
                            0 <= sum.lo < u128_limit(),
                            0 <= sum.hi < u128_limit(),
                    {
                    }
                    sum.lemma_from_int_as_int();
                }
                Some(sum)
            } else {
                proof {
                    Self::lemma_sum_overflows(self, other, lo as int, carry as int);
                }
                None
            }
        } else {
            proof {
                Self::lemma_sum_overflows(self, other, lo as int, carry as int);
            }
            None
        }
    }

    /// When the high limbs and the carry together exceed 128 bits, the
    /// sum itself exceeds 256 bits.
    proof fn lemma_sum_overflows(a: U256, b: U256, lo: int, carry: int)
        requires
            lo + carry * u128_limit() == a.lo + b.lo,
            a.hi + b.hi + carry >= u128_limit(),
            0 <= lo,
            0 <= carry,
        ensures
            a.as_int() + b.as_int() >= u256_limit(),
    {
        assert(u256_limit() == u128_limit() * u128_limit());
        assert(a.as_int() + b.as_int() >= u256_limit()) by (nonlinear_arith)
            requires
                u256_limit() == u128_limit() * u128_limit(),
                u128_limit() > 0,
                lo + carry * u128_limit() == a.lo + b.lo,
                a.hi + b.hi + carry >= u128_limit(),
                0 <= lo,
                0 <= carry,
                a.as_int() == a.lo + a.hi * u128_limit(),
                b.as_int() == b.lo + b.hi * u128_limit(),
        {
        }
    }
}

} // verus!
