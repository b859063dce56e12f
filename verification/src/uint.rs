//! Fixed-width unsigned integers held as 64-bit limbs, least significant first.
//!
//! Amounts and match identifiers are 256-bit words. The limbs are plain
//! fields so that a word is an ordinary value to the verifier; its meaning is
//! the natural number given by its view. The arithmetic itself is done by
//! `alloy_primitives` (the `ruint` integers) behind three small trusted
//! functions; everything built on top of them is proved.

use vstd::prelude::*;

verus! {

/// `2^64`, the weight of the second limb.
pub open spec fn pow2_64() -> nat {
    0x1_0000_0000_0000_0000nat
}

/// `2^128`, the weight of the third limb.
pub open spec fn pow2_128() -> nat {
    0x1_0000_0000_0000_0000_0000_0000_0000_0000nat
}

/// `2^192`, the weight of the fourth limb.
pub open spec fn pow2_192() -> nat {
    0x1_0000_0000_0000_0000_0000_0000_0000_0000_0000_0000_0000_0000nat
}

/// `2^256`, one more than the largest 256-bit value.
pub open spec fn pow2_256() -> nat {
    0x1_0000_0000_0000_0000_0000_0000_0000_0000_0000_0000_0000_0000_0000_0000_0000_0000nat
}

/// The largest value a [`U256`] can hold.
pub open spec fn u256_max() -> nat {
    0xffff_ffff_ffff_ffff_ffff_ffff_ffff_ffff_ffff_ffff_ffff_ffff_ffff_ffff_ffff_ffffnat
}

/// The number that four limbs stand for.
pub open spec fn limbs_value(l0: u64, l1: u64, l2: u64, l3: u64) -> nat {
    (l0 as nat) + (l1 as nat) * pow2_64() + (l2 as nat) * pow2_128() + (l3 as nat) * pow2_192()
}

/// A 256-bit unsigned integer.
#[derive(Clone, Copy, Debug, PartialEq, Eq, Hash, Structural)]
pub struct U256 {
    pub l0: u64,
    pub l1: u64,
    pub l2: u64,
    pub l3: u64,
}

/// A 512-bit unsigned integer: wide enough for the product of two [`U256`].
#[derive(Clone, Copy, Debug)]
pub struct U512 {
    pub lo: U256,
    pub hi: U256,
}

impl View for U256 {
    type V = nat;

    open spec fn view(&self) -> nat {
        limbs_value(self.l0, self.l1, self.l2, self.l3)
    }
}

impl View for U512 {
    type V = nat;

    open spec fn view(&self) -> nat {
        self.lo@ + self.hi@ * pow2_256()
    }
}

impl U256 {
    /// The word that stands for zero.
    pub fn zero() -> (r: U256)
        ensures
            r@ == 0,
    {
        U256 { l0: 0, l1: 0, l2: 0, l3: 0 }
    }

    /// The word that stands for `value`.
    pub fn from_u64(value: u64) -> (r: U256)
        ensures
            r@ == value,
    {
        U256 { l0: value, l1: 0, l2: 0, l3: 0 }
    }

    /// Whether the word stands for zero.
    pub fn is_zero(&self) -> (r: bool)
        ensures
            r == (self@ == 0),
    {
        self.l0 == 0 && self.l1 == 0 && self.l2 == 0 && self.l3 == 0
    }

    /// The sum of two words, or `None` where it does not fit in 256 bits.
    pub fn checked_add(self, rhs: U256) -> (r: Option<U256>)
        ensures
            match r {
                Some(sum) => sum@ == self@ + rhs@,
                None => self@ + rhs@ > u256_max(),
            },
    {
        let (sum, overflow) = overflowing_add(self, rhs);
        if overflow {
            None
        } else {
            Some(sum)
        }
    }

    /// `floor(self * factor / divisor)`, computed without losing the high
    /// half of the product. `None` where `divisor` is zero or the quotient
    /// does not fit in 256 bits.
    pub fn mul_div(self, factor: U256, divisor: U256) -> (r: Option<U256>)
        ensures
            match r {
                Some(q) => divisor@ > 0 && q@ == self@ * factor@ / divisor@,
                None => divisor@ == 0 || self@ * factor@ / divisor@ > u256_max(),
            },
    {
        if divisor.is_zero() {
            return None;
        }
        let product = widening_mul(self, factor);
        let quotient = wide_div(product, divisor);
        quotient.to_u256()
    }
}

impl U512 {
    /// The 256-bit word for the same number, or `None` where it needs more
    /// than 256 bits.
    pub fn to_u256(&self) -> (r: Option<U256>)
        ensures
            match r {
                Some(low) => low@ == self@,
                None => self@ > u256_max(),
            },
    {
        if self.hi.is_zero() {
            Some(self.lo)
        } else {
            None
        }
    }
}

/// `ruint::Uint::overflowing_add` on 256-bit integers, which the `+` of
/// `alloy_primitives::U256` is built on. Trusted to return the sum reduced
/// modulo `2^256`, together with whether the true sum reached `2^256`.
#[verifier::external_body]
fn overflowing_add(a: U256, b: U256) -> (r: (U256, bool))
    ensures
        r.0@ == (a@ + b@) % pow2_256(),
        r.1 == (a@ + b@ >= pow2_256()),
{
    let x = alloy_primitives::U256::from_limbs([a.l0, a.l1, a.l2, a.l3]);
    let y = alloy_primitives::U256::from_limbs([b.l0, b.l1, b.l2, b.l3]);
    let (sum, overflow) = x.overflowing_add(y);
    let s = sum.into_limbs();
    (U256 { l0: s[0], l1: s[1], l2: s[2], l3: s[3] }, overflow)
}

/// `ruint::Uint::widening_mul` from two 256-bit integers to a 512-bit one.
/// Trusted to return the complete product.
#[verifier::external_body]
fn widening_mul(a: U256, b: U256) -> (r: U512)
    ensures
        r@ == a@ * b@,
{
    let x = alloy_primitives::U256::from_limbs([a.l0, a.l1, a.l2, a.l3]);
    let y = alloy_primitives::U256::from_limbs([b.l0, b.l1, b.l2, b.l3]);
    let product: alloy_primitives::U512 = x.widening_mul::<256, 4, 512, 8>(y);
    let p = product.into_limbs();
    U512 {
        lo: U256 { l0: p[0], l1: p[1], l2: p[2], l3: p[3] },
        hi: U256 { l0: p[4], l1: p[5], l2: p[6], l3: p[7] },
    }
}

/// The `/` of `alloy_primitives::U512` (`ruint::Uint::wrapping_div`), which
/// panics on a zero divisor, with the divisor widened by `ruint::Uint::from`.
/// Trusted to return the quotient rounded down.
#[verifier::external_body]
fn wide_div(n: U512, d: U256) -> (r: U512)
    requires
        d@ > 0,
    ensures
        r@ == n@ / d@,
{
    let x = alloy_primitives::U512::from_limbs(
        [n.lo.l0, n.lo.l1, n.lo.l2, n.lo.l3, n.hi.l0, n.hi.l1, n.hi.l2, n.hi.l3],
    );
    let y = alloy_primitives::U512::from(
        alloy_primitives::U256::from_limbs([d.l0, d.l1, d.l2, d.l3]),
    );
    let q = (x / y).into_limbs();
    U512 {
        lo: U256 { l0: q[0], l1: q[1], l2: q[2], l3: q[3] },
        hi: U256 { l0: q[4], l1: q[5], l2: q[6], l3: q[7] },
    }
}

/// Two words that stand for the same number are the same word: a contract
/// that fixes the view of a result fixes the result.
pub proof fn lemma_u256_view_injective(a: U256, b: U256)
    requires
        a@ == b@,
    ensures
        a == b,
{
    let a_low2: int = a.l0 + a.l1 * pow2_64();
    let b_low2: int = b.l0 + b.l1 * pow2_64();
    let a_low3: int = a_low2 + a.l2 * pow2_128();
    let b_low3: int = b_low2 + b.l2 * pow2_128();
    lemma_digits_unique(a_low3, a.l3 as int, b_low3, b.l3 as int, pow2_192() as int);
    lemma_digits_unique(a_low2, a.l2 as int, b_low2, b.l2 as int, pow2_128() as int);
    lemma_digits_unique(a.l0 as int, a.l1 as int, b.l0 as int, b.l1 as int, pow2_64() as int);
}

/// A number has one low part below `base` and one high part above it.
proof fn lemma_digits_unique(lo1: int, hi1: int, lo2: int, hi2: int, base: int)
    by (nonlinear_arith)
    requires
        0 <= lo1 < base,
        0 <= lo2 < base,
        lo1 + hi1 * base == lo2 + hi2 * base,
    ensures
        lo1 == lo2,
        hi1 == hi2,
{
}

} // verus!
