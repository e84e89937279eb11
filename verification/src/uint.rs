//! 256-bit unsigned integers, stored as four 64-bit limbs, least significant
//! first. Arithmetic is done by the `ethers` implementation; each call is
//! stated here over the mathematical value of the operands.

use vstd::prelude::*;
use vstd::std_specs::cmp::PartialEqSpecImpl;

verus! {

/// 2^64.
pub open spec fn limb() -> nat {
    0x1_0000_0000_0000_0000nat
}

/// 2^256: one more than the largest value a `U256` holds.
pub open spec fn u256_limit() -> nat {
    0x1_0000_0000_0000_0000_0000_0000_0000_0000_0000_0000_0000_0000_0000_0000_0000_0000nat
}

/// `n` raised by `percent` percent, rounded down.
pub open spec fn percent_increase(n: nat, percent: nat) -> nat {
    n * (100 + percent) / 100
}

/// `percent_increase`, held at the largest 256-bit value where it would pass it.
pub open spec fn saturating_percent_increase(n: nat, percent: nat) -> nat {
    if percent_increase(n, percent) < u256_limit() {
        percent_increase(n, percent)
    } else {
        (u256_limit() - 1) as nat
    }
}

/// A 256-bit unsigned integer.
#[derive(Clone, Copy, Debug, Default, Hash)]
pub struct U256 {
    /// The limbs, least significant first.
    pub limbs: [u64; 4],
}

impl U256 {
    /// The number this value stands for.
    pub open spec fn value(self) -> nat {
        (self.limbs[0] as nat) + (self.limbs[1] as nat) * 0x1_0000_0000_0000_0000nat + (
        self.limbs[2] as nat) * 0x1_0000_0000_0000_0000_0000_0000_0000_0000nat + (
        self.limbs[3] as nat) * 0x1_0000_0000_0000_0000_0000_0000_0000_0000_0000_0000_0000_0000nat
    }

    /// The value that stands for the number `n`, for `n` below 2^256.
    pub open spec fn from_value(n: nat) -> U256 {
        U256 {
            limbs: [
                (n % 0x1_0000_0000_0000_0000nat) as u64,
                ((n / 0x1_0000_0000_0000_0000nat) % 0x1_0000_0000_0000_0000nat) as u64,
                ((n / 0x1_0000_0000_0000_0000_0000_0000_0000_0000nat)
                    % 0x1_0000_0000_0000_0000nat) as u64,
                (n / 0x1_0000_0000_0000_0000_0000_0000_0000_0000_0000_0000_0000_0000nat) as u64,
            ],
        }
    }

    /// `from_value` gives the value that stands for the number, and there is
    /// no other.
    pub proof fn lemma_from_value(n: nat, other: U256)
        requires
            n < u256_limit(),
        ensures
            U256::from_value(n).value() == n,
            other.value() == n ==> other == U256::from_value(n),
    {
        let x = U256::from_value(n);
        let l0 = n % 0x1_0000_0000_0000_0000nat;
        let l1 = (n / 0x1_0000_0000_0000_0000nat) % 0x1_0000_0000_0000_0000nat;
        let l2 = (n / 0x1_0000_0000_0000_0000_0000_0000_0000_0000nat) % 0x1_0000_0000_0000_0000nat;
        let l3 = n / 0x1_0000_0000_0000_0000_0000_0000_0000_0000_0000_0000_0000_0000nat;
        assert(x.limbs[0] == l0 && x.limbs[1] == l1 && x.limbs[2] == l2 && x.limbs[3] == l3);
        assert(x.value() == n);
        x.lemma_value(other);
    }

    /// Every value is below 2^256, and two values with the same number are equal.
    pub proof fn lemma_value(self, other: U256)
        ensures
            self.value() < u256_limit(),
            self.value() == other.value() <==> self == other,
    {
        if self.value() == other.value() {
            assert(self.limbs[3] == other.limbs[3]);
            assert(self.limbs[2] == other.limbs[2]);
            assert(self.limbs[1] == other.limbs[1]);
            assert(self.limbs[0] == other.limbs[0]);
            assert(self.limbs =~= other.limbs);
        }
    }

    pub fn zero() -> (r: U256)
        ensures
            r.value() == 0,
    {
        U256 { limbs: [0u64, 0u64, 0u64, 0u64] }
    }

    /// The largest value, 2^256 - 1.
    pub fn max_value() -> (r: U256)
        ensures
            r.value() == u256_limit() - 1,
    {
        U256 {
            limbs: [
                0xffff_ffff_ffff_ffffu64,
                0xffff_ffff_ffff_ffffu64,
                0xffff_ffff_ffff_ffffu64,
                0xffff_ffff_ffff_ffffu64,
            ],
        }
    }

    pub fn from_u64(x: u64) -> (r: U256)
        ensures
            r.value() == x,
    {
        U256 { limbs: [x, 0, 0, 0] }
    }

    pub fn is_zero(&self) -> (r: bool)
        ensures
            r == (self.value() == 0),
    {
        self.limbs[0] == 0 && self.limbs[1] == 0 && self.limbs[2] == 0 && self.limbs[3] == 0
    }

    /// The value as a `u64`, when it fits.
    pub fn to_u64(&self) -> (r: Option<u64>)
        ensures
            r == (if self.value() < limb() {
                Some(self.value() as u64)
            } else {
                None
            }),
    {
        if self.limbs[1] == 0 && self.limbs[2] == 0 && self.limbs[3] == 0 {
            Some(self.limbs[0])
        } else {
            None
        }
    }

    /// Strictly less, by value.
    pub fn lt(&self, other: &U256) -> (r: bool)
        ensures
            r == (self.value() < other.value()),
    {
        if self.limbs[3] != other.limbs[3] {
            self.limbs[3] < other.limbs[3]
        } else if self.limbs[2] != other.limbs[2] {
            self.limbs[2] < other.limbs[2]
        } else if self.limbs[1] != other.limbs[1] {
            self.limbs[1] < other.limbs[1]
        } else {
            self.limbs[0] < other.limbs[0]
        }
    }

    /// The sum, unless it does not fit in 256 bits.
    pub fn checked_add(&self, other: &U256) -> (r: Option<U256>)
        ensures
            r is Some <==> self.value() + other.value() < u256_limit(),
            r is Some ==> r->0.value() == self.value() + other.value(),
    {
        limbs_checked_add(*self, *other)
    }

    /// The difference, unless `other` is the larger.
    pub fn checked_sub(&self, other: &U256) -> (r: Option<U256>)
        ensures
            r is Some <==> other.value() <= self.value(),
            r is Some ==> r->0.value() == self.value() - other.value(),
    {
        limbs_checked_sub(*self, *other)
    }

    /// The product, unless it does not fit in 256 bits.
    pub fn checked_mul(&self, other: &U256) -> (r: Option<U256>)
        ensures
            r is Some <==> self.value() * other.value() < u256_limit(),
            r is Some ==> r->0.value() == self.value() * other.value(),
    {
        limbs_checked_mul(*self, *other)
    }

    /// The quotient rounded down, unless `other` is zero.
    pub fn checked_div(&self, other: &U256) -> (r: Option<U256>)
        ensures
            r is Some <==> other.value() != 0,
            r is Some ==> r->0.value() == self.value() / other.value(),
    {
        limbs_checked_div(*self, *other)
    }

    /// The remainder, unless `other` is zero.
    pub fn checked_rem(&self, other: &U256) -> (r: Option<U256>)
        ensures
            r is Some <==> other.value() != 0,
            r is Some ==> r->0.value() == self.value() % other.value(),
    {
        limbs_checked_rem(*self, *other)
    }

    /// The value raised by `percent` percent and rounded down, unless that
    /// does not fit in 256 bits.
    pub fn increase_by_percent(&self, percent: u64) -> (r: Option<U256>)
        ensures
            r is Some <==> percent_increase(self.value(), percent as nat) < u256_limit(),
            r is Some ==> r->0.value() == percent_increase(self.value(), percent as nat),
    {
        let hundred = U256::from_u64(100);
        let factor = match hundred.checked_add(&U256::from_u64(percent)) {
            Some(f) => f,
            None => {
                return None;
            },
        };
        let whole = match self.checked_div(&hundred) {
            Some(q) => q,
            None => {
                return None;
            },
        };
        let part = match self.checked_rem(&hundred) {
            Some(q) => q,
            None => {
                return None;
            },
        };
        proof {
            lemma_percent_split(whole.value(), part.value(), factor.value());
            assert(self.value() == 100 * whole.value() + part.value()) by {
                vstd::arithmetic::div_mod::lemma_fundamental_div_mod(self.value() as int, 100);
            }
            assert(part.value() * factor.value() < 100 * 0x2_0000_0000_0000_0000nat)
                by (nonlinear_arith)
                requires
                    part.value() < 100,
                    factor.value() < 0x2_0000_0000_0000_0000nat,
            ;
        }
        let scaled_part = match part.checked_mul(&factor) {
            Some(q) => q,
            None => {
                return None;
            },
        };
        let carried = match scaled_part.checked_div(&hundred) {
            Some(q) => q,
            None => {
                return None;
            },
        };
        match whole.checked_mul(&factor) {
            Some(scaled_whole) => scaled_whole.checked_add(&carried),
            None => None,
        }
    }

    /// The value raised by `percent` percent and rounded down, or the largest
    /// value where that does not fit in 256 bits.
    pub fn saturating_increase_by_percent(&self, percent: u64) -> (r: U256)
        ensures
            r.value() == saturating_percent_increase(self.value(), percent as nat),
    {
        match self.increase_by_percent(percent) {
            Some(v) => v,
            None => U256::max_value(),
        }
    }

    /// The number that follows this value's, or the same where no 256-bit
    /// value stands for that.
    pub open spec fn next_value(self) -> nat {
        if self.value() + 1 < u256_limit() {
            self.value() + 1
        } else {
            self.value()
        }
    }

    /// The value plus one, or the largest value where that does not fit.
    pub fn saturating_increment(&self) -> (r: U256)
        ensures
            r.value() == self.next_value(),
            r == U256::from_value(self.next_value()),
    {
        proof {
            self.lemma_value(*self);
        }
        let r = match self.checked_add(&U256::from_u64(1)) {
            Some(v) => v,
            None => *self,
        };
        proof {
            U256::lemma_from_value(self.next_value(), r);
        }
        r
    }
}

/// Splitting `n = 100 * a + b` lets `n * f / 100` be computed without the
/// product `n * f`.
proof fn lemma_percent_split(a: nat, b: nat, f: nat)
    ensures
        (100 * a + b) * f / 100 == a * f + (b * f) / 100,
{
    assert((100 * a + b) * f == 100 * (a * f) + b * f) by (nonlinear_arith);
    vstd::arithmetic::div_mod::lemma_fundamental_div_mod((b * f) as int, 100);
    vstd::arithmetic::div_mod::lemma_fundamental_div_mod_converse(
        (100 * (a * f) + b * f) as int,
        100,
        (a * f + (b * f) / 100) as int,
        ((b * f) % 100) as int,
    );
}

impl PartialEq for U256 {
    fn eq(&self, other: &U256) -> (r: bool) {
        let r = self.limbs[0] == other.limbs[0] && self.limbs[1] == other.limbs[1]
            && self.limbs[2] == other.limbs[2] && self.limbs[3] == other.limbs[3];
        proof {
            if r {
                assert(self.limbs =~= other.limbs);
            }
        }
        r
    }
}

impl PartialEqSpecImpl for U256 {
    open spec fn obeys_eq_spec() -> bool {
        true
    }

    open spec fn eq_spec(&self, other: &U256) -> bool {
        *self == *other
    }
}

impl Eq for U256 {}

/// `ethers::types::U256::checked_add`: the sum of the two numbers, or `None`
/// when the sum needs more than 256 bits.
#[verifier::external_body]
fn limbs_checked_add(a: U256, b: U256) -> (r: Option<U256>)
    ensures
        r is Some <==> a.value() + b.value() < u256_limit(),
        r is Some ==> r->0.value() == a.value() + b.value(),
{
    ethers::types::U256(a.limbs).checked_add(ethers::types::U256(b.limbs)).map(
        |x| U256 { limbs: x.0 },
    )
}

/// `ethers::types::U256::checked_sub`: the first number less the second, or
/// `None` when the second is the larger.
#[verifier::external_body]
fn limbs_checked_sub(a: U256, b: U256) -> (r: Option<U256>)
    ensures
        r is Some <==> b.value() <= a.value(),
        r is Some ==> r->0.value() == a.value() - b.value(),
{
    ethers::types::U256(a.limbs).checked_sub(ethers::types::U256(b.limbs)).map(
        |x| U256 { limbs: x.0 },
    )
}

/// `ethers::types::U256::checked_mul`: the product of the two numbers, or
/// `None` when the product needs more than 256 bits.
#[verifier::external_body]
fn limbs_checked_mul(a: U256, b: U256) -> (r: Option<U256>)
    ensures
        r is Some <==> a.value() * b.value() < u256_limit(),
        r is Some ==> r->0.value() == a.value() * b.value(),
{
    ethers::types::U256(a.limbs).checked_mul(ethers::types::U256(b.limbs)).map(
        |x| U256 { limbs: x.0 },
    )
}

/// `ethers::types::U256::checked_div`: the quotient rounded down, or `None`
/// when the divisor is zero.
#[verifier::external_body]
fn limbs_checked_div(a: U256, b: U256) -> (r: Option<U256>)
    ensures
        r is Some <==> b.value() != 0,
        r is Some ==> r->0.value() == a.value() / b.value(),
{
    ethers::types::U256(a.limbs).checked_div(ethers::types::U256(b.limbs)).map(
        |x| U256 { limbs: x.0 },
    )
}

/// `ethers::types::U256::checked_rem`: the remainder of the division, or
/// `None` when the divisor is zero.
#[verifier::external_body]
fn limbs_checked_rem(a: U256, b: U256) -> (r: Option<U256>)
    ensures
        r is Some <==> b.value() != 0,
        r is Some ==> r->0.value() == a.value() % b.value(),
{
    ethers::types::U256(a.limbs).checked_rem(ethers::types::U256(b.limbs)).map(
        |x| U256 { limbs: x.0 },
    )
}

} // verus!
