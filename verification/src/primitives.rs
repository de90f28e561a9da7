//! Addresses and 256-bit unsigned integers as plain values.

use vstd::prelude::*;

verus! {

/// A 160-bit account or contract address, read as the unsigned integer
/// `hi * 2^128 + lo` of its twenty big-endian bytes.
#[derive(Clone, Copy, Debug, PartialEq, Eq, Hash, Structural)]
pub struct Address {
    pub hi: u32,
    pub lo: u128,
}

/// A 256-bit unsigned integer held as four 64-bit words, least significant
/// first.
#[derive(Clone, Copy, Debug, PartialEq, Eq, Hash, Structural)]
pub struct U256 {
    pub w0: u64,
    pub w1: u64,
    pub w2: u64,
    pub w3: u64,
}

impl View for U256 {
    type V = nat;

    /// The number that the four words stand for.
    open spec fn view(&self) -> nat {
        (self.w0 as nat) + (self.w1 as nat) * 0x1_0000_0000_0000_0000 + (self.w2 as nat)
            * 0x1_0000_0000_0000_0000_0000_0000_0000_0000 + (self.w3 as nat)
            * 0x1_0000_0000_0000_0000_0000_0000_0000_0000_0000_0000_0000_0000
    }
}

impl U256 {
    /// The integer `value`, widened to 256 bits.
    pub fn from_u128(value: u128) -> (r: U256)
        ensures
            r@ == value,
    {
        let low: u64 = (value & 0xffff_ffff_ffff_ffff) as u64;
        let high: u64 = (value >> 64) as u64;
        assert(low as nat + (high as nat) * 0x1_0000_0000_0000_0000 == value as nat) by (bit_vector)
            requires
                low == (value & 0xffff_ffff_ffff_ffff) as u64,
                high == (value >> 64) as u64,
        ;
        U256 { w0: low, w1: high, w2: 0, w3: 0 }
    }

    /// Whether `self` is at least `other`: the words decide from the most
    /// significant down.
    pub fn ge(self, other: U256) -> (r: bool)
        ensures
            r == (self@ >= other@),
    {
        if self.w3 != other.w3 {
            self.w3 > other.w3
        } else if self.w2 != other.w2 {
            self.w2 > other.w2
        } else if self.w1 != other.w1 {
            self.w1 > other.w1
        } else {
            self.w0 >= other.w0
        }
    }

    /// Whether `self` is zero.
    pub fn is_zero(self) -> (r: bool)
        ensures
            r == (self@ == 0),
    {
        self.w0 == 0 && self.w1 == 0 && self.w2 == 0 && self.w3 == 0
    }

    /// The quotient of `self` by `divisor`, rounded down; `None` exactly when
    /// `divisor` is zero.
    pub fn checked_div(self, divisor: U256) -> (r: Option<U256>)
        ensures
            divisor@ == 0 ==> r is None,
            divisor@ != 0 ==> r is Some && r.unwrap()@ == self@ / divisor@,
    {
        if divisor.is_zero() {
            None
        } else {
            Some(u256_div_mod(self, divisor).0)
        }
    }

    /// The remainder of `self` by `divisor`; `None` exactly when `divisor` is
    /// zero.
    pub fn checked_rem(self, divisor: U256) -> (r: Option<U256>)
        ensures
            divisor@ == 0 ==> r is None,
            divisor@ != 0 ==> r is Some && r.unwrap()@ == self@ % divisor@,
    {
        if divisor.is_zero() {
            None
        } else {
            Some(u256_div_mod(self, divisor).1)
        }
    }

    /// `self` as a 64-bit integer; `None` exactly when it does not fit.
    pub fn to_u64(self) -> (r: Option<u64>)
        ensures
            self@ <= u64::MAX ==> r is Some && r.unwrap() == self@,
            self@ > u64::MAX ==> r is None,
    {
        if self.w1 == 0 && self.w2 == 0 && self.w3 == 0 {
            Some(self.w0)
        } else {
            None
        }
    }
}

/// Ten to the eighteenth: the number of smallest units in one whole unit of
/// an asset with eighteen decimals.
pub const TEN_POW_18: u64 = 1_000_000_000_000_000_000;

/// `TEN_POW_18` as a 256-bit integer.
pub fn u256_10_pow_18() -> (r: U256)
    ensures
        r@ == TEN_POW_18,
{
    U256 { w0: TEN_POW_18, w1: 0, w2: 0, w3: 0 }
}

/// Ten to the sixth: the number of smallest units in one whole unit of an
/// asset with six decimals.
pub const TEN_POW_6: u64 = 1_000_000;

/// `TEN_POW_6` as a 256-bit integer.
pub fn u256_10_pow_6() -> (r: U256)
    ensures
        r@ == TEN_POW_6,
{
    U256 { w0: TEN_POW_6, w1: 0, w2: 0, w3: 0 }
}

/// `U256::div_mod` of `ethers::types`: the quotient rounded down, and the
/// remainder. The outside function panics on a zero divisor, which `requires`
/// leaves out.
#[verifier::external_body]
fn u256_div_mod(a: U256, b: U256) -> (r: (U256, U256))
    requires
        b@ != 0,
    ensures
        r.0@ == a@ / b@,
        r.1@ == a@ % b@,
{
    let divisor = ethers::types::U256([b.w0, b.w1, b.w2, b.w3]);
    let (q, m) = ethers::types::U256([a.w0, a.w1, a.w2, a.w3]).div_mod(divisor);
    (
        U256 { w0: q.0[0], w1: q.0[1], w2: q.0[2], w3: q.0[3] },
        U256 { w0: m.0[0], w1: m.0[1], w2: m.0[2], w3: m.0[3] },
    )
}

} // verus!
