//! Fixed-point amounts with eighteen decimal places, held as a count of
//! attos (units of 10^-18). Multiplication and division are carried out by
//! scrypto's `Decimal`, whose wide intermediates keep the exact truncated
//! result whenever it fits.

use scrypto::prelude::{CheckedDiv, CheckedMul, Decimal, I192};
use vstd::prelude::*;

verus! {

/// Attos in one whole unit.
pub const ONE: u128 = 1_000_000_000_000_000_000;

/// Attos in one hundred whole units: the scale of a percentage.
pub const HUNDRED: u128 = 100_000_000_000_000_000_000;

/// A non-negative fixed-point quantity: an asset amount or a percentage.
#[derive(Clone, Copy, Debug, PartialEq, Eq, Structural)]
pub struct Amount {
    pub attos: u128,
}

impl View for Amount {
    type V = nat;

    open spec fn view(&self) -> nat {
        self.attos as nat
    }
}

/// Fixed-point product of two attos counts, truncated toward zero.
pub open spec fn mul_spec(a: int, b: int) -> int {
    a * b / (ONE as int)
}

/// Fixed-point quotient of two attos counts, truncated toward zero.
pub open spec fn div_spec(a: int, b: int) -> int {
    a * (ONE as int) / b
}

/// Relies on scrypto's `Decimal::checked_mul`: it multiplies the attos in a
/// 256-bit integer, divides by 10^18 and returns `None` only when the result
/// leaves the range; the conversion back to `u128` fails exactly when the
/// result exceeds it.
#[verifier::external_body]
fn decimal_checked_mul(a: u128, b: u128) -> (r: Option<u128>)
    ensures
        r is Some <==> mul_spec(a as int, b as int) <= u128::MAX,
        r matches Some(v) ==> v == mul_spec(a as int, b as int),
{
    let p = Decimal::from_attos(I192::from(a)).checked_mul(Decimal::from_attos(I192::from(b)));
    match p {
        Some(d) => u128::try_from(d.attos()).ok(),
        None => None,
    }
}

/// Relies on scrypto's `Decimal::checked_div`: it multiplies the dividend's
/// attos by 10^18 in a 256-bit integer, divides by the divisor's attos and
/// returns `None` on a zero divisor; the conversion back to `u128` fails
/// exactly when the result exceeds it.
#[verifier::external_body]
fn decimal_checked_div(a: u128, b: u128) -> (r: Option<u128>)
    ensures
        b == 0 ==> r is None,
        b != 0 ==> (r is Some <==> div_spec(a as int, b as int) <= u128::MAX),
        r matches Some(v) ==> v == div_spec(a as int, b as int),
{
    let q = Decimal::from_attos(I192::from(a)).checked_div(Decimal::from_attos(I192::from(b)));
    match q {
        Some(d) => u128::try_from(d.attos()).ok(),
        None => None,
    }
}

impl Amount {
    pub fn zero() -> (r: Amount)
        ensures
            r@ == 0,
    {
        Amount { attos: 0 }
    }

    pub fn from_attos(attos: u128) -> (r: Amount)
        ensures
            r@ == attos,
    {
        Amount { attos }
    }

    /// A whole number of units.
    pub fn from_units(units: u64) -> (r: Amount)
        ensures
            r@ == units * ONE,
    {
        assert(units * ONE <= u128::MAX) by (nonlinear_arith)
            requires
                units <= u64::MAX,
        ;
        Amount { attos: units as u128 * ONE }
    }

    pub fn attos(&self) -> (r: u128)
        ensures
            r == self@,
    {
        self.attos
    }

    pub fn is_zero(&self) -> (r: bool)
        ensures
            r == (self@ == 0),
    {
        self.attos == 0
    }

    pub fn checked_add(self, other: Amount) -> (r: Option<Amount>)
        ensures
            r is Some <==> self@ + other@ <= u128::MAX,
            r matches Some(v) ==> v@ == self@ + other@,
    {
        match self.attos.checked_add(other.attos) {
            Some(a) => Some(Amount { attos: a }),
            None => None,
        }
    }

    pub fn checked_sub(self, other: Amount) -> (r: Option<Amount>)
        ensures
            r is Some <==> other@ <= self@,
            r matches Some(v) ==> v@ == self@ - other@,
    {
        if other.attos <= self.attos {
            Some(Amount { attos: self.attos - other.attos })
        } else {
            None
        }
    }

    /// Fixed-point product, truncated; `None` when it does not fit.
    pub fn checked_mul(self, other: Amount) -> (r: Option<Amount>)
        ensures
            r is Some <==> mul_spec(self@ as int, other@ as int) <= u128::MAX,
            r matches Some(v) ==> v@ == mul_spec(self@ as int, other@ as int),
    {
        match decimal_checked_mul(self.attos, other.attos) {
            Some(a) => Some(Amount { attos: a }),
            None => None,
        }
    }

    /// Fixed-point quotient, truncated; `None` on a zero divisor or when it
    /// does not fit.
    pub fn checked_div(self, other: Amount) -> (r: Option<Amount>)
        ensures
            other@ == 0 ==> r is None,
            other@ != 0 ==> (r is Some <==> div_spec(self@ as int, other@ as int) <= u128::MAX),
            r matches Some(v) ==> v@ == div_spec(self@ as int, other@ as int),
    {
        match decimal_checked_div(self.attos, other.attos) {
            Some(a) => Some(Amount { attos: a }),
            None => None,
        }
    }
}

} // verus!
