//! Exact decimal numbers.
//!
//! A [`Dec`] is a mantissa and a scale and stands for `mantissa / 10^scale`.
//! It holds exactly the numbers that `rust_decimal::Decimal` holds, and leaves
//! ordering and subtraction to that crate.

use core::cmp::Ordering;
use rust_decimal::Decimal;
use vstd::arithmetic::power::pow;
use vstd::arithmetic::power::lemma_pow_positive;
use vstd::prelude::*;

verus! {

/// The largest scale of a decimal.
pub const MAX_SCALE: u32 = 28;

/// The largest mantissa of a decimal, `2^96 - 1`. The smallest is its negation.
pub const MAX_MANTISSA: i128 = 0xFFFF_FFFF_FFFF_FFFF_FFFF_FFFF;

/// How one number stands to another.
#[derive(Clone, Copy, Debug, PartialEq, Eq, Structural)]
pub enum Order {
    Less,
    Equal,
    Greater,
}

/// Whether a mantissa and a scale are within the bounds of a decimal.
pub open spec fn representable(mantissa: i128, scale: u32) -> bool {
    -MAX_MANTISSA <= mantissa <= MAX_MANTISSA && scale <= MAX_SCALE
}

/// The number `mantissa / 10^scale`, counted in units of `10^-28`.
pub open spec fn units(mantissa: i128, scale: u32) -> int {
    mantissa * pow(10, (MAX_SCALE - scale) as nat)
}

/// How the integer `a` stands to the integer `b`.
pub open spec fn int_order(a: int, b: int) -> Order {
    if a < b {
        Order::Less
    } else if a == b {
        Order::Equal
    } else {
        Order::Greater
    }
}

/// What `Decimal::checked_sub` of `rust_decimal` returns for the decimal with
/// the first mantissa and scale minus the decimal with the second, as the
/// mantissa and the scale of the difference; `None` where it reports overflow.
pub uninterp spec fn checked_sub_result(
    a_mantissa: i128,
    a_scale: u32,
    b_mantissa: i128,
    b_scale: u32,
) -> Option<(i128, u32)>;

/// Compares two decimals with `Ord::cmp` of `rust_decimal::Decimal`, each made
/// by `Decimal::from_i128_with_scale`.
///
/// Trusted: the comparison is by numeric value, whatever the two scales are,
/// so it is the comparison of the two numbers counted in units of `10^-28`.
#[verifier::external_body]
fn decimal_order(a_mantissa: i128, a_scale: u32, b_mantissa: i128, b_scale: u32) -> (r: Order)
    requires
        representable(a_mantissa, a_scale),
        representable(b_mantissa, b_scale),
    ensures
        r == int_order(units(a_mantissa, a_scale), units(b_mantissa, b_scale)),
{
    let a = Decimal::from_i128_with_scale(a_mantissa, a_scale);
    let b = Decimal::from_i128_with_scale(b_mantissa, b_scale);
    match a.cmp(&b) {
        Ordering::Less => Order::Less,
        Ordering::Equal => Order::Equal,
        Ordering::Greater => Order::Greater,
    }
}

/// Subtracts two decimals with `Decimal::checked_sub` of `rust_decimal`, each
/// made by `Decimal::from_i128_with_scale`, and hands back the mantissa and
/// the scale of what it returned.
///
/// Trusted: the result depends on the four numbers alone.
#[verifier::external_body]
fn decimal_checked_sub(a_mantissa: i128, a_scale: u32, b_mantissa: i128, b_scale: u32) -> (r:
    Option<(i128, u32)>)
    requires
        representable(a_mantissa, a_scale),
        representable(b_mantissa, b_scale),
    ensures
        r == checked_sub_result(a_mantissa, a_scale, b_mantissa, b_scale),
{
    let a = Decimal::from_i128_with_scale(a_mantissa, a_scale);
    let b = Decimal::from_i128_with_scale(b_mantissa, b_scale);
    a.checked_sub(b).map(|d| (d.mantissa(), d.scale()))
}

/// An exact decimal number, `mantissa / 10^scale`.
///
/// The mantissa has at most 96 bits and the scale is at most 28. Two decimals
/// are the same value only if they agree in both: `1.0` and `1.00` are equal
/// in [`Dec::order`] and still two values.
#[derive(Clone, Copy, Debug, PartialEq, Eq, Structural)]
pub struct Dec {
    mantissa: i128,
    scale: u32,
}

impl Dec {
    /// Every decimal is within bounds.
    #[verifier::type_invariant]
    pub closed spec fn wf(self) -> bool {
        representable(self.mantissa, self.scale)
    }

    /// The decimal with this mantissa and this scale.
    pub closed spec fn from_parts(mantissa: i128, scale: u32) -> Dec {
        Dec { mantissa, scale }
    }

    /// The mantissa: the digits as a signed integer.
    pub closed spec fn spec_mantissa(&self) -> i128 {
        self.mantissa
    }

    /// The scale: how many of the digits stand behind the decimal point.
    pub closed spec fn spec_scale(&self) -> u32 {
        self.scale
    }

    /// Zero, with scale 0.
    pub open spec fn spec_zero() -> Dec {
        Dec::from_parts(0, 0)
    }

    /// The number in units of `10^-28`. Two decimals are numerically equal
    /// exactly if they have the same value.
    pub open spec fn value(self) -> int {
        units(self.mantissa(), self.scale())
    }

    /// How this number stands to the other, by value.
    pub open spec fn order(self, other: Dec) -> Order {
        int_order(self.value(), other.value())
    }

    /// This number minus the other, as the decimal arithmetic gives it; `None`
    /// where the difference does not fit a decimal.
    pub open spec fn difference(self, other: Dec) -> Option<Dec> {
        match checked_sub_result(self.mantissa(), self.scale(), other.mantissa(), other.scale()) {
            Some((mantissa, scale)) => if representable(mantissa, scale) {
                Some(Dec::from_parts(mantissa, scale))
            } else {
                None
            },
            None => None,
        }
    }

    /// A decimal's parts are what it was made from.
    pub broadcast proof fn lemma_from_parts(mantissa: i128, scale: u32)
        ensures
            (#[trigger] Dec::from_parts(mantissa, scale)).mantissa() == mantissa,
            Dec::from_parts(mantissa, scale).scale() == scale,
            Dec::from_parts(mantissa, scale).wf() == representable(mantissa, scale),
    {
    }

    /// A decimal is its mantissa and its scale, nothing more.
    pub proof fn lemma_parts_determine(a: Dec, b: Dec)
        requires
            a.mantissa() == b.mantissa(),
            a.scale() == b.scale(),
        ensures
            a == b,
    {
    }

    /// Two decimals of one value and one scale are the same decimal.
    pub proof fn lemma_value_and_scale_determine(a: Dec, b: Dec)
        requires
            a.value() == b.value(),
            a.scale() == b.scale(),
        ensures
            a == b,
    {
        let p = pow(10, (MAX_SCALE - a.scale) as nat);
        lemma_pow_positive(10, (MAX_SCALE - a.scale) as nat);
        assert(a.mantissa == b.mantissa) by (nonlinear_arith)
            requires
                a.mantissa * p == b.mantissa * p,
                p > 0,
        ;
    }

    /// The decimal `mantissa / 10^scale`, if the two are within bounds.
    pub fn new(mantissa: i128, scale: u32) -> (r: Option<Dec>)
        ensures
            r is Some <==> representable(mantissa, scale),
            r matches Some(d) ==> d == Dec::from_parts(mantissa, scale),
    {
        if -MAX_MANTISSA <= mantissa && mantissa <= MAX_MANTISSA && scale <= MAX_SCALE {
            Some(Dec { mantissa, scale })
        } else {
            None
        }
    }

    /// Zero, with scale 0.
    #[verifier::when_used_as_spec(spec_zero)]
    pub fn zero() -> (d: Dec)
        ensures
            d == Dec::spec_zero(),
    {
        Dec { mantissa: 0, scale: 0 }
    }

    /// The mantissa: the digits as a signed integer.
    #[verifier::when_used_as_spec(spec_mantissa)]
    pub fn mantissa(&self) -> (m: i128)
        ensures
            m == self.mantissa(),
    {
        self.mantissa
    }

    /// The scale: how many of the digits stand behind the decimal point.
    #[verifier::when_used_as_spec(spec_scale)]
    pub fn scale(&self) -> (s: u32)
        ensures
            s == self.scale(),
    {
        self.scale
    }

    /// Compares two decimals by value.
    pub fn compare(&self, other: &Dec) -> (r: Order)
        ensures
            r == self.order(*other),
    {
        proof {
            use_type_invariant(self);
            use_type_invariant(other);
        }
        decimal_order(self.mantissa, self.scale, other.mantissa, other.scale)
    }

    /// This number minus the other; `None` where the difference does not fit a
    /// decimal.
    pub fn checked_sub(&self, other: &Dec) -> (r: Option<Dec>)
        ensures
            r == self.difference(*other),
    {
        proof {
            use_type_invariant(self);
            use_type_invariant(other);
        }
        match decimal_checked_sub(self.mantissa, self.scale, other.mantissa, other.scale) {
            Some((mantissa, scale)) => Dec::new(mantissa, scale),
            None => None,
        }
    }
}

} // verus!
