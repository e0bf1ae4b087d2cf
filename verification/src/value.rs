//! Quantities that are either known exactly or not known at all.

use crate::ratio::{rounds_to, Ratio};
use vstd::prelude::*;

verus! {

/// The sum of two quantities: unknown as soon as one of them is.
pub open spec fn q_add(a: Option<real>, b: Option<real>) -> Option<real> {
    match (a, b) {
        (Some(x), Some(y)) => Some(x + y),
        _ => None,
    }
}

/// The difference of two quantities: unknown as soon as one of them is, or where the
/// result would be negative.
pub open spec fn q_sub(a: Option<real>, b: Option<real>) -> Option<real> {
    match (a, b) {
        (Some(x), Some(y)) => if x >= y {
            Some(x - y)
        } else {
            None
        },
        _ => None,
    }
}

/// The product of two quantities: unknown as soon as one of them is.
pub open spec fn q_mul(a: Option<real>, b: Option<real>) -> Option<real> {
    match (a, b) {
        (Some(x), Some(y)) => Some(x * y),
        _ => None,
    }
}

/// The quotient of two quantities: unknown as soon as one of them is, or where the
/// divisor is zero.
pub open spec fn q_div(a: Option<real>, b: Option<real>) -> Option<real> {
    match (a, b) {
        (Some(x), Some(y)) => if y != 0real {
            Some(x / y)
        } else {
            None
        },
        _ => None,
    }
}

/// A derived quantity: known exactly, or not known. What is not known stays so
/// through every computation instead of passing for zero.
#[derive(Debug)]
pub enum Value {
    Known(Ratio),
    Unknown,
}

impl View for Value {
    type V = Option<real>;

    open spec fn view(&self) -> Option<real> {
        match self {
            Value::Known(r) => Some(r@),
            Value::Unknown => None,
        }
    }
}

impl Value {
    /// The known whole number `n`.
    pub fn from_u64(n: u64) -> (r: Value)
        ensures
            r@ == Some(n as real),
    {
        Value::Known(Ratio::from_u64(n))
    }

    /// The quantity as the bits of a binary floating-point number of 64 bits: a
    /// known quantity rounded to the nearest, and not-a-number for what is unknown.
    pub fn as_f64(&self) -> (r: u64)
        ensures
            match self@ {
                None => r == 0x7ff8_0000_0000_0000,
                Some(x) => rounds_to(x, r),
            },
    {
        match self {
            Value::Known(x) => x.to_ieee_double(),
            Value::Unknown => 0x7ff8_0000_0000_0000,
        }
    }

    /// Whether the quantity is known.
    pub fn is_known(&self) -> (r: bool)
        ensures
            r == self@.is_some(),
    {
        match self {
            Value::Known(_) => true,
            Value::Unknown => false,
        }
    }

    /// A copy of the quantity.
    pub fn duplicate(&self) -> (r: Value)
        ensures
            r@ == self@,
    {
        match self {
            Value::Known(x) => Value::Known(x.duplicate()),
            Value::Unknown => Value::Unknown,
        }
    }

    /// The sum of the two quantities.
    pub fn add(&self, other: &Value) -> (r: Value)
        ensures
            r@ == q_add(self@, other@),
    {
        match (self, other) {
            (Value::Known(x), Value::Known(y)) => Value::Known(x.add(y)),
            _ => Value::Unknown,
        }
    }

    /// The difference of the two quantities, where it is not negative.
    pub fn sub(&self, other: &Value) -> (r: Value)
        ensures
            r@ == q_sub(self@, other@),
    {
        match (self, other) {
            (Value::Known(x), Value::Known(y)) => match x.checked_sub(y) {
                Some(d) => Value::Known(d),
                None => Value::Unknown,
            },
            _ => Value::Unknown,
        }
    }

    /// The product of the two quantities.
    pub fn mul(&self, other: &Value) -> (r: Value)
        ensures
            r@ == q_mul(self@, other@),
    {
        match (self, other) {
            (Value::Known(x), Value::Known(y)) => Value::Known(x.mul(y)),
            _ => Value::Unknown,
        }
    }

    /// The quotient of the two quantities, where the divisor is not zero.
    pub fn div(&self, other: &Value) -> (r: Value)
        ensures
            r@ == q_div(self@, other@),
    {
        match (self, other) {
            (Value::Known(x), Value::Known(y)) => match x.div(y) {
                Some(q) => Value::Known(q),
                None => Value::Unknown,
            },
            _ => Value::Unknown,
        }
    }
}

} // verus!
