//! Real numbers as IEEE 754 binary64 bit patterns: only their order is needed here.
use vstd::prelude::*;

verus! {

/// A binary64 number: its bit pattern, and its text as a JSON number.
pub struct Real {
    pub bits: u64,
    pub text: String,
}

#[verifier::ext_equal]
pub struct RealView {
    pub bits: u64,
    pub text: Seq<char>,
}

impl Real {
    pub open spec fn view(&self) -> RealView {
        RealView { bits: self.bits, text: self.text@ }
    }
}

impl Clone for Real {
    fn clone(&self) -> (r: Self)
        ensures
            r@ == self@,
    {
        Real { bits: self.bits, text: self.text.clone() }
    }
}

/// The view of an optional number.
pub open spec fn optional_view(r: Option<Real>) -> Option<RealView> {
    match r {
        Some(x) => Some(x@),
        None => None,
    }
}

pub fn clone_optional(r: &Option<Real>) -> (out: Option<Real>)
    ensures
        optional_view(out) == optional_view(*r),
{
    match r {
        Some(x) => Some(x.clone()),
        None => None,
    }
}

/// The sign bit alone: the pattern of negative zero.
pub const SIGN: u64 = 0x8000_0000_0000_0000;

/// The pattern of positive infinity.
pub const INFINITY: u64 = 0x7ff0_0000_0000_0000;

/// The pattern of one.
pub const ONE: u64 = 0x3ff0_0000_0000_0000;

/// Whether a pattern is that of no number.
pub open spec fn is_nan(bits: u64) -> bool {
    (if bits < SIGN {
        bits as int
    } else {
        bits - SIGN
    }) > INFINITY
}

/// An integer in the order of the numbers: equal for the two zeros, and between two numbers as
/// they are ordered.
pub open spec fn key(bits: u64) -> int {
    if bits < SIGN {
        bits as int
    } else {
        SIGN - bits
    }
}

/// Whether the first number is less than the second.
pub open spec fn less(a: u64, b: u64) -> bool {
    !is_nan(a) && !is_nan(b) && key(a) < key(b)
}

/// Whether the first number is at most the second.
pub open spec fn at_most(a: u64, b: u64) -> bool {
    !is_nan(a) && !is_nan(b) && key(a) <= key(b)
}

/// Whether a number lies between zero and one, both included.
pub open spec fn in_unit(bits: u64) -> bool {
    at_most(0, bits) && at_most(bits, ONE)
}

/// Whether a number is zero of either sign.
pub open spec fn zero(bits: u64) -> bool {
    key(bits) == 0
}

fn nan(bits: u64) -> (r: bool)
    ensures
        r == is_nan(bits),
{
    (if bits < SIGN {
        bits
    } else {
        bits - SIGN
    }) > INFINITY
}

pub fn is_less(a: u64, b: u64) -> (r: bool)
    ensures
        r == less(a, b),
{
    if nan(a) || nan(b) {
        false
    } else if a < SIGN {
        b < SIGN && a < b
    } else if b < SIGN {
        a > SIGN || b > 0
    } else {
        b < a
    }
}

pub fn is_at_most(a: u64, b: u64) -> (r: bool)
    ensures
        r == at_most(a, b),
{
    !nan(a) && !nan(b) && !is_less(b, a)
}

pub fn is_in_unit(bits: u64) -> (r: bool)
    ensures
        r == in_unit(bits),
{
    is_at_most(0, bits) && is_at_most(bits, ONE)
}

pub fn is_zero(bits: u64) -> (r: bool)
    ensures
        r == zero(bits),
{
    bits == 0 || bits == SIGN
}

/// An integer in the total order of the patterns: negative zero stands before zero, and what is no
/// number stands at the ends.
pub open spec fn total_key(bits: u64) -> int {
    if bits < SIGN {
        bits as int
    } else {
        SIGN - bits - 1
    }
}

/// Whether the first pattern stands before the second in the total order.
pub fn is_totally_less(a: u64, b: u64) -> (r: bool)
    ensures
        r == (total_key(a) < total_key(b)),
{
    if a < SIGN {
        b < SIGN && a < b
    } else {
        b < SIGN || b < a
    }
}

}
