//! Arithmetic on amounts that stops the invocation where the result does not
//! fit.
use vstd::prelude::*;

use crate::outcome::Trap;

verus! {

/// `a + b`, if it is an `i128`.
pub open spec fn plus(a: i128, b: i128) -> Result<i128, Trap> {
    if i128::MIN <= a + b <= i128::MAX {
        Ok((a + b) as i128)
    } else {
        Err(Trap::AddOverflow)
    }
}

/// `a - b`, if it is an `i128`.
pub open spec fn minus(a: i128, b: i128) -> Result<i128, Trap> {
    if i128::MIN <= a - b <= i128::MAX {
        Ok((a - b) as i128)
    } else {
        Err(Trap::SubtractOverflow)
    }
}

/// `a * b`, if it is an `i128`.
pub open spec fn times(a: i128, b: i128) -> Result<i128, Trap> {
    if i128::MIN <= a * b <= i128::MAX {
        Ok((a * b) as i128)
    } else {
        Err(Trap::MultiplyOverflow)
    }
}

/// The quotient of `a` and `b`, rounded toward zero.
pub open spec fn toward_zero(a: int, b: int) -> int {
    if a >= 0 && b > 0 {
        a / b
    } else if a < 0 && b < 0 {
        (-a) / (-b)
    } else if a < 0 {
        -((-a) / b)
    } else {
        -(a / (-b))
    }
}

/// `a / b`, rounded toward zero, if it exists and is an `i128`.
pub open spec fn over(a: i128, b: i128) -> Result<i128, Trap> {
    if b == 0 {
        Err(Trap::DivideByZero)
    } else if i128::MIN <= toward_zero(a as int, b as int) <= i128::MAX {
        Ok(toward_zero(a as int, b as int) as i128)
    } else {
        Err(Trap::DivideOverflow)
    }
}

/// `n + 1`, if it is a `u32`.
pub open spec fn next(n: u32) -> Result<u32, Trap> {
    if n < u32::MAX {
        Ok((n + 1) as u32)
    } else {
        Err(Trap::AddOverflow)
    }
}

/// `a - b`, zero if `b` is larger.
pub open spec fn less(a: int, b: int) -> int {
    if a >= b {
        a - b
    } else {
        0
    }
}

/// The smaller of two numbers.
pub open spec fn least(a: int, b: int) -> int {
    if a <= b {
        a
    } else {
        b
    }
}

/// `a + b`, if it is an `i128`.
pub(crate) fn checked_plus(a: i128, b: i128) -> (r: Result<i128, Trap>)
    ensures
        r == plus(a, b),
{
    match a.checked_add(b) {
        Some(c) => Ok(c),
        None => Err(Trap::AddOverflow),
    }
}

/// `a - b`, if it is an `i128`.
pub(crate) fn checked_minus(a: i128, b: i128) -> (r: Result<i128, Trap>)
    ensures
        r == minus(a, b),
{
    match a.checked_sub(b) {
        Some(c) => Ok(c),
        None => Err(Trap::SubtractOverflow),
    }
}

/// `a * b`, if it is an `i128`.
pub(crate) fn checked_times(a: i128, b: i128) -> (r: Result<i128, Trap>)
    ensures
        r == times(a, b),
{
    match a.checked_mul(b) {
        Some(c) => Ok(c),
        None => Err(Trap::MultiplyOverflow),
    }
}

/// `a / b`, rounded toward zero, if it exists and is an `i128`.
pub(crate) fn checked_over(a: i128, b: i128) -> (r: Result<i128, Trap>)
    ensures
        r == over(a, b),
{
    if b == 0 {
        return Err(Trap::DivideByZero);
    }
    match a.checked_div(b) {
        Some(c) => Ok(c),
        None => Err(Trap::DivideOverflow),
    }
}

/// `n + 1`, if it is a `u32`.
pub(crate) fn checked_next(n: u32) -> (r: Result<u32, Trap>)
    ensures
        r == next(n),
{
    match n.checked_add(1) {
        Some(m) => Ok(m),
        None => Err(Trap::AddOverflow),
    }
}

} // verus!
