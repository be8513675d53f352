use vstd::prelude::*;

pub mod event;
pub mod physics;
pub mod sprite;
pub mod input;
pub mod particles;
pub mod element;
pub mod scene;
pub mod block;
pub mod camera;

verus! {

// Scalar quantities (positions, velocities, scales, time deltas) are carried
// as 64-bit fixed-point numbers with three decimal digits of fraction:
// the value 1.0 is stored as 1000.  Arithmetic on them saturates at the i64
// range instead of wrapping, so every operation is total.
pub const FX_ONE: i64 = 1000;

/// Clamp a mathematical integer into the i64 range.
pub open spec fn clamp64(v: int) -> int {
    if v > i64::MAX as int {
        i64::MAX as int
    } else if v < i64::MIN as int {
        i64::MIN as int
    } else {
        v
    }
}

/// Division truncated toward zero (the behaviour of `/` on machine integers),
/// defined for a positive divisor.
pub open spec fn trunc_div(p: int, q: int) -> int
    recommends
        q > 0,
{
    if p >= 0 {
        p / q
    } else {
        -((-p) / q)
    }
}

/// Saturating fixed-point addition.
pub open spec fn fx_add(a: int, b: int) -> int {
    clamp64(a + b)
}

/// Saturating fixed-point multiplication: (a * b) / FX_ONE, truncated toward
/// zero, clamped into the i64 range.
pub open spec fn fx_mul(a: int, b: int) -> int {
    clamp64(trunc_div(a * b, FX_ONE as int))
}

/// Saturating fixed-point division: (a * FX_ONE) / b, truncated toward zero,
/// clamped into the i64 range.
pub open spec fn fx_div(a: int, b: int) -> int
    recommends
        b != 0,
{
    if b > 0 {
        clamp64(trunc_div(a * FX_ONE, b))
    } else {
        clamp64(-trunc_div(a * FX_ONE, -b))
    }
}

/// Truncating division of a non-negative magnitude, as exec code.
fn mag_div(p: u128, q: u128) -> (r: u128)
    requires
        q > 0,
    ensures
        r == p as int / q as int,
{
    p / q
}

/// Saturating addition on i64, matching `fx_add`.
pub fn sat_add(a: i64, b: i64) -> (r: i64)
    ensures
        r == fx_add(a as int, b as int),
{
    let wide: i128 = a as i128 + b as i128;
    if wide > i64::MAX as i128 {
        i64::MAX
    } else if wide < i64::MIN as i128 {
        i64::MIN
    } else {
        wide as i64
    }
}

/// Saturating subtraction on i64.
pub fn sat_sub(a: i64, b: i64) -> (r: i64)
    ensures
        r == clamp64(a - b),
{
    let wide: i128 = a as i128 - b as i128;
    if wide > i64::MAX as i128 {
        i64::MAX
    } else if wide < i64::MIN as i128 {
        i64::MIN
    } else {
        wide as i64
    }
}

/// Saturating fixed-point multiplication on i64, matching `fx_mul`.
pub fn sat_mul(a: i64, b: i64) -> (r: i64)
    ensures
        r == fx_mul(a as int, b as int),
{
    let ai: i128 = a as i128;
    let bi: i128 = b as i128;
    proof {
        assert(-0x4000_0000_0000_0000_0000_0000_0000_0000 <= ai * bi
            <= 0x4000_0000_0000_0000_0000_0000_0000_0000) by (nonlinear_arith)
            requires
                -0x8000_0000_0000_0000 <= ai <= 0x7FFF_FFFF_FFFF_FFFF,
                -0x8000_0000_0000_0000 <= bi <= 0x7FFF_FFFF_FFFF_FFFF,
        ;
    }
    let wide: i128 = ai * bi;
    let neg: bool = wide < 0;
    let mag: u128 = if neg {
        (-wide) as u128
    } else {
        wide as u128
    };
    let q: u128 = mag_div(mag, FX_ONE as u128);
    proof {
        assert(q <= mag) by (nonlinear_arith)
            requires
                q == (mag as int) / 1000,
        ;
    }
    let signed: i128 = if neg {
        -(q as i128)
    } else {
        q as i128
    };
    if signed > i64::MAX as i128 {
        i64::MAX
    } else if signed < i64::MIN as i128 {
        i64::MIN
    } else {
        signed as i64
    }
}

/// Saturating fixed-point division on i64, matching `fx_div`; division by
/// zero yields zero.
pub fn sat_div(a: i64, b: i64) -> (r: i64)
    ensures
        b != 0 ==> r == fx_div(a as int, b as int),
        b == 0 ==> r == 0,
{
    if b == 0 {
        return 0;
    }
    let p: i128 = a as i128 * 1000;
    let neg: bool = (p < 0) != (b < 0);
    let mag_p: u128 = if p < 0 {
        (-p) as u128
    } else {
        p as u128
    };
    let mag_b: u128 = if b < 0 {
        (-(b as i128)) as u128
    } else {
        b as u128
    };
    let q: u128 = mag_div(mag_p, mag_b);
    proof {
        assert(q <= mag_p) by (nonlinear_arith)
            requires
                q == (mag_p as int) / (mag_b as int),
                mag_b >= 1,
                mag_p >= 0,
        ;
    }
    let signed: i128 = if neg {
        -(q as i128)
    } else {
        q as i128
    };
    if signed > i64::MAX as i128 {
        i64::MAX
    } else if signed < i64::MIN as i128 {
        i64::MIN
    } else {
        signed as i64
    }
}

/// Relies on `std::rc::Rc::clone`: the documentation says it creates another
/// pointer to the same allocation, so the returned handle refers to the very
/// same value.
#[verifier::external_body]
pub(crate) fn dup_rc<T>(b: &std::rc::Rc<T>) -> (res: std::rc::Rc<T>)
    ensures
        res == *b,
{
    std::rc::Rc::clone(b)
}

/// Relies on `uuid::Uuid::new_v4` (a random version-4 UUID) and
/// `uuid::Uuid::as_u128` (its 128-bit value): the result is random, so
/// nothing is promised of it.
#[verifier::external_body]
pub(crate) fn fresh_uuid() -> u128 {
    uuid::Uuid::new_v4().as_u128()
}

/// A two-component vector.
#[derive(Clone, Copy, Debug)]
pub struct V2<T> {
    pub x: T,
    pub y: T,
}

impl V2<i64> {
    pub fn new(x: i64, y: i64) -> (r: V2<i64>)
        ensures
            r == (V2 { x, y }),
    {
        V2 { x, y }
    }

    /// Componentwise saturating addition.
    pub fn add(self, rhs: V2<i64>) -> (r: V2<i64>)
        ensures
            r.x == fx_add(self.x as int, rhs.x as int),
            r.y == fx_add(self.y as int, rhs.y as int),
    {
        V2 { x: sat_add(self.x, rhs.x), y: sat_add(self.y, rhs.y) }
    }

    /// Componentwise saturating subtraction.
    pub fn sub(self, rhs: V2<i64>) -> (r: V2<i64>)
        ensures
            r.x == clamp64(self.x - rhs.x),
            r.y == clamp64(self.y - rhs.y),
    {
        V2 { x: sat_sub(self.x, rhs.x), y: sat_sub(self.y, rhs.y) }
    }

    /// Scale both components by a fixed-point factor.
    pub fn mul(self, rhs: i64) -> (r: V2<i64>)
        ensures
            r.x == fx_mul(self.x as int, rhs as int),
            r.y == fx_mul(self.y as int, rhs as int),
    {
        V2 { x: sat_mul(self.x, rhs), y: sat_mul(self.y, rhs) }
    }
}

impl V2<i64> {
    /// Componentwise saturating fixed-point multiplication.
    pub fn scale(self, rhs: V2<i64>) -> (r: V2<i64>)
        ensures
            r.x == fx_mul(self.x as int, rhs.x as int),
            r.y == fx_mul(self.y as int, rhs.y as int),
    {
        V2 { x: sat_mul(self.x, rhs.x), y: sat_mul(self.y, rhs.y) }
    }

    /// Divide both components by a fixed-point factor; a zero divisor
    /// yields zero components.
    pub fn div(self, rhs: i64) -> (r: V2<i64>)
        ensures
            rhs != 0 ==> r.x == crate::fx_div(self.x as int, rhs as int) && r.y == crate::fx_div(
                self.y as int,
                rhs as int,
            ),
            rhs == 0 ==> r == (V2 { x: 0i64, y: 0i64 }),
    {
        V2 { x: sat_div(self.x, rhs), y: sat_div(self.y, rhs) }
    }
}

impl Default for V2<i64> {
    fn default() -> (r: V2<i64>)
        ensures
            r == (V2 { x: 0i64, y: 0i64 }),
    {
        V2 { x: 0, y: 0 }
    }
}

} // verus!
