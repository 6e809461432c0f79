//! A fixed-point scalar.
//!
//! `Fixed` counts in units of `1 / 2^32` and keeps the count in an `i64`.
//! Its arithmetic is integer arithmetic throughout, so a run on `Fixed`
//! gives the same digits on every machine. Results that do not fit are
//! clamped to the nearest representable value, products and quotients are
//! rounded toward zero, and roots are rounded down.
use vstd::prelude::*;
use crate::scalar::zero_is_neutral;
use crate::scalar::Scalar;

verus! {

/// The count that stands for one.
pub const SCALE: i64 = 0x1_0000_0000;

/// The count that stands for one half.
pub const HALF_SCALE: i64 = 0x8000_0000;

/// A number `raw / 2^32`.
#[derive(Clone, Copy, Debug, PartialEq, Eq, Structural)]
pub struct Fixed {
    pub raw: i64,
}

/// `v` clamped to the range of `i64`.
pub open spec fn saturate(v: int) -> i64 {
    if v > i64::MAX {
        i64::MAX
    } else if v < i64::MIN {
        i64::MIN
    } else {
        v as i64
    }
}

/// The absolute value of `v`.
pub open spec fn magnitude(v: int) -> int {
    if v < 0 {
        -v
    } else {
        v
    }
}

/// `q` with the sign that a product or quotient of `a` and `b` has.
pub open spec fn signed_like(q: int, a: int, b: int) -> int {
    if (a < 0) != (b < 0) {
        -q
    } else {
        q
    }
}

/// The count of a product: `a * b / 2^32`, rounded toward zero.
pub open spec fn product_count(a: int, b: int) -> int {
    signed_like((magnitude(a) * magnitude(b)) / (SCALE as int), a, b)
}

/// The count of a quotient: `a * 2^32 / b`, rounded toward zero. A
/// quotient by zero is as large as the sign of `a` allows.
pub open spec fn quotient_count(a: int, b: int) -> int {
    if b == 0 {
        if a > 0 {
            i64::MAX as int
        } else if a < 0 {
            i64::MIN as int
        } else {
            0
        }
    } else {
        signed_like((magnitude(a) * (SCALE as int)) / magnitude(b), a, b)
    }
}

/// `r` is the integer square root of `x`.
pub open spec fn is_integer_root(x: int, r: int) -> bool {
    0 <= r && r * r <= x < (r + 1) * (r + 1)
}

/// The integer square root of `x`: the largest `r` with `r * r <= x`.
pub open spec fn integer_root(x: int) -> int {
    choose|r: int| is_integer_root(x, r)
}

/// A number has at most one integer square root.
pub proof fn lemma_integer_root_is_unique(x: int, r: int)
    requires
        is_integer_root(x, r),
    ensures
        integer_root(x) == r,
{
    let c = integer_root(x);
    assert(is_integer_root(x, c));
    assert(c == r) by (nonlinear_arith)
        requires
            0 <= r,
            r * r <= x,
            x < (r + 1) * (r + 1),
            0 <= c,
            c * c <= x,
            x < (c + 1) * (c + 1),
    ;
}

/// Computes the absolute value of `v`.
fn magnitude_of(v: i64) -> (m: u128)
    ensures
        m == magnitude(v as int),
        m <= 0x8000_0000_0000_0000,
{
    if v < 0 {
        let wide: i128 = -(v as i128);
        wide as u128
    } else {
        v as u128
    }
}

/// Gives `q` its sign and clamps it.
fn saturated(q: u128, negative: bool) -> (r: i64)
    ensures
        r == saturate(
            if negative {
                -(q as int)
            } else {
                q as int
            },
        ),
{
    if negative {
        if q >= 0x8000_0000_0000_0000 {
            i64::MIN
        } else {
            let count: i64 = q as i64;
            -count
        }
    } else {
        if q > 0x7fff_ffff_ffff_ffff {
            i64::MAX
        } else {
            q as i64
        }
    }
}

/// Computes the integer square root of `x` by bisection.
fn root_of(x: u128) -> (r: u128)
    requires
        x < 0x1_0000_0000_0000_0000_0000_0000,
    ensures
        is_integer_root(x as int, r as int),
        r < 0x1_0000_0000_0000,
{
    let mut low: u128 = 0;
    let mut high: u128 = 0x1_0000_0000_0000;
    assert(high * high == 0x1_0000_0000_0000_0000_0000_0000) by (nonlinear_arith)
        requires
            high == 0x1_0000_0000_0000,
    ;
    while high - low > 1
        invariant
            low < high <= 0x1_0000_0000_0000,
            low * low <= x < high * high,
        decreases high - low,
    {
        let middle: u128 = low + (high - low) / 2;
        assert(middle * middle < 0x1_0000_0000_0000_0000_0000_0000) by (nonlinear_arith)
            requires
                middle < 0x1_0000_0000_0000,
        ;
        if middle * middle <= x {
            low = middle;
        } else {
            high = middle;
        }
    }
    low
}

impl Scalar for Fixed {
    open spec fn zero_value() -> Self {
        Fixed { raw: 0 }
    }

    open spec fn one_value() -> Self {
        Fixed { raw: SCALE }
    }

    open spec fn half_value() -> Self {
        Fixed { raw: HALF_SCALE }
    }

    open spec fn sum(self, rhs: Self) -> Self {
        Fixed { raw: saturate(self.raw + rhs.raw) }
    }

    open spec fn difference(self, rhs: Self) -> Self {
        Fixed { raw: saturate(self.raw - rhs.raw) }
    }

    open spec fn product(self, rhs: Self) -> Self {
        Fixed { raw: saturate(product_count(self.raw as int, rhs.raw as int)) }
    }

    open spec fn quotient(self, rhs: Self) -> Self {
        Fixed { raw: saturate(quotient_count(self.raw as int, rhs.raw as int)) }
    }

    open spec fn root(self) -> Self {
        Fixed {
            raw: if self.raw <= 0 {
                0
            } else {
                integer_root(self.raw * SCALE) as i64
            },
        }
    }

    open spec fn below(self, rhs: Self) -> bool {
        self.raw < rhs.raw
    }

    fn zero() -> (r: Self) {
        Fixed { raw: 0 }
    }

    fn one() -> (r: Self) {
        Fixed { raw: SCALE }
    }

    fn half() -> (r: Self) {
        Fixed { raw: HALF_SCALE }
    }

    fn plus(self, rhs: Self) -> (r: Self) {
        let wide: i128 = self.raw as i128 + rhs.raw as i128;
        Fixed {
            raw: if wide > i64::MAX as i128 {
                i64::MAX
            } else if wide < i64::MIN as i128 {
                i64::MIN
            } else {
                wide as i64
            },
        }
    }

    fn minus(self, rhs: Self) -> (r: Self) {
        let wide: i128 = self.raw as i128 - rhs.raw as i128;
        Fixed {
            raw: if wide > i64::MAX as i128 {
                i64::MAX
            } else if wide < i64::MIN as i128 {
                i64::MIN
            } else {
                wide as i64
            },
        }
    }

    fn times(self, rhs: Self) -> (r: Self) {
        let a: u128 = magnitude_of(self.raw);
        let b: u128 = magnitude_of(rhs.raw);
        assert(a * b <= 0x4000_0000_0000_0000_0000_0000_0000_0000) by (nonlinear_arith)
            requires
                a <= 0x8000_0000_0000_0000,
                b <= 0x8000_0000_0000_0000,
        ;
        let q: u128 = (a * b) / 0x1_0000_0000;
        Fixed { raw: saturated(q, (self.raw < 0) != (rhs.raw < 0)) }
    }

    fn over(self, rhs: Self) -> (r: Self) {
        if rhs.raw == 0 {
            return Fixed {
                raw: if self.raw > 0 {
                    i64::MAX
                } else if self.raw < 0 {
                    i64::MIN
                } else {
                    0
                },
            };
        }
        let a: u128 = magnitude_of(self.raw);
        let b: u128 = magnitude_of(rhs.raw);
        let q: u128 = (a * 0x1_0000_0000) / b;
        Fixed { raw: saturated(q, (self.raw < 0) != (rhs.raw < 0)) }
    }

    fn sqrt(self) -> (r: Self) {
        if self.raw <= 0 {
            return Fixed { raw: 0 };
        }
        let x: u128 = (self.raw as u128) * 0x1_0000_0000;
        let root: u128 = root_of(x);
        proof {
            lemma_integer_root_is_unique(self.raw * SCALE, root as int);
        }
        Fixed { raw: root as i64 }
    }

    fn lt(self, rhs: Self) -> (r: bool) {
        self.raw < rhs.raw
    }
}

impl Fixed {
    /// The number `raw / 2^32`.
    pub fn from_raw(raw: i64) -> (r: Self)
        ensures
            r.raw == raw,
    {
        Fixed { raw }
    }

    /// The whole number `n`.
    pub fn from_integer(n: i32) -> (r: Self)
        ensures
            r.raw == n * SCALE,
    {
        assert(i64::MIN <= n * SCALE <= i64::MAX) by (nonlinear_arith)
            requires
                -0x8000_0000 <= n < 0x8000_0000,
                SCALE == 0x1_0000_0000,
        ;
        Fixed { raw: (n as i64) * SCALE }
    }
}

/// On `Fixed`, adding zero changes nothing.
pub proof fn lemma_fixed_zero_is_neutral()
    ensures
        zero_is_neutral::<Fixed>(),
{
}

} // verus!
