//! Fixed-point real scalars.
//!
//! An [`Fx`] stores a real number as a signed 64-bit count of steps of
//! size 2^-32.  Every operation is total: a result that falls outside the
//! representable range saturates at the nearest bound, and division by
//! zero saturates by the sign of the numerator (the fixed-point analogue
//! of an infinity).  The exact value of each operation is given by a spec
//! function over the raw integer representation.

use vstd::prelude::*;

verus! {

/// Number of raw units per 1.0 (2^32).
pub const FX_ONE: i64 = 0x1_0000_0000;

/// Raw representation of 2.0.
pub const FX_TWO: i64 = 0x2_0000_0000;

/// Raw representation of 5.0.
pub const FX_FIVE: i64 = 0x5_0000_0000;

/// Raw representation of 12.0.
pub const FX_TWELVE: i64 = 0xC_0000_0000;

/// Magnitude of an integer, as a natural number.
pub open spec fn mag(x: int) -> nat {
    if x < 0 {
        (-x) as nat
    } else {
        x as nat
    }
}

/// Division truncating toward zero (the usual machine division),
/// meaningful for d != 0.
pub open spec fn tdiv(p: int, d: int) -> int {
    if (p < 0) == (d < 0) {
        (mag(p) / mag(d)) as int
    } else {
        -((mag(p) / mag(d)) as int)
    }
}

/// Saturation of an unbounded result into the i64 range.
pub open spec fn fx_clip(x: int) -> int {
    if x > i64::MAX {
        i64::MAX as int
    } else if x < i64::MIN {
        i64::MIN as int
    } else {
        x
    }
}

pub open spec fn fx_add_v(a: int, b: int) -> int {
    fx_clip(a + b)
}

pub open spec fn fx_sub_v(a: int, b: int) -> int {
    fx_clip(a - b)
}

pub open spec fn fx_neg_v(a: int) -> int {
    fx_clip(-a)
}

pub open spec fn fx_mul_v(a: int, b: int) -> int {
    fx_clip(tdiv(a * b, FX_ONE as int))
}

pub open spec fn fx_div_v(a: int, b: int) -> int {
    if b == 0 {
        if a > 0 {
            i64::MAX as int
        } else if a < 0 {
            i64::MIN as int
        } else {
            0
        }
    } else {
        fx_clip(tdiv(a * (FX_ONE as int), b))
    }
}

/// r is the floor of the square root of n.
pub open spec fn is_isqrt(n: int, r: int) -> bool {
    0 <= r && r * r <= n && n < (r + 1) * (r + 1)
}

pub open spec fn isqrt_v(n: int) -> int {
    choose|r: int| is_isqrt(n, r)
}

/// Square root in raw units: floor(sqrt(a * 2^32)); zero for a <= 0.
pub open spec fn fx_sqrt_v(a: int) -> int {
    if a <= 0 {
        0
    } else {
        isqrt_v(a * (FX_ONE as int))
    }
}

/// A fixed-point real number: `raw` counts steps of 2^-32.
#[derive(Clone, Copy, Debug, PartialEq, Eq, Structural)]
pub struct Fx {
    pub(crate) raw: i64,
}

impl View for Fx {
    type V = int;

    closed spec fn view(&self) -> int {
        self.raw as int
    }
}

/// The magnitude of a product is the product of the magnitudes, and the
/// product's sign is determined by the factors' signs.
pub proof fn lemma_mag_mul(a: int, b: int)
    ensures
        mag(a * b) == mag(a) * mag(b),
        (a * b == 0) == (a == 0 || b == 0),
        (a * b < 0) == (a != 0 && b != 0 && ((a < 0) != (b < 0))),
{
    if a == 0 || b == 0 {
        assert(a * b == 0) by (nonlinear_arith)
            requires a == 0 || b == 0;
        assert(mag(a) * mag(b) == 0) by (nonlinear_arith)
            requires mag(a) == 0 || mag(b) == 0;
    } else if a > 0 && b > 0 {
        assert(a * b > 0) by (nonlinear_arith)
            requires a > 0 && b > 0;
    } else if a > 0 && b < 0 {
        assert(a * b < 0 && -(a * b) == a * (-b)) by (nonlinear_arith)
            requires a > 0 && b < 0;
    } else if a < 0 && b > 0 {
        assert(a * b < 0 && -(a * b) == (-a) * b) by (nonlinear_arith)
            requires a < 0 && b > 0;
    } else {
        assert(a * b > 0 && a * b == (-a) * (-b)) by (nonlinear_arith)
            requires a < 0 && b < 0;
    }
}

/// Dividing a multiple of 2^32 by 2^32 recovers the factor exactly.
pub proof fn lemma_tdiv_scale_cancel(a: int)
    ensures
        tdiv(a * (FX_ONE as int), FX_ONE as int) == a,
{
    lemma_mag_mul(a, FX_ONE as int);
    assert(mag(a) * mag(FX_ONE as int) / mag(FX_ONE as int) == mag(a)) by (nonlinear_arith)
        requires mag(FX_ONE as int) > 0;
}

/// Zero divided by anything nonzero is zero.
pub proof fn lemma_tdiv_zero(d: int)
    requires
        d != 0,
    ensures
        tdiv(0, d) == 0,
{
    assert(mag(0int) == 0);
    vstd::arithmetic::div_mod::lemma_div_basics_1(mag(d) as int);
}

proof fn lemma_isqrt_unique(n: int, r1: int, r2: int)
    requires
        is_isqrt(n, r1),
        is_isqrt(n, r2),
    ensures
        r1 == r2,
{
    if r1 < r2 {
        assert((r1 + 1) * (r1 + 1) <= r2 * r2) by (nonlinear_arith)
            requires 0 <= r1 && r1 + 1 <= r2;
    }
    if r2 < r1 {
        assert((r2 + 1) * (r2 + 1) <= r1 * r1) by (nonlinear_arith)
            requires 0 <= r2 && r2 + 1 <= r1;
    }
}

fn mag64(x: i64) -> (m: u128)
    ensures
        m as int == mag(x as int),
        m <= 0x8000_0000_0000_0000u128,
{
    if x < 0 {
        (-(x as i128)) as u128
    } else {
        x as u128
    }
}

fn clamp_mag(q: u128, neg: bool) -> (r: i64)
    ensures
        r as int == fx_clip(if neg { -(q as int) } else { q as int }),
{
    if neg {
        if q >= 0x8000_0000_0000_0000u128 {
            i64::MIN
        } else {
            -(q as i64)
        }
    } else {
        if q > 0x7fff_ffff_ffff_ffffu128 {
            i64::MAX
        } else {
            q as i64
        }
    }
}

fn clamp_i128(x: i128) -> (r: i64)
    ensures
        r as int == fx_clip(x as int),
{
    if x > i64::MAX as i128 {
        i64::MAX
    } else if x < i64::MIN as i128 {
        i64::MIN
    } else {
        x as i64
    }
}

fn isqrt_u128(n: u128) -> (r: u128)
    ensures
        is_isqrt(n as int, r as int),
{
    let mut lo: u128 = 0;
    let mut hi: u128 = 0x1_0000_0000_0000_0000u128;
    proof {
        assert((0x1_0000_0000_0000_0000u128 as int) * (0x1_0000_0000_0000_0000u128 as int)
            > u128::MAX as int) by (nonlinear_arith);
    }
    while lo + 1 < hi
        invariant
            lo < hi,
            hi <= 0x1_0000_0000_0000_0000u128,
            (lo as int) * (lo as int) <= n as int,
            (n as int) < (hi as int) * (hi as int),
        decreases hi - lo,
    {
        let mid: u128 = lo + (hi - lo) / 2;
        proof {
            assert((mid as int) * (mid as int) <= u128::MAX as int) by (nonlinear_arith)
                requires mid < 0x1_0000_0000_0000_0000u128;
        }
        if mid * mid <= n {
            lo = mid;
        } else {
            hi = mid;
        }
    }
    lo
}

impl Fx {
    /// The raw representation: this value times 2^-32 is the number held.
    pub fn raw(self) -> (r: i64)
        ensures
            r as int == self@,
    {
        self.raw
    }

    /// Builds the number `raw` * 2^-32.
    pub fn from_raw(raw: i64) -> (r: Fx)
        ensures
            r@ == raw as int,
    {
        Fx { raw }
    }

    /// The integer `n`, saturated into the representable range.
    pub fn from_int(n: i64) -> (r: Fx)
        ensures
            r@ == fx_clip(n * (FX_ONE as int)),
    {
        let m = mag64(n);
        proof {
            lemma_mag_mul(n as int, FX_ONE as int);
            assert(m as int * (FX_ONE as int) <= 0x8000_0000_0000_0000_0000_0000i128 as int)
                by (nonlinear_arith)
                requires m <= 0x8000_0000_0000_0000u128;
        }
        let q: u128 = m * 0x1_0000_0000u128;
        Fx { raw: clamp_mag(q, n < 0) }
    }

    pub fn zero() -> (r: Fx)
        ensures
            r@ == 0,
    {
        Fx { raw: 0 }
    }

    pub fn one() -> (r: Fx)
        ensures
            r@ == FX_ONE as int,
    {
        Fx { raw: FX_ONE }
    }

    pub fn neg(self) -> (r: Fx)
        ensures
            r@ == fx_neg_v(self@),
    {
        Fx { raw: clamp_i128(-(self.raw as i128)) }
    }

    pub fn add(self, o: Fx) -> (r: Fx)
        ensures
            r@ == fx_add_v(self@, o@),
    {
        Fx { raw: clamp_i128(self.raw as i128 + o.raw as i128) }
    }

    pub fn sub(self, o: Fx) -> (r: Fx)
        ensures
            r@ == fx_sub_v(self@, o@),
    {
        Fx { raw: clamp_i128(self.raw as i128 - o.raw as i128) }
    }

    pub fn mul(self, o: Fx) -> (r: Fx)
        ensures
            r@ == fx_mul_v(self@, o@),
    {
        let ma = mag64(self.raw);
        let mb = mag64(o.raw);
        proof {
            lemma_mag_mul(self.raw as int, o.raw as int);
            assert(ma as int * mb as int <= u128::MAX as int) by (nonlinear_arith)
                requires
                    ma <= 0x8000_0000_0000_0000u128,
                    mb <= 0x8000_0000_0000_0000u128;
        }
        let q: u128 = (ma * mb) / 0x1_0000_0000u128;
        let neg = (self.raw < 0) != (o.raw < 0);
        Fx { raw: clamp_mag(q, neg) }
    }

    pub fn div(self, o: Fx) -> (r: Fx)
        ensures
            r@ == fx_div_v(self@, o@),
    {
        if o.raw == 0 {
            if self.raw > 0 {
                Fx { raw: i64::MAX }
            } else if self.raw < 0 {
                Fx { raw: i64::MIN }
            } else {
                Fx { raw: 0 }
            }
        } else {
            let ma = mag64(self.raw);
            let mb = mag64(o.raw);
            proof {
                lemma_mag_mul(self.raw as int, FX_ONE as int);
                assert(ma as int * (FX_ONE as int) <= u128::MAX as int) by (nonlinear_arith)
                    requires ma <= 0x8000_0000_0000_0000u128;
            }
            let num: u128 = ma * 0x1_0000_0000u128;
            let q: u128 = num / mb;
            let neg = (self.raw < 0) != (o.raw < 0);
            Fx { raw: clamp_mag(q, neg) }
        }
    }

    /// Floor of the square root; zero on non-positive input.
    pub fn sqrt(self) -> (r: Fx)
        ensures
            r@ == fx_sqrt_v(self@),
    {
        if self.raw <= 0 {
            return Fx { raw: 0 };
        }
        proof {
            assert((self.raw as int) * (FX_ONE as int) <= u128::MAX as int) by (nonlinear_arith)
                requires 0 < self.raw as int <= i64::MAX as int;
        }
        let n: u128 = (self.raw as u128) * 0x1_0000_0000u128;
        let s = isqrt_u128(n);
        proof {
            assert((s as int) < 0x8000_0000_0000_0000i128 as int) by (nonlinear_arith)
                requires
                    (s as int) * (s as int) <= n as int,
                    n as int <= (i64::MAX as int) * (FX_ONE as int),
                    (i64::MAX as int) * (FX_ONE as int) < 0x4000_0000_0000_0000_0000_0000_0000_0000i128 as int
                        * 1int;
            assert(is_isqrt(n as int, isqrt_v(n as int))) by {
                assert(is_isqrt(n as int, s as int));
            }
            lemma_isqrt_unique(n as int, s as int, isqrt_v(n as int));
        }
        Fx { raw: s as i64 }
    }
}

} // verus!
