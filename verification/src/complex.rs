//! Complex numbers over fixed-point reals.
//!
//! A [`C`] is a pair of [`Fx`] components.  Every operation's exact
//! result is given by a spec function over [`CV`], the mathematical view
//! of a complex sample (a pair of raw integer components).

use vstd::prelude::*;

use crate::fx::{Fx, fx_add_v, fx_div_v, fx_mul_v, fx_neg_v, fx_sub_v};

verus! {

/// Mathematical view of a complex sample: raw components as integers.
pub ghost struct CV {
    pub re: int,
    pub im: int,
}

pub open spec fn c_zero_v() -> CV {
    CV { re: 0, im: 0 }
}

pub open spec fn c_add_v(a: CV, b: CV) -> CV {
    CV { re: fx_add_v(a.re, b.re), im: fx_add_v(a.im, b.im) }
}

pub open spec fn c_sub_v(a: CV, b: CV) -> CV {
    CV { re: fx_sub_v(a.re, b.re), im: fx_sub_v(a.im, b.im) }
}

pub open spec fn c_conj_v(a: CV) -> CV {
    CV { re: a.re, im: fx_neg_v(a.im) }
}

pub open spec fn c_mul_v(a: CV, b: CV) -> CV {
    CV {
        re: fx_sub_v(fx_mul_v(a.re, b.re), fx_mul_v(a.im, b.im)),
        im: fx_add_v(fx_mul_v(a.re, b.im), fx_mul_v(a.im, b.re)),
    }
}

/// Scaling by a real factor, componentwise.
pub open spec fn c_scale_v(a: CV, s: int) -> CV {
    CV { re: fx_mul_v(a.re, s), im: fx_mul_v(a.im, s) }
}

/// Division by a real divisor, componentwise.
pub open spec fn c_div_real_v(a: CV, d: int) -> CV {
    CV { re: fx_div_v(a.re, d), im: fx_div_v(a.im, d) }
}

/// Both components fit the raw 64-bit representation.  Every sample a
/// grid actually holds satisfies this.
pub open spec fn cv_in_range(a: CV) -> bool {
    i64::MIN <= a.re <= i64::MAX && i64::MIN <= a.im <= i64::MAX
}

/// A complex sample: real and imaginary fixed-point components.
#[derive(Clone, Copy, Debug, PartialEq, Eq, Structural)]
pub struct C {
    pub re: Fx,
    pub im: Fx,
}

impl View for C {
    type V = CV;

    open spec fn view(&self) -> CV {
        CV { re: self.re@, im: self.im@ }
    }
}

impl C {
    pub fn zero() -> (r: C)
        ensures
            r@ == c_zero_v(),
    {
        C { re: Fx::zero(), im: Fx::zero() }
    }

    pub fn add(self, o: C) -> (r: C)
        ensures
            r@ == c_add_v(self@, o@),
    {
        C { re: self.re.add(o.re), im: self.im.add(o.im) }
    }

    pub fn sub(self, o: C) -> (r: C)
        ensures
            r@ == c_sub_v(self@, o@),
    {
        C { re: self.re.sub(o.re), im: self.im.sub(o.im) }
    }

    pub fn conj(self) -> (r: C)
        ensures
            r@ == c_conj_v(self@),
    {
        C { re: self.re, im: self.im.neg() }
    }

    pub fn mul(self, o: C) -> (r: C)
        ensures
            r@ == c_mul_v(self@, o@),
    {
        C {
            re: self.re.mul(o.re).sub(self.im.mul(o.im)),
            im: self.re.mul(o.im).add(self.im.mul(o.re)),
        }
    }

    pub fn scale(self, s: Fx) -> (r: C)
        ensures
            r@ == c_scale_v(self@, s@),
    {
        C { re: self.re.mul(s), im: self.im.mul(s) }
    }

    pub fn div_real(self, d: Fx) -> (r: C)
        ensures
            r@ == c_div_real_v(self@, d@),
    {
        C { re: self.re.div(d), im: self.im.div(d) }
    }
}

} // verus!
