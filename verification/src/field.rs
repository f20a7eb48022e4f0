//! The numeric kernel and the Numerov field solver.
//!
//! [`integrate`] computes the real part of `h^D` times the sum of all
//! samples of a grid — the Riemann-sum approximation of the integral
//! over the `D`-dimensional domain.  [`normalize`] divides a grid by its
//! integral, failing exactly when that integral is zero.  [`Field`]
//! holds the domain geometry and traces a bound-state-like solution of
//! y'' = -g(x) y(x) with g(x) = e - v(x) by the Numerov three-term
//! recursion, then divides the sequence by its discrete L2 norm.

use vstd::prelude::*;

use crate::complex::{
    C, CV, c_add_v, c_conj_v, c_div_real_v, c_mul_v, c_scale_v, c_sub_v, c_zero_v, cv_in_range,
};
use crate::fx::{
    FX_FIVE, FX_ONE, FX_TWO, FX_TWELVE, Fx, fx_add_v, fx_clip, fx_div_v, fx_mul_v, fx_neg_v,
    fx_sqrt_v, fx_sub_v, lemma_mag_mul, lemma_tdiv_scale_cancel, lemma_tdiv_zero,
};
use crate::grid::Grid;
use vstd::arithmetic::div_mod::{lemma_div_basics_1, lemma_div_is_ordered, lemma_div_multiples_vanish};

verus! {

/// A complex sample from its real and imaginary parts.
#[allow(non_snake_case)]
pub fn C_(alpha: Fx, beta: Fx) -> (c: C)
    ensures
        c@ == (CV { re: alpha@, im: beta@ }),
{
    C { re: alpha, im: beta }
}

/// `h` raised to the dimensionality `d` (at most three axes).
pub open spec fn fx_powd_v(h: int, d: nat) -> int {
    if d == 0 {
        FX_ONE as int
    } else if d == 1 {
        h
    } else if d == 2 {
        fx_mul_v(h, h)
    } else {
        fx_mul_v(fx_mul_v(h, h), h)
    }
}

fn fx_powd(h: Fx, d: usize) -> (r: Fx)
    requires
        d <= 3,
    ensures
        r@ == fx_powd_v(h@, d as nat),
{
    if d == 0 {
        Fx::one()
    } else if d == 1 {
        h
    } else if d == 2 {
        h.mul(h)
    } else {
        h.mul(h).mul(h)
    }
}

/// Sum of all samples, each scaled by the real factor `s`.
pub open spec fn wsum_v(cells: Seq<CV>, s: int) -> CV
    decreases cells.len(),
{
    if cells.len() == 0 {
        c_zero_v()
    } else {
        c_add_v(wsum_v(cells.drop_last(), s), c_scale_v(cells.last(), s))
    }
}

/// The discrete integral: real part of `h^ndim` times the sum of all
/// samples.
pub open spec fn integrate_v(cells: Seq<CV>, ndim: nat, h: int) -> int {
    wsum_v(cells, fx_powd_v(h, ndim)).re
}

/// Elementwise division by the discrete integral; `None` exactly when
/// that integral is zero.
pub open spec fn normalize_v(cells: Seq<CV>, ndim: nat, h: int) -> Option<Seq<CV>> {
    let denom = integrate_v(cells, ndim, h);
    if denom == 0 {
        None
    } else {
        Some(Seq::new(cells.len(), |i: int| c_div_real_v(cells[i], denom)))
    }
}

proof fn lemma_wsum_take_step(cells: Seq<CV>, s: int, i: int)
    requires
        0 <= i < cells.len(),
    ensures
        wsum_v(cells.take(i + 1), s) == c_add_v(wsum_v(cells.take(i), s), c_scale_v(cells[i], s)),
{
    assert(cells.take(i + 1).drop_last() =~= cells.take(i));
    assert(cells.take(i + 1).last() == cells[i]);
}

/// Integrate over the grid `y`, assuming uniform inter-point distance
/// `h` along every axis: the real part of `h^D * sum(all samples)`.
pub fn integrate(y: &Grid, h: Fx) -> (r: Fx)
    requires
        y.wf(),
    ensures
        r@ == integrate_v(y.cells(), y.dims@.len() as nat, h@),
{
    let hd = fx_powd(h, y.ndim());
    let n = y.len();
    let mut acc = C::zero();
    let mut i: usize = 0;
    while i < n
        invariant
            i <= n,
            n == y.data@.len(),
            hd@ == fx_powd_v(h@, y.dims@.len() as nat),
            acc@ == wsum_v(y.cells().take(i as int), hd@),
        decreases n - i,
    {
        let c = y.at(i);
        proof {
            lemma_wsum_take_step(y.cells(), hd@, i as int);
        }
        acc = acc.add(c.scale(hd));
        i += 1;
    }
    proof {
        assert(y.cells().take(n as int) =~= y.cells());
    }
    acc.re
}

/// Normalizes a grid to unit integral.  Fails with `None` (the empty
/// integral condition) exactly when the integral is zero — an exact
/// comparison, not a tolerance check — and otherwise returns a fresh
/// grid with every sample divided by the integral.  The input grid is
/// never changed.
pub fn normalize(y: &Grid, h: Fx) -> (r: Option<Grid>)
    requires
        y.wf(),
    ensures
        match r {
            None => normalize_v(y.cells(), y.dims@.len() as nat, h@) is None,
            Some(g) => {
                &&& g.wf()
                &&& g.dims@ == y.dims@
                &&& normalize_v(y.cells(), y.dims@.len() as nat, h@) == Some(g.cells())
            },
        },
{
    let denom = integrate(y, h);
    if denom.raw() == 0 {
        None
    } else {
        let n = y.len();
        let mut data: Vec<C> = Vec::new();
        let mut i: usize = 0;
        while i < n
            invariant
                i <= n,
                n == y.data@.len(),
                data@.len() == i,
                denom@ == integrate_v(y.cells(), y.dims@.len() as nat, h@),
                forall|j: int|
                    0 <= j < i ==> (#[trigger] data@[j])@ == c_div_real_v(y.cells()[j], denom@),
            decreases n - i,
        {
            data.push(y.at(i).div_real(denom));
            i += 1;
        }
        let dims = y.clone_dims();
        let g = Grid { data, dims };
        proof {
            assert(g.cells() =~= Seq::new(
                y.cells().len(),
                |j: int| c_div_real_v(y.cells()[j], integrate_v(y.cells(), y.dims@.len() as nat, h@)),
            ));
        }
        Some(g)
    }
}

/// A caller-supplied potential: a pure, deterministic function from a
/// coordinate to a potential energy.  Each implementation fixes its own
/// mathematical description `at_spec`, and `at` must return exactly
/// that value.
pub trait Potential {
    spec fn at_spec(&self, x: int) -> int;

    fn at(&self, x: Fx) -> (r: Fx)
        ensures
            r@ == self.at_spec(x@),
    ;
}

/// The zero potential v(x) = 0: a free particle in a box.
pub struct ZeroPotential;

impl Potential for ZeroPotential {
    open spec fn at_spec(&self, x: int) -> int {
        0
    }

    fn at(&self, x: Fx) -> (r: Fx) {
        Fx::zero()
    }
}

/// g(x) = e - v(x).
pub open spec fn g_v<P: Potential>(p: P, e: int, x: int) -> int {
    fx_sub_v(e, p.at_spec(x))
}

/// The uniform spacing h = 2 * xsize / gran.
pub open spec fn hv(xsize: int, gran: nat) -> int {
    fx_div_v(fx_add_v(xsize, xsize), fx_clip(gran * (FX_ONE as int)))
}

/// h^2 / 12, the weight of the Numerov correction terms.
pub open spec fn h2_12_v(xsize: int, gran: nat) -> int {
    fx_div_v(fx_mul_v(hv(xsize, gran), hv(xsize, gran)), FX_TWELVE as int)
}

/// The i-th of `gran` uniformly spaced coordinates from -xsize to
/// +xsize inclusive.
pub open spec fn axis_at(xsize: int, gran: nat, i: int) -> int {
    fx_add_v(fx_neg_v(xsize), (i * fx_add_v(xsize, xsize)) / (gran - 1))
}

/// The correction coefficient (h^2/12) * 2 * g(x) at one coordinate.
pub open spec fn qcoef_v<P: Potential>(p: P, e: int, h2_12: int, x: int) -> int {
    fx_mul_v(h2_12, fx_mul_v(FX_TWO as int, g_v(p, e, x)))
}

/// One Numerov step: the next sample from the previous two, with q0,
/// q1, q2 the correction coefficients at the current, previous and
/// second-previous coordinates.
pub open spec fn step_v(y1: CV, y2: CV, q0: int, q1: int, q2: int) -> CV {
    c_div_real_v(
        c_sub_v(
            c_scale_v(
                y1,
                fx_mul_v(FX_TWO as int, fx_sub_v(FX_ONE as int, fx_mul_v(FX_FIVE as int, q1))),
            ),
            c_scale_v(y2, fx_add_v(FX_ONE as int, q2)),
        ),
        fx_add_v(FX_ONE as int, q0),
    )
}

/// The unnormalized Numerov sequence, sample by sample: zero at the
/// two coordinates exactly equal to -xsize or +xsize (the Dirichlet
/// boundary), the seed h at index 1, and the three-term recursion at
/// every later index.
pub open spec fn numerov_at<P: Potential>(p: P, xsize: int, gran: nat, e: int, i: int) -> CV
    decreases i,
{
    let x = axis_at(xsize, gran, i);
    if x == xsize || x == fx_neg_v(xsize) {
        c_zero_v()
    } else if i == 1 {
        CV { re: hv(xsize, gran), im: 0 }
    } else if i < 2 {
        c_zero_v()
    } else {
        let w = h2_12_v(xsize, gran);
        step_v(
            numerov_at(p, xsize, gran, e, i - 1),
            numerov_at(p, xsize, gran, e, i - 2),
            qcoef_v(p, e, w, x),
            qcoef_v(p, e, w, axis_at(xsize, gran, i - 1)),
            qcoef_v(p, e, w, axis_at(xsize, gran, i - 2)),
        )
    }
}

/// The whole unnormalized sequence.
pub open spec fn numerov_seq<P: Potential>(p: P, xsize: int, gran: nat, e: int) -> Seq<CV> {
    Seq::new(gran, |i: int| numerov_at(p, xsize, gran, e, i))
}

/// The discrete L2 norm of the unnormalized sequence: the square root
/// of the integral of conj(y) * y.
pub open spec fn solve_norm_v<P: Potential>(p: P, xsize: int, gran: nat, e: int) -> int {
    let raw = numerov_seq(p, xsize, gran, e);
    let prods = Seq::new(raw.len(), |i: int| c_mul_v(c_conj_v(raw[i]), raw[i]));
    fx_sqrt_v(integrate_v(prods, 1, hv(xsize, gran)))
}

/// The solver's result: the unnormalized sequence divided elementwise
/// by its discrete L2 norm.
pub open spec fn solve_spec<P: Potential>(p: P, xsize: int, gran: nat, e: int) -> Seq<CV> {
    let raw = numerov_seq(p, xsize, gran, e);
    let a = solve_norm_v(p, xsize, gran, e);
    Seq::new(raw.len(), |i: int| c_div_real_v(raw[i], a))
}

/// Solver configuration: the half-width of the symmetric domain
/// [-xsize, +xsize] and the number of sample points, fixed after
/// construction.
#[derive(Debug)]
pub struct Field {
    xsize: Fx,
    gran: usize,
}

impl Field {
    pub closed spec fn xsize_spec(&self) -> int {
        self.xsize@
    }

    pub closed spec fn gran_spec(&self) -> nat {
        self.gran as nat
    }

    /// A positive half-width and at least two sample points.
    pub closed spec fn wf(&self) -> bool {
        0 < self.xsize@ && 2 <= self.gran < 0x8000_0000
    }

    /// A solver over the symmetric domain [-xsize, +xsize], sampled at
    /// the default 100 points.
    pub fn init(xsize: Fx) -> (f: Field)
        requires
            xsize@ > 0,
        ensures
            f.wf(),
            f.xsize_spec() == xsize@,
            f.gran_spec() == 100,
    {
        Field { xsize, gran: 100 }
    }

    /// Traces the Numerov recursion over `gran` uniformly spaced points
    /// from -xsize to +xsize inclusive — zero at the boundary
    /// coordinates, the seed h at index 1, the three-term step at every
    /// later index — then divides the whole sequence by its discrete L2
    /// norm.  The result is exactly `solve_spec`.
    ///
    /// Unlike [`normalize`], this final division is not guarded: a zero
    /// norm divides through as the saturating fixed-point division
    /// (each sample pushed to the representable extreme of its sign)
    /// rather than being reported as a failure.
    #[allow(non_snake_case)]
    #[verifier::loop_isolation(false)]
    pub fn solve_step_1D<P: Potential>(&self, v: &P, e: Fx) -> (out: Grid)
        requires
            self.wf(),
        ensures
            out.wf(),
            out.dims@.len() == 1,
            out.dims@[0] as nat == self.gran_spec(),
            out.cells() == solve_spec(*v, self.xsize_spec(), self.gran_spec(), e@),
    {
        let ghost gx = self.xsize_spec();
        let ghost gg = self.gran_spec();
        let gran = self.gran;
        let xs = self.xsize;
        let neg_x = xs.neg();
        let txs = xs.add(xs);
        let gran_fx = Fx::from_int(gran as i64);
        let h = txs.div(gran_fx);
        let one = Fx::from_raw(FX_ONE);
        let two = Fx::from_raw(FX_TWO);
        let five = Fx::from_raw(FX_FIVE);
        let twelve = Fx::from_raw(FX_TWELVE);
        let w = h.mul(h).div(twelve);
        proof {
            assert(txs@ > 0);
            assert(h@ == hv(gx, gg));
            assert(w@ == h2_12_v(gx, gg));
        }
        let mut axis: Vec<Fx> = Vec::new();
        let mut i: usize = 0;
        while i < gran
            invariant
                i <= gran,
                axis@.len() == i,
                forall|j: int| 0 <= j < i ==> (#[trigger] axis@[j])@ == axis_at(gx, gg, j),
            decreases gran - i,
        {
            proof {
                assert((i as int) * (txs@) <= ((gran - 1) as int) * (txs@)) by (nonlinear_arith)
                    requires 0 <= i as int <= (gran - 1) as int && txs@ > 0;
                lemma_div_is_ordered((i as int) * (txs@), ((gran - 1) as int) * (txs@),
                    (gran - 1) as int);
                lemma_div_multiples_vanish(txs@, (gran - 1) as int);
                assert((i as int) * (txs@) <= u128::MAX as int) by (nonlinear_arith)
                    requires
                        0 <= (i as int) < 0x8000_0000int,
                        0 < txs@,
                        txs@ <= i64::MAX as int;
            }
            let ti: u128 = (i as u128) * (txs.raw() as u128);
            let q: u128 = ti / ((gran - 1) as u128);
            let x = neg_x.add(Fx::from_raw(q as i64));
            proof {
                assert(x@ == axis_at(gx, gg, i as int));
            }
            axis.push(x);
            i += 1;
        }
        let mut data: Vec<C> = Vec::new();
        let mut i: usize = 0;
        while i < gran
            invariant
                i <= gran,
                data@.len() == i,
                forall|j: int| 0 <= j < i ==> (#[trigger] data@[j])@ == numerov_at(*v, gx, gg, e@, j),
            decreases gran - i,
        {
            let x = axis[i];
            if x.raw() == xs.raw() || x.raw() == neg_x.raw() {
                data.push(C::zero());
            } else if i == 1 {
                data.push(C_(h, Fx::zero()));
            } else {
                proof {
                    lemma_div_basics_1((gran - 1) as int);
                    assert(axis_at(gx, gg, 0) == fx_neg_v(gx));
                    assert(i >= 2);
                }
                let x1 = axis[i - 1];
                let x2 = axis[i - 2];
                let y1 = data[i - 1];
                let y2 = data[i - 2];
                let g0 = e.sub(v.at(x));
                let g1 = e.sub(v.at(x1));
                let g2 = e.sub(v.at(x2));
                let q0 = w.mul(two.mul(g0));
                let q1 = w.mul(two.mul(g1));
                let q2 = w.mul(two.mul(g2));
                let c1 = two.mul(one.sub(five.mul(q1)));
                let t = y1.scale(c1).sub(y2.scale(one.add(q2)));
                let yn = t.div_real(one.add(q0));
                data.push(yn);
                proof {
                    assert(data@[i as int]@ == numerov_at(*v, gx, gg, e@, i as int));
                }
            }
            i += 1;
        }
        let mut prods: Vec<C> = Vec::new();
        let mut i: usize = 0;
        while i < gran
            invariant
                i <= gran,
                prods@.len() == i,
                forall|j: int| 0 <= j < i ==> (#[trigger] prods@[j])@
                    == c_mul_v(c_conj_v(numerov_at(*v, gx, gg, e@, j)), numerov_at(*v, gx, gg, e@, j)),
            decreases gran - i,
        {
            let c = data[i];
            prods.push(c.conj().mul(c));
            i += 1;
        }
        let pg = Grid::from_vec_1d(prods);
        let norm = integrate(&pg, h);
        let a = norm.sqrt();
        proof {
            assert(pg.cells() =~= Seq::new(
                numerov_seq(*v, gx, gg, e@).len(),
                |j: int| c_mul_v(
                    c_conj_v(numerov_seq(*v, gx, gg, e@)[j]),
                    numerov_seq(*v, gx, gg, e@)[j],
                ),
            ));
            assert(a@ == solve_norm_v(*v, gx, gg, e@));
        }
        let mut res: Vec<C> = Vec::new();
        let mut i: usize = 0;
        while i < gran
            invariant
                i <= gran,
                res@.len() == i,
                forall|j: int| 0 <= j < i ==> (#[trigger] res@[j])@
                    == c_div_real_v(numerov_at(*v, gx, gg, e@, j), solve_norm_v(*v, gx, gg, e@)),
            decreases gran - i,
        {
            res.push(data[i].div_real(a));
            i += 1;
        }
        let out = Grid::from_vec_1d(res);
        proof {
            assert(out.cells() =~= solve_spec(*v, gx, gg, e@));
        }
        out
    }
}


proof fn lemma_scale_zero(s: int)
    ensures
        c_scale_v(c_zero_v(), s) == c_zero_v(),
{
    lemma_mag_mul(0, s);
    lemma_tdiv_zero(FX_ONE as int);
}

/// Scaling by exactly 1.0 changes nothing, for any representable sample.
pub proof fn lemma_scale_one(c: CV)
    requires
        cv_in_range(c),
    ensures
        c_scale_v(c, FX_ONE as int) == c,
{
    lemma_tdiv_scale_cancel(c.re);
    lemma_tdiv_scale_cancel(c.im);
}

/// Dividing by exactly 1.0 changes nothing, for any representable sample.
pub proof fn lemma_div_real_one(c: CV)
    requires
        cv_in_range(c),
    ensures
        c_div_real_v(c, FX_ONE as int) == c,
{
    lemma_tdiv_scale_cancel(c.re);
    lemma_tdiv_scale_cancel(c.im);
}

proof fn lemma_powd_one(d: nat)
    requires
        d <= 3,
    ensures
        fx_powd_v(FX_ONE as int, d) == FX_ONE as int,
{
    lemma_tdiv_scale_cancel(FX_ONE as int);
}

proof fn lemma_wsum_all_zero(cells: Seq<CV>, s: int)
    requires
        forall|i: int| 0 <= i < cells.len() ==> cells[i] == c_zero_v(),
    ensures
        wsum_v(cells, s) == c_zero_v(),
    decreases cells.len(),
{
    if cells.len() > 0 {
        lemma_wsum_all_zero(cells.drop_last(), s);
        lemma_scale_zero(s);
    }
}

proof fn lemma_wsum_single(cells: Seq<CV>, s: int, k: int)
    requires
        0 <= k < cells.len(),
        forall|i: int| 0 <= i < cells.len() && i != k ==> cells[i] == c_zero_v(),
    ensures
        wsum_v(cells, s) == c_scale_v(cells[k], s),
    decreases cells.len(),
{
    if k == cells.len() - 1 {
        lemma_wsum_all_zero(cells.drop_last(), s);
    } else {
        lemma_wsum_single(cells.drop_last(), s, k);
        lemma_scale_zero(s);
    }
}

/// Law: a grid of zero samples has zero integral, so normalization
/// rejects it with the empty-integral failure, whatever the spacing and
/// the dimensionality.
pub proof fn lemma_normalize_all_zero(cells: Seq<CV>, ndim: nat, h: int)
    requires
        forall|i: int| 0 <= i < cells.len() ==> cells[i] == c_zero_v(),
    ensures
        integrate_v(cells, ndim, h) == 0,
        normalize_v(cells, ndim, h) is None,
{
    lemma_wsum_all_zero(cells, fx_powd_v(h, ndim));
}

/// Law: at unit spacing, a grid with at most one nonzero sample
/// integrates to exactly that sample's real part; normalization then
/// fails exactly when that real part is zero, and otherwise divides
/// every sample — in particular the nonzero one — by it.
pub proof fn lemma_normalize_single_sample(cells: Seq<CV>, ndim: nat, k: int)
    requires
        1 <= ndim <= 3,
        0 <= k < cells.len(),
        cv_in_range(cells[k]),
        forall|i: int| 0 <= i < cells.len() && i != k ==> cells[i] == c_zero_v(),
    ensures
        integrate_v(cells, ndim, FX_ONE as int) == cells[k].re,
        (normalize_v(cells, ndim, FX_ONE as int) is None) <==> (cells[k].re == 0),
        cells[k].re != 0 ==> normalize_v(cells, ndim, FX_ONE as int) == Some(
            Seq::new(cells.len(), |i: int| c_div_real_v(cells[i], cells[k].re)),
        ),
{
    lemma_powd_one(ndim);
    lemma_wsum_single(cells, FX_ONE as int, k);
    lemma_scale_one(cells[k]);
    if cells[k].re != 0 {
        assert(Seq::new(cells.len(), |i: int| c_div_real_v(cells[i], integrate_v(cells, ndim, FX_ONE as int)))
            =~= Seq::new(cells.len(), |i: int| c_div_real_v(cells[i], cells[k].re)));
    }
}

/// Law: a grid whose integral is exactly one is returned unchanged by
/// normalization, so applying it twice yields exactly what applying it
/// once yields.
pub proof fn lemma_normalize_unit_integral(cells: Seq<CV>, ndim: nat, h: int)
    requires
        integrate_v(cells, ndim, h) == FX_ONE as int,
        forall|i: int| 0 <= i < cells.len() ==> cv_in_range(#[trigger] cells[i]),
    ensures
        normalize_v(cells, ndim, h) == Some(cells),
{
    assert forall|i: int| 0 <= i < cells.len() implies Seq::new(
        cells.len(),
        |j: int| c_div_real_v(cells[j], integrate_v(cells, ndim, h)),
    )[i] == cells[i] by {
        lemma_div_real_one(cells[i]);
    }
    assert(Seq::new(cells.len(), |j: int| c_div_real_v(cells[j], integrate_v(cells, ndim, h)))
        =~= cells);
}

/// Law: the solver's boundary samples — at the coordinates exactly
/// equal to -xsize and +xsize — are exactly zero, both before and after
/// the final division by the norm.  (The bound on xsize keeps the
/// domain width representable; a half-width at the very top of the
/// range saturates and moves the right endpoint.)
pub proof fn lemma_solve_boundary_zero<P: Potential>(p: P, xsize: int, gran: nat, e: int)
    requires
        0 < xsize,
        xsize + xsize <= i64::MAX,
        2 <= gran,
    ensures
        solve_spec(p, xsize, gran, e)[0] == c_zero_v(),
        solve_spec(p, xsize, gran, e)[gran - 1] == c_zero_v(),
{
    lemma_div_basics_1((gran - 1) as int);
    assert(axis_at(xsize, gran, 0) == fx_neg_v(xsize));
    lemma_div_multiples_vanish(fx_add_v(xsize, xsize), (gran - 1) as int);
    assert(axis_at(xsize, gran, gran - 1) == xsize);
    assert(numerov_at(p, xsize, gran, e, 0) == c_zero_v());
    assert(numerov_at(p, xsize, gran, e, gran - 1) == c_zero_v());
    let a = solve_norm_v(p, xsize, gran, e);
    if a != 0 {
        lemma_tdiv_zero(a);
    }
    assert(c_div_real_v(c_zero_v(), a) == c_zero_v());
}

/// Law: the solver is deterministic.  Its whole result is a function of
/// the configuration, the potential and the energy alone: two results
/// under identical inputs are one and the same sequence.
pub proof fn lemma_solve_deterministic<P: Potential>(
    p: P,
    xsize: int,
    gran: nat,
    e: int,
    first: Seq<CV>,
    second: Seq<CV>,
)
    requires
        first == solve_spec(p, xsize, gran, e),
        second == solve_spec(p, xsize, gran, e),
    ensures
        first == second,
{
}


} // verus!
