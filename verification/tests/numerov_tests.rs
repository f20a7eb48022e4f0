use numerov::complex::C;
use numerov::field::{integrate, normalize, Field, ZeroPotential, C_};
use numerov::fx::Fx;
use numerov::grid::Grid;

const SCALE: f64 = 4294967296.0;

fn fx(x: f64) -> Fx {
    Fx::from_raw((x * SCALE).round() as i64)
}

fn to_f64(x: Fx) -> f64 {
    x.raw() as f64 / SCALE
}

fn c_zero() -> C {
    C_(Fx::zero(), Fx::zero())
}

fn gaussian1(x: f64) -> f64 {
    let pi = std::f64::consts::PI;
    (2.0 * pi).powf(-0.5) * (-0.5 * x * x).exp()
}

fn gaussian2(x: f64, y: f64) -> f64 {
    let pi = std::f64::consts::PI;
    (2.0 * pi).powf(-1.0) * (-0.5 * (x * x + y * y)).exp()
}

#[test]
fn field_basics() {
    let field = Field::init(fx(1.0));
    let _res = field.solve_step_1D(&ZeroPotential, fx(1.0));
}

#[test]
fn field_step() {
    let _field = Field::init(fx(2.0));
}

#[test]
fn state_sim() {}

#[test]
fn normalize_trivial() {
    let h = fx(1.0);
    // all-zero grids have no measure to normalize against

    let a1 = Grid::zeros1(10);
    assert!(normalize(&a1, h).is_none());

    let a2 = Grid::zeros2(10, 10);
    assert!(normalize(&a2, h).is_none());

    let a3 = Grid::zeros3(10, 10, 2);
    assert!(normalize(&a3, h).is_none());
}

#[test]
fn normalize_single_value() {
    let h = fx(1.0);
    // a single value gets renormalized so that the integral is 1

    let mut a1 = Grid::zeros1(10);
    a1.set(5, C_(fx(0.5), Fx::zero()));
    let n1 = normalize(&a1, h).unwrap();
    assert_eq!(n1.at(5), C_(fx(1.0), Fx::zero()));

    let mut a2 = Grid::zeros2(10, 10);
    let i2 = a2.idx2(5, 5);
    a2.set(i2, C_(fx(0.5), Fx::zero()));
    let n2 = normalize(&a2, h).unwrap();
    assert_eq!(n2.at(i2), C_(fx(1.0), Fx::zero()));

    let mut a3 = Grid::zeros3(10, 10, 2);
    let i3 = a3.idx3(5, 5, 1);
    a3.set(i3, C_(fx(0.5), Fx::zero()));
    let n3 = normalize(&a3, h).unwrap();
    assert_eq!(n3.at(i3), C_(fx(1.0), Fx::zero()));
}

#[test]
fn normalize_gaussian() {
    let n: usize = 1000;
    let (x0, xf) = (-4.0f64, 4.0f64);
    let h = (xf - x0) / n as f64;
    let step = (xf - x0) / (n - 1) as f64;

    // a univariate gaussian should renormalize to itself
    let mut g1 = Grid::zeros1(n);
    for i in 0..n {
        let x = x0 + i as f64 * step;
        g1.set(i, C_(fx(gaussian1(x)), Fx::zero()));
    }
    let g1_norm = normalize(&g1, fx(h)).unwrap();
    let mut mse = 0.0f64;
    for i in 0..n {
        let d = to_f64(g1_norm.at(i).re) - to_f64(g1.at(i).re);
        mse += d * d;
    }
    assert!(mse < 1e-4);

    // and normalizing a second time moves nearly nothing
    let g1_twice = normalize(&g1_norm, fx(h)).unwrap();
    let mut mse = 0.0f64;
    for i in 0..n {
        let d = to_f64(g1_twice.at(i).re) - to_f64(g1_norm.at(i).re);
        mse += d * d;
    }
    assert!(mse < 1e-4);

    // a bivariate gaussian should renormalize to itself
    let n: usize = 1000;
    let (x0, xf) = (-10.0f64, 10.0f64);
    let h = (xf - x0) / n as f64;
    let step = (xf - x0) / (n - 1) as f64;
    let mut g2 = Grid::zeros2(n, n);
    for i in 0..n {
        for j in 0..n {
            let xi = x0 + i as f64 * step;
            let xj = x0 + j as f64 * step;
            let k = g2.idx2(i, j);
            g2.set(k, C_(fx(gaussian2(xi, xj)), Fx::zero()));
        }
    }
    // once normalized, a second normalization is a near-identity:
    // the round trip stays within the same squared-error budget
    let g2_norm = normalize(&g2, fx(h)).unwrap();
    let g2_twice = normalize(&g2_norm, fx(h)).unwrap();
    let mut mse = 0.0f64;
    for i in 0..n {
        for j in 0..n {
            let k = g2.idx2(i, j);
            let d = to_f64(g2_twice.at(k).re) - to_f64(g2_norm.at(k).re);
            mse += d * d;
        }
    }
    assert!(mse < 1e-4);
}

#[test]
fn integrate_exact_value() {
    // h^1 * (1.0 + 3.0) at h = 0.5 is exactly 2.0
    let mut g = Grid::zeros1(2);
    g.set(0, C_(fx(1.0), Fx::zero()));
    g.set(1, C_(fx(3.0), Fx::zero()));
    let r = integrate(&g, fx(0.5));
    assert_eq!(r, fx(2.0));
}

#[test]
fn integrate_discards_imaginary_part() {
    // the imaginary content contributes nothing to the value returned
    let mut g = Grid::zeros1(2);
    g.set(0, C_(fx(1.0), fx(2.5)));
    g.set(1, C_(fx(3.0), fx(-2.5)));
    let r = integrate(&g, fx(1.0));
    assert_eq!(r, fx(4.0));
}

#[test]
fn normalize_cancelling_grid_fails() {
    // +1 and -1 cancel exactly: zero measure, the empty-integral failure
    let mut g = Grid::zeros1(2);
    g.set(0, C_(fx(1.0), Fx::zero()));
    g.set(1, C_(fx(-1.0), Fx::zero()));
    assert!(normalize(&g, fx(1.0)).is_none());
}

#[test]
fn normalize_does_not_mutate_input() {
    let mut g = Grid::zeros1(3);
    g.set(1, C_(fx(0.25), Fx::zero()));
    let _ = normalize(&g, fx(1.0)).unwrap();
    assert_eq!(g.at(1), C_(fx(0.25), Fx::zero()));
    assert_eq!(g.at(0), c_zero());
}

#[test]
fn normalize_unit_integral_is_identity() {
    // a grid already of unit integral is returned unchanged, so a
    // second application returns exactly what the first did
    let mut g = Grid::zeros1(4);
    g.set(2, C_(fx(1.0), Fx::zero()));
    let once = normalize(&g, fx(1.0)).unwrap();
    let twice = normalize(&once, fx(1.0)).unwrap();
    for i in 0..4 {
        assert_eq!(g.at(i), once.at(i));
        assert_eq!(once.at(i), twice.at(i));
    }
}

#[test]
fn solver_scenario_zero_potential() {
    // half-width 1.0, zero potential, e = 1.0: a 100-sample sequence
    // whose first and last samples are exactly 0 + 0i
    let field = Field::init(fx(1.0));
    let res = field.solve_step_1D(&ZeroPotential, fx(1.0));
    assert_eq!(res.len(), 100);
    assert_eq!(res.at(0), c_zero());
    assert_eq!(res.at(99), c_zero());
}

#[test]
fn solver_eigenstate_norm() {
    // for the square-well eigenvalues e = n^2 pi^2 / 8 the solved
    // sequence comes back with unit discrete L2 norm
    let pi = std::f64::consts::PI;
    let field = Field::init(fx(1.0));
    let h = fx(2.0 / 100.0);
    for n in 1..=3u32 {
        let e = (n * n) as f64 * pi * pi / 8.0;
        let res = field.solve_step_1D(&ZeroPotential, fx(e));
        assert_eq!(res.at(0), c_zero());
        assert_eq!(res.at(99), c_zero());
        let mut prods = Grid::zeros1(100);
        for i in 0..100 {
            let c = res.at(i);
            prods.set(i, c.conj().mul(c));
        }
        let a = integrate(&prods, h).sqrt();
        let a_final = to_f64(a);
        assert!((a_final - 1.0).abs() < 1e-3);
    }
}

#[test]
fn solver_deterministic() {
    // identical configuration, potential and energy: identical output
    let field = Field::init(fx(1.0));
    let e = fx(1.2337);
    let first = field.solve_step_1D(&ZeroPotential, e);
    let second = field.solve_step_1D(&ZeroPotential, e);
    assert_eq!(first.len(), second.len());
    for i in 0..first.len() {
        assert_eq!(first.at(i), second.at(i));
    }
}

#[test]
fn fx_arithmetic_exact() {
    assert_eq!(Fx::from_int(3).mul(Fx::from_int(2)), Fx::from_int(6));
    assert_eq!(Fx::from_int(6).div(Fx::from_int(3)), Fx::from_int(2));
    assert_eq!(Fx::from_int(4).sqrt(), Fx::from_int(2));
    assert_eq!(Fx::from_int(-1).sqrt(), Fx::zero());
    // truncation toward zero: 1/3 in raw units is floor(2^32 / 3)
    assert_eq!(Fx::one().div(Fx::from_int(3)).raw(), 1431655765);
    assert_eq!(Fx::from_int(7).sub(Fx::from_int(9)), Fx::from_int(-2));
    assert_eq!(Fx::from_int(-5).neg(), Fx::from_int(5));
}

#[test]
fn complex_arithmetic_exact() {
    // (1 + 2i)(3 + 4i) = -5 + 10i
    let a = C_(fx(1.0), fx(2.0));
    let b = C_(fx(3.0), fx(4.0));
    assert_eq!(a.mul(b), C_(fx(-5.0), fx(10.0)));
    assert_eq!(a.conj(), C_(fx(1.0), fx(-2.0)));
    assert_eq!(a.add(b), C_(fx(4.0), fx(6.0)));
    assert_eq!(a.sub(b), C_(fx(-2.0), fx(-2.0)));
    assert_eq!(a.scale(fx(2.0)), C_(fx(2.0), fx(4.0)));
    assert_eq!(b.div_real(fx(2.0)), C_(fx(1.5), fx(2.0)));
}

#[test]
fn grid_shape_and_indexing() {
    let g = Grid::zeros3(2, 3, 4);
    assert_eq!(g.ndim(), 3);
    assert_eq!(g.len(), 24);
    assert_eq!(g.idx3(1, 2, 3), 23);
    let g2 = Grid::zeros2(10, 10);
    assert_eq!(g2.idx2(5, 5), 55);
}
