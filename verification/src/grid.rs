//! Rectangular dense grids of complex samples.
//!
//! A [`Grid`] holds the samples of a complex-valued function over a
//! uniformly spaced domain of one, two or three dimensions, in row-major
//! order.  The well-formedness predicate ties the flat sample vector to
//! the shape: every cell of the rectangle is present, none is missing.

use vstd::prelude::*;

use crate::complex::{C, CV, c_zero_v};

verus! {

/// Product of the extents of a shape.
pub open spec fn prod_v(dims: Seq<nat>) -> nat
    decreases dims.len(),
{
    if dims.len() == 0 {
        1
    } else {
        prod_v(dims.drop_last()) * dims.last()
    }
}

pub proof fn lemma_prod1(a: nat)
    ensures
        prod_v(seq![a]) == a,
{
    assert(seq![a].drop_last() =~= Seq::<nat>::empty());
    assert(prod_v(Seq::<nat>::empty()) == 1);
    assert(prod_v(seq![a]) == prod_v(Seq::<nat>::empty()) * a);
}

pub proof fn lemma_prod2(a: nat, b: nat)
    ensures
        prod_v(seq![a, b]) == a * b,
{
    assert(seq![a, b].drop_last() =~= seq![a]);
    lemma_prod1(a);
}

pub proof fn lemma_prod3(a: nat, b: nat, c: nat)
    ensures
        prod_v(seq![a, b, c]) == (a * b) * c,
{
    assert(seq![a, b, c].drop_last() =~= seq![a, b]);
    lemma_prod2(a, b);
}

/// A dense grid of complex samples with one, two or three axes.
pub struct Grid {
    pub data: Vec<C>,
    pub dims: Vec<usize>,
}

impl Grid {
    /// The samples, in row-major order, as mathematical values.
    pub open spec fn cells(&self) -> Seq<CV> {
        self.data@.map(|i: int, c: C| c@)
    }

    /// The shape: one extent per axis.
    pub open spec fn dims_spec(&self) -> Seq<nat> {
        self.dims@.map(|i: int, d: usize| d as nat)
    }

    /// The grid is rectangular and dense: the flat sample vector holds
    /// exactly one sample per cell of the shape.
    pub open spec fn wf(&self) -> bool {
        1 <= self.dims@.len() <= 3 && self.data@.len() == prod_v(self.dims_spec())
    }

    pub fn ndim(&self) -> (d: usize)
        ensures
            d == self.dims@.len(),
    {
        self.dims.len()
    }

    pub fn len(&self) -> (n: usize)
        ensures
            n == self.data@.len(),
    {
        self.data.len()
    }

    pub fn at(&self, i: usize) -> (c: C)
        requires
            i < self.data@.len(),
        ensures
            c@ == self.cells()[i as int],
    {
        self.data[i]
    }

    pub fn set(&mut self, i: usize, c: C)
        requires
            i < old(self).data@.len(),
        ensures
            final(self).dims@ == old(self).dims@,
            final(self).data@ == old(self).data@.update(i as int, c),
            final(self).cells() =~= old(self).cells().update(i as int, c@),
    {
        self.data.set(i, c);
    }

    /// A one-axis grid owning the given samples.
    pub fn from_vec_1d(data: Vec<C>) -> (g: Grid)
        ensures
            g.wf(),
            g.dims@ =~= seq![data@.len() as usize],
            g.data@ == data@,
    {
        proof {
            lemma_prod1(data@.len() as nat);
        }
        let n = data.len();
        let mut dims: Vec<usize> = Vec::new();
        dims.push(n);
        let g = Grid { data, dims };
        proof {
            assert(g.dims_spec() =~= seq![n as nat]);
        }
        g
    }

    /// A one-axis grid of `n` zero samples.
    pub fn zeros1(n: usize) -> (g: Grid)
        ensures
            g.wf(),
            g.dims@ =~= seq![n],
            g.data@.len() == n,
            forall|i: int| 0 <= i < n ==> #[trigger] g.cells()[i] == c_zero_v(),
    {
        let g = Grid::from_vec_1d(zero_vec(n));
        g
    }

    /// A two-axis grid of `n` by `m` zero samples.
    pub fn zeros2(n: usize, m: usize) -> (g: Grid)
        requires
            n * m <= usize::MAX,
        ensures
            g.wf(),
            g.dims@ =~= seq![n, m],
            g.data@.len() == n * m,
            forall|i: int| 0 <= i < n * m ==> #[trigger] g.cells()[i] == c_zero_v(),
    {
        proof {
            lemma_prod2(n as nat, m as nat);
        }
        let data = zero_vec(n * m);
        let mut dims: Vec<usize> = Vec::new();
        dims.push(n);
        dims.push(m);
        let g = Grid { data, dims };
        proof {
            assert(g.dims_spec() =~= seq![n as nat, m as nat]);
        }
        g
    }

    /// A three-axis grid of `n` by `m` by `k` zero samples.
    pub fn zeros3(n: usize, m: usize, k: usize) -> (g: Grid)
        requires
            n * m <= usize::MAX,
            (n * m) * k <= usize::MAX,
        ensures
            g.wf(),
            g.dims@ =~= seq![n, m, k],
            g.data@.len() == (n * m) * k,
            forall|i: int| 0 <= i < (n * m) * k ==> #[trigger] g.cells()[i] == c_zero_v(),
    {
        proof {
            lemma_prod3(n as nat, m as nat, k as nat);
        }
        let data = zero_vec((n * m) * k);
        let mut dims: Vec<usize> = Vec::new();
        dims.push(n);
        dims.push(m);
        dims.push(k);
        let g = Grid { data, dims };
        proof {
            assert(g.dims_spec() =~= seq![n as nat, m as nat, k as nat]);
        }
        g
    }

    /// A copy of the shape vector.
    pub fn clone_dims(&self) -> (d: Vec<usize>)
        ensures
            d@ == self.dims@,
    {
        let mut d: Vec<usize> = Vec::new();
        let mut i: usize = 0;
        while i < self.dims.len()
            invariant
                i <= self.dims@.len(),
                d@ == self.dims@.take(i as int),
            decreases self.dims@.len() - i,
        {
            d.push(self.dims[i]);
            proof {
                assert(d@ =~= self.dims@.take(i + 1));
            }
            i += 1;
        }
        proof {
            assert(self.dims@.take(self.dims@.len() as int) =~= self.dims@);
        }
        d
    }

    /// Row-major linear index of cell (i, j) of a two-axis grid.
    pub fn idx2(&self, i: usize, j: usize) -> (k: usize)
        requires
            self.wf(),
            self.dims@.len() == 2,
            i < self.dims@[0],
            j < self.dims@[1],
        ensures
            k == i * self.dims@[1] + j,
            k < self.data@.len(),
    {
        let d0 = self.dims[0];
        let d1 = self.dims[1];
        let n = self.data.len();
        proof {
            assert(self.dims_spec() =~= seq![d0 as nat, d1 as nat]);
            lemma_prod2(d0 as nat, d1 as nat);
            assert(i * d1 + j < d0 * d1) by (nonlinear_arith)
                requires i < d0 && j < d1;
            assert(d0 * d1 == n);
        }
        i * d1 + j
    }

    /// Row-major linear index of cell (i, j, k) of a three-axis grid.
    pub fn idx3(&self, i: usize, j: usize, k: usize) -> (l: usize)
        requires
            self.wf(),
            self.dims@.len() == 3,
            i < self.dims@[0],
            j < self.dims@[1],
            k < self.dims@[2],
        ensures
            l == (i * self.dims@[1] + j) * self.dims@[2] + k,
            l < self.data@.len(),
    {
        let d0 = self.dims[0];
        let d1 = self.dims[1];
        let d2 = self.dims[2];
        let n = self.data.len();
        proof {
            assert(self.dims_spec() =~= seq![d0 as nat, d1 as nat, d2 as nat]);
            lemma_prod3(d0 as nat, d1 as nat, d2 as nat);
            assert((i * d1 + j) * d2 + k < (d0 * d1) * d2
                && i * d1 + j < d0 * d1
                && d0 * d1 <= (d0 * d1) * d2) by (nonlinear_arith)
                requires i < d0 && j < d1 && k < d2;
            assert((d0 * d1) * d2 == n);
        }
        (i * d1 + j) * d2 + k
    }
}

fn zero_vec(n: usize) -> (v: Vec<C>)
    ensures
        v@.len() == n,
        forall|i: int| 0 <= i < n ==> (#[trigger] v@[i])@ == c_zero_v(),
{
    let mut v: Vec<C> = Vec::new();
    let mut i: usize = 0;
    while i < n
        invariant
            i <= n,
            v@.len() == i,
            forall|j: int| 0 <= j < i ==> (#[trigger] v@[j])@ == c_zero_v(),
        decreases n - i,
    {
        v.push(C::zero());
        i += 1;
    }
    v
}

} // verus!
